use rps::{Choice, Outcome, Player};

#[test]
fn test_outcome_to_string() {
    assert_eq!(Outcome::Win.to_string(), "Win");
    assert_eq!(Outcome::Lose.to_string(), "Lose");
    assert_eq!(Outcome::Draw.to_string(), "Draw");
}

#[test]
fn test_choice_to_string() {
    assert_eq!(Choice::Rock.to_string(), "rock");
    assert_eq!(Choice::Paper.to_string(), "paper");
    assert_eq!(Choice::Scissors.to_string(), "scissors");
}

#[test]
fn test_choice_parse() {
    // normal cases
    assert_eq!(Choice::parse(&String::from("rock")).unwrap(), Choice::Rock);
    assert_eq!(Choice::parse(&String::from("paper")).unwrap(), Choice::Paper);
    assert_eq!(Choice::parse(&String::from("scissors")).unwrap(), Choice::Scissors);

    // cases with excess characters
    assert_eq!(Choice::parse(&String::from("RockKK")).unwrap(), Choice::Rock);
    assert_eq!(Choice::parse(&String::from("paperzzzz")).unwrap(), Choice::Paper);
    assert_eq!(
        Choice::parse(&String::from("12341234scissorsacdkakd")).unwrap(),
        Choice::Scissors
    );

    // should use first match
    assert_eq!(Choice::parse(&String::from("RockPaperScissors")).unwrap(), Choice::Rock);
}

#[test]
fn test_non_human_characters_should_have_some_choice() {
    let human = Player::new(true);
    assert_eq!(human.choice, None);

    let non_human = Player::new(false);
    assert_eq!(non_human.choice.is_some(), true);
}

#[test]
fn test_players_must_have_choices_to_play() {
    let mut p1 = Player::new(true);
    let mut p2 = Player::new(true);
    assert_eq!(p1.choice, None);
    assert_eq!(p2.choice, None);
    assert_eq!(p1.play(&p2).is_err(), true);

    p1.choice = Some(Choice::Rock);
    assert_eq!(p1.play(&p2).is_err(), true);

    p2.choice = Some(Choice::Rock);
    assert_eq!(p1.play(&p2).is_ok(), true);
}

#[test]
fn test_outcome_against() {
    assert_eq!(Choice::Rock.outcome_against(&Choice::Rock), Outcome::Draw);
    assert_eq!(Choice::Rock.outcome_against(&Choice::Paper), Outcome::Lose);
    assert_eq!(Choice::Rock.outcome_against(&Choice::Scissors), Outcome::Win);
    assert_eq!(Choice::Paper.outcome_against(&Choice::Scissors), Outcome::Lose);
    assert_eq!(Choice::Paper.outcome_against(&Choice::Rock), Outcome::Win);
    assert_eq!(Choice::Scissors.outcome_against(&Choice::Rock), Outcome::Lose);
    assert_eq!(Choice::Scissors.outcome_against(&Choice::Paper), Outcome::Win);
}
