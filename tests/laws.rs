use rps::{Choice, Outcome, Player};

const ALL: [Choice; 3] = [Choice::Rock, Choice::Paper, Choice::Scissors];

#[test]
fn parse_accepts_every_ascii_casing() {
    for s in ["rock", "ROCK", "RoCk", "rOcK"] {
        assert_eq!(Choice::parse(s), Ok(Choice::Rock));
    }
    for s in ["PAPER", "Paper", "pApEr"] {
        assert_eq!(Choice::parse(s), Ok(Choice::Paper));
    }
    for s in ["SCISSORS", "Scissors", "sCiSsOrS"] {
        assert_eq!(Choice::parse(s), Ok(Choice::Scissors));
    }
}

#[test]
fn parse_trims_white_space() {
    assert_eq!(Choice::parse("  paper\n"), Ok(Choice::Paper));
    assert_eq!(Choice::parse("\tscissors \r\n"), Ok(Choice::Scissors));
}

#[test]
fn parse_finds_keyword_among_other_text() {
    assert_eq!(Choice::parse("my choice is PAPER, final"), Ok(Choice::Paper));
    assert_eq!(Choice::parse("xxrockyy"), Ok(Choice::Rock));
}

#[test]
fn parse_takes_earliest_keyword() {
    assert_eq!(Choice::parse("ScissorsRockPaper"), Ok(Choice::Scissors));
    assert_eq!(Choice::parse("paper rock"), Ok(Choice::Paper));
    assert_eq!(Choice::parse("paperock"), Ok(Choice::Paper));
}

#[test]
fn parse_rejects_text_without_keyword() {
    assert_eq!(Choice::parse("banana"), Err(String::from("Invalid choice: banana!")));
    assert_eq!(Choice::parse("  roc k \n"), Err(String::from("Invalid choice: roc k!")));
    assert_eq!(Choice::parse(""), Err(String::from("Invalid choice: !")));
}

#[test]
fn parse_kelvin_sign_folds_to_small_k() {
    assert_eq!(Choice::parse("roc\u{212A}"), Ok(Choice::Rock));
}

#[test]
fn parse_long_s_is_found_but_not_a_keyword_in_small_letters() {
    let text = "\u{17F}ci\u{17F}\u{17F}or\u{17F}";
    assert_eq!(Choice::parse(text), Err(format!("Invalid choice: {}!", text)));
}

#[test]
fn from_word_needs_the_exact_keyword() {
    assert_eq!(Choice::from_word("rock"), Some(Choice::Rock));
    assert_eq!(Choice::from_word("paper"), Some(Choice::Paper));
    assert_eq!(Choice::from_word("scissors"), Some(Choice::Scissors));
    assert_eq!(Choice::from_word("Rock"), None);
    assert_eq!(Choice::from_word("rocks"), None);
}

#[test]
fn from_index_numbers_the_choices() {
    assert_eq!(Choice::from_index(0), Some(Choice::Rock));
    assert_eq!(Choice::from_index(1), Some(Choice::Paper));
    assert_eq!(Choice::from_index(2), Some(Choice::Scissors));
    assert_eq!(Choice::from_index(3), None);
    assert_eq!(Choice::from_index(u32::MAX), None);
}

#[test]
fn random_choice_is_one_of_three() {
    for _ in 0..50 {
        let c = Choice::rand();
        assert!(ALL.contains(&c));
    }
}

#[test]
fn equal_choices_draw() {
    for c in ALL {
        assert_eq!(c.outcome_against(&c), Outcome::Draw);
    }
}

#[test]
fn swapping_different_choices_swaps_win_and_lose() {
    for a in ALL {
        for b in ALL {
            if a != b {
                let ab = a.outcome_against(&b);
                let ba = b.outcome_against(&a);
                assert_ne!(ab, Outcome::Draw);
                assert_eq!(ab == Outcome::Win, ba == Outcome::Lose);
                assert_eq!(ab == Outcome::Lose, ba == Outcome::Win);
            }
        }
    }
}

#[test]
fn computer_player_has_a_choice() {
    for _ in 0..20 {
        let p = Player::new(false);
        assert!(p.choice.is_some());
        assert!(!p.is_human);
    }
}

#[test]
fn human_player_has_no_choice() {
    let p = Player::new(true);
    assert_eq!(p.choice, None);
    assert!(p.is_human);
}

#[test]
fn play_matches_outcome_against() {
    let mut p1 = Player::new(true);
    let mut p2 = Player::new(true);
    assert_eq!(p1.play(&p2), Err(String::from("Both players must have made a choice")));
    p2.choice = Some(Choice::Paper);
    assert!(p1.play(&p2).is_err());
    assert!(p2.play(&p1).is_err());
    for a in ALL {
        for b in ALL {
            p1.choice = Some(a);
            p2.choice = Some(b);
            assert_eq!(p1.play(&p2), Ok(a.outcome_against(&b)));
        }
    }
    p1.choice = Some(Choice::Rock);
    p2.choice = Some(Choice::Scissors);
    assert_eq!(p1.play(&p2), Ok(Outcome::Win));
}

#[test]
fn accept_input_sets_the_human_choice() {
    let mut p = Player::new(true);
    assert_eq!(p.accept_input("banana\n"), Err(String::from("Invalid choice: banana!")));
    assert_eq!(p.choice, None);
    assert_eq!(p.accept_input("  Scissors\n"), Ok(()));
    assert_eq!(p.choice, Some(Choice::Scissors));
}

#[test]
fn accept_input_leaves_the_computer_alone() {
    let mut p = Player::new(false);
    let before = p.choice;
    assert_eq!(p.accept_input("rock"), Ok(()));
    assert_eq!(p.choice, before);
}

#[test]
fn computer_player_keeps_the_drawn_choice() {
    for c in ALL {
        let p = Player::computer(c);
        assert!(!p.is_human);
        assert_eq!(p.choice, Some(c));
    }
}
