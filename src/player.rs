use crate::choice::{choice_of_index, outcome_of, parse_result, Choice};
use crate::outcome::Outcome;
use vstd::prelude::*;

verus! {

/// The message of a game played before both players have chosen.
pub open spec fn no_choice_message() -> Seq<char> {
    seq![
        'B', 'o', 't', 'h', ' ', 'p', 'l', 'a', 'y', 'e', 'r', 's', ' ', 'm', 'u', 's', 't', ' ',
        'h', 'a', 'v', 'e', ' ', 'm', 'a', 'd', 'e', ' ', 'a', ' ', 'c', 'h', 'o', 'i', 'c', 'e',
    ]
}

/// A participant of the game: a human, who chooses by typing a text, or the
/// computer, whose choice is drawn at random when it is created.
pub struct Player {
    pub choice: Option<Choice>,
    pub is_human: bool,
}

impl Player {
    /// A new player: a human has not chosen yet, the computer has chosen.
    pub fn new(is_human: bool) -> (r: Player)
        ensures
            r.is_human == is_human,
            is_human ==> r.choice is None,
            !is_human ==> r.choice is Some,
            !is_human ==> exists|n: u32| n < 3 && #[trigger] choice_of_index(n) == r.choice,
    {
        if !is_human {
            Player::computer(Choice::rand())
        } else {
            Player { choice: None, is_human }
        }
    }

    /// A computer player whose choice is `c`, the one drawn for it.
    pub fn computer(c: Choice) -> (r: Player)
        ensures
            !r.is_human,
            r.choice == Some(c),
    {
        Player { choice: Some(c), is_human: false }
    }

    /// Takes one line of a human player's input: a text that names a choice
    /// sets it, any other is rejected with the message that says why, and the
    /// player is left as it was. The computer takes no input.
    pub fn accept_input(&mut self, line: &str) -> (r: Result<(), String>)
        ensures
            final(self).is_human == old(self).is_human,
            !old(self).is_human ==> r is Ok && *final(self) == *old(self),
            old(self).is_human ==> (parse_result(line@) matches Ok(c) ==> (r is Ok
                && final(self).choice == Some(c))),
            old(self).is_human ==> (parse_result(line@) matches Err(m) ==> (r matches Err(e) && e@
                == m && *final(self) == *old(self))),
    {
        if !self.is_human {
            return Ok(());
        }
        match Choice::parse(line) {
            Ok(c) => {
                self.choice = Some(c);
                Ok(())
            },
            Err(e) => Err(e),
        }
    }

    /// The outcome of this player's choice against the opponent's; an error
    /// where either has not chosen.
    pub fn play(&self, opponent: &Self) -> (r: Result<Outcome, String>)
        ensures
            (self.choice is None || opponent.choice is None) ==> (r matches Err(e) && e@
                == no_choice_message()),
            (self.choice is Some && opponent.choice is Some) ==> r == Ok::<Outcome, String>(outcome_of(self.choice->Some_0, opponent.choice->Some_0)),
    {
        match (self.choice, opponent.choice) {
            (Some(c1), Some(c2)) => Ok(c1.outcome_against(&c2)),
            _ => {
                let e = "Both players must have made a choice".to_owned();
                proof {
                    reveal_strlit("Both players must have made a choice");
                }
                assert(e@ =~= no_choice_message());
                Err(e)
            },
        }
    }
}

} // verus!
