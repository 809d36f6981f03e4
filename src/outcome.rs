use vstd::prelude::*;

verus! {

/// The result of a first choice played against a second one, seen from the first.
#[derive(Debug, Clone, Copy, PartialEq, Eq, Structural)]
pub enum Outcome {
    Win,
    Lose,
    Draw,
}

impl Outcome {
    /// The word that announces this outcome.
    pub open spec fn word(self) -> Seq<char> {
        match self {
            Outcome::Win => seq!['W', 'i', 'n'],
            Outcome::Lose => seq!['L', 'o', 's', 'e'],
            Outcome::Draw => seq!['D', 'r', 'a', 'w'],
        }
    }

    pub fn to_string(&self) -> (r: String)
        ensures
            r@ == self.word(),
    {
        let r = match *self {
            Outcome::Win => "Win".to_owned(),
            Outcome::Lose => "Lose".to_owned(),
            Outcome::Draw => "Draw".to_owned(),
        };
        proof {
            reveal_strlit("Win");
            reveal_strlit("Lose");
            reveal_strlit("Draw");
        }
        assert(r@ =~= self.word());
        r
    }
}

} // verus!
