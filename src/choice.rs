use crate::outcome::Outcome;
use crate::text::{ascii_lower, is_white_space, lemma_trimmed_is_run, lower_of, lowercase, trim_white_space, trimmed};
use rand::Rng;
use vstd::prelude::*;

verus! {

/// One of the three moves of the game.
#[derive(Debug, Clone, Copy, PartialEq, Eq, Structural)]
pub enum Choice {
    Rock,
    Paper,
    Scissors,
}

/// The search pattern for the first keyword in a player's text.
pub const KEYWORD_PATTERN: &'static str = "(?i)(rock|paper|scissors)";

/// The keyword that names a choice, in small letters.
pub open spec fn word(c: Choice) -> Seq<char> {
    match c {
        Choice::Rock => seq!['r', 'o', 'c', 'k'],
        Choice::Paper => seq!['p', 'a', 'p', 'e', 'r'],
        Choice::Scissors => seq!['s', 'c', 'i', 's', 's', 'o', 'r', 's'],
    }
}

/// Whether character `c` matches the small letter `k` of a keyword when case
/// is ignored: the letter itself, its capital, and for `k` and `s` the other
/// member of their simple case folding class.
pub open spec fn folds_to(c: char, k: char) -> bool {
    c == k || c == ((k as u32) - 32) as char || (k == 'k' && c == '\u{212A}') || (k == 's' && c
        == '\u{17F}')
}

/// Whether keyword `w` occurs, ignoring case, in `s` from position `i`.
pub open spec fn matches_at(s: Seq<char>, i: int, w: Seq<char>) -> bool {
    0 <= i && i + w.len() <= s.len() && forall|j: int|
        0 <= j < w.len() ==> folds_to(#[trigger] s[i + j], w[j])
}

/// The keyword, if any, that occurs in `s` from position `i`, ignoring case.
pub open spec fn keyword_at(s: Seq<char>, i: int) -> Option<Choice> {
    if matches_at(s, i, word(Choice::Rock)) {
        Some(Choice::Rock)
    } else if matches_at(s, i, word(Choice::Paper)) {
        Some(Choice::Paper)
    } else if matches_at(s, i, word(Choice::Scissors)) {
        Some(Choice::Scissors)
    } else {
        None
    }
}

/// The first position from `i` on where a keyword occurs in `s`.
pub open spec fn first_keyword_from(s: Seq<char>, i: int) -> Option<int>
    decreases s.len() - i,
{
    if i < 0 || i >= s.len() {
        None
    } else if keyword_at(s, i) is Some {
        Some(i)
    } else {
        first_keyword_from(s, i + 1)
    }
}

/// The text of the keyword that occurs in `s` at position `i`.
pub open spec fn match_text(s: Seq<char>, i: int) -> Seq<char> {
    s.subrange(i, i + word(keyword_at(s, i)->Some_0).len())
}

/// The message that rejects the trimmed text `t`.
pub open spec fn invalid_message(t: Seq<char>) -> Seq<char> {
    seq!['I', 'n', 'v', 'a', 'l', 'i', 'd', ' ', 'c', 'h', 'o', 'i', 'c', 'e', ':', ' '] + t
        + seq!['!']
}

/// The choice whose keyword is exactly `w`.
pub open spec fn choice_of_word(w: Seq<char>) -> Option<Choice> {
    if w == word(Choice::Rock) {
        Some(Choice::Rock)
    } else if w == word(Choice::Paper) {
        Some(Choice::Paper)
    } else if w == word(Choice::Scissors) {
        Some(Choice::Scissors)
    } else {
        None
    }
}

/// What parsing the text `s` gives: the first keyword of the trimmed text,
/// ignoring case, once its text is turned into small letters; or the message
/// that rejects the trimmed text.
pub open spec fn parse_result(s: Seq<char>) -> Result<Choice, Seq<char>> {
    let t = trimmed(s);
    match first_keyword_from(t, 0) {
        Some(i) => match choice_of_word(lower_of(match_text(t, i))) {
            Some(c) => Ok(c),
            None => Err(invalid_message(t)),
        },
        None => Err(invalid_message(t)),
    }
}

/// Whether every character of `s` is ASCII.
pub open spec fn is_ascii_text(s: Seq<char>) -> bool {
    forall|i: int| 0 <= i < s.len() ==> (#[trigger] s[i] as u32) < 128
}

/// The first keyword of `s`, where its text is spelled in ASCII letters.
pub open spec fn first_ascii_keyword(s: Seq<char>) -> Option<Choice> {
    match first_keyword_from(s, 0) {
        Some(i) => if is_ascii_text(match_text(s, i)) {
            keyword_at(s, i)
        } else {
            None
        },
        None => None,
    }
}

/// Whether the keyword of `c` is spelled in `s` from position `p` in ASCII
/// letters of any case.
pub open spec fn spelled_at(s: Seq<char>, p: int, c: Choice) -> bool {
    0 <= p && p + word(c).len() <= s.len() && forall|j: int|
        0 <= j < word(c).len() ==> (#[trigger] s[p + j] as u32) < 128 && ascii_lower(s[p + j])
            == word(c)[j]
}

/// Whether `s` is the keyword of `c`, spelled in ASCII letters of any case.
pub open spec fn spells(s: Seq<char>, c: Choice) -> bool {
    s.len() == word(c).len() && spelled_at(s, 0, c)
}

/// Whether `s` holds the keyword of `c` spelled in ASCII letters, with no
/// keyword starting anywhere before it.
pub open spec fn embeds(s: Seq<char>, c: Choice) -> bool {
    exists|p: int|
        spelled_at(s, p, c) && forall|i: int| 0 <= i < p ==> (#[trigger] keyword_at(s, i)) is None
}

/// Whether no keyword occurs anywhere in `s`, ignoring case.
pub open spec fn has_no_keyword(s: Seq<char>) -> bool {
    forall|i: int| 0 <= i < s.len() ==> (#[trigger] keyword_at(s, i)) is None
}

/// The outcome of `a` played against `b`.
pub open spec fn outcome_of(a: Choice, b: Choice) -> Outcome {
    if a == b {
        Outcome::Draw
    } else if (a == Choice::Rock && b == Choice::Paper) || (a == Choice::Paper && b
        == Choice::Scissors) || (a == Choice::Scissors && b == Choice::Rock) {
        Outcome::Lose
    } else {
        Outcome::Win
    }
}

/// The choice drawn as number `n` of 0, 1, 2.
pub open spec fn choice_of_index(n: u32) -> Option<Choice> {
    if n == 0 {
        Some(Choice::Rock)
    } else if n == 1 {
        Some(Choice::Paper)
    } else if n == 2 {
        Some(Choice::Scissors)
    } else {
        None
    }
}

/// Relies on `rand::thread_rng` and `Rng::gen_range`: a number below `n`,
/// drawn at random; the range is not empty, so the call does not panic.
#[verifier::external_body]
fn draw_below(n: u32) -> (r: u32)
    requires
        n > 0,
    ensures
        r < n,
{
    rand::thread_rng().gen_range(0..n)
}

/// Relies on `regex::Regex::new` and `Regex::find`: the pattern compiles, and
/// the search finds the leftmost match, where a letter matches the letters of
/// its simple case folding class (for `k` also KELVIN SIGN, for `s` also
/// LATIN SMALL LETTER LONG S). The keywords start with letters of different
/// classes, so at most one of them matches at a position.
#[verifier::external_body]
fn find_keyword(pattern: &str, haystack: &str) -> (r: Option<String>)
    requires
        pattern@ == KEYWORD_PATTERN@,
    ensures
        r is None <==> first_keyword_from(haystack@, 0) is None,
        r is Some ==> r->Some_0@ == match_text(haystack@, first_keyword_from(haystack@, 0)->Some_0),
{
    match regex::Regex::new(pattern) {
        Ok(re) => re.find(haystack).map(|m| m.as_str().to_owned()),
        Err(_) => None,
    }
}

/// A keyword that occurs at a position is the one found there: the three
/// keywords start with letters that fold differently.
proof fn lemma_keyword_found(s: Seq<char>, i: int, c: Choice)
    requires
        matches_at(s, i, word(c)),
    ensures
        keyword_at(s, i) == Some(c),
{
    assert(folds_to(s[i + 0], word(c)[0]));
}

/// The first keyword from `i` on lies at or after `i`, and none lies between.
proof fn lemma_first_keyword_least(s: Seq<char>, i: int)
    ensures
        first_keyword_from(s, i) matches Some(m) ==> i <= m < s.len() && keyword_at(s, m) is Some
            && forall|j: int| i <= j < m ==> (#[trigger] keyword_at(s, j)) is None,
    decreases s.len() - i,
{
    if 0 <= i < s.len() && keyword_at(s, i) is None {
        lemma_first_keyword_least(s, i + 1);
    }
}

/// A keyword at `m` with none before it from `i` on is the first one.
proof fn lemma_first_keyword_at(s: Seq<char>, i: int, m: int)
    requires
        0 <= i <= m,
        keyword_at(s, m) is Some,
        forall|j: int| i <= j < m ==> (#[trigger] keyword_at(s, j)) is None,
    ensures
        first_keyword_from(s, i) == Some(m),
    decreases m - i,
{
    if i < m {
        lemma_first_keyword_at(s, i + 1, m);
    }
}

/// With no keyword from `i` on, none is found.
proof fn lemma_no_first_keyword(s: Seq<char>, i: int)
    requires
        0 <= i,
        forall|j: int| i <= j < s.len() ==> (#[trigger] keyword_at(s, j)) is None,
    ensures
        first_keyword_from(s, i) is None,
    decreases s.len() - i,
{
    if i < s.len() {
        lemma_no_first_keyword(s, i + 1);
    }
}

/// A keyword that occurs in a run of `s` occurs in `s` at the same place.
proof fn lemma_keyword_in_run(s: Seq<char>, a: int, b: int, j: int)
    requires
        0 <= a <= b <= s.len(),
        keyword_at(s.subrange(a, b), j) is Some,
    ensures
        keyword_at(s, a + j) == keyword_at(s.subrange(a, b), j),
{
    let t = s.subrange(a, b);
    let c = keyword_at(t, j)->Some_0;
    assert forall|k: int| 0 <= k < word(c).len() implies folds_to(#[trigger] s[a + j + k], word(c)[k]) by {
        assert(s[a + j + k] == t[j + k]);
    }
    lemma_keyword_found(s, a + j, c);
}

/// A keyword spelled in ASCII letters is a keyword found there, and its text
/// in small letters is the keyword.
proof fn lemma_spelled_is_found(s: Seq<char>, p: int, c: Choice)
    requires
        spelled_at(s, p, c),
    ensures
        keyword_at(s, p) == Some(c),
        match_text(s, p) == s.subrange(p, p + word(c).len()),
        is_ascii_text(match_text(s, p)),
{
    assert forall|j: int| 0 <= j < word(c).len() implies folds_to(#[trigger] s[p + j], word(c)[j]) by {
        assert((s[p + j] as u32) < 128 && ascii_lower(s[p + j]) == word(c)[j]);
    }
    lemma_keyword_found(s, p, c);
    let m = match_text(s, p);
    assert forall|i: int| 0 <= i < m.len() implies (#[trigger] m[i] as u32) < 128 by {
        assert(m[i] == s[p + i]);
    }
}

/// The text of a keyword found in ASCII letters, turned into small letters, is
/// the keyword.
proof fn lemma_ascii_match_lowers(s: Seq<char>, i: int)
    requires
        keyword_at(s, i) is Some,
        is_ascii_text(match_text(s, i)),
    ensures
        match_text(s, i).map_values(|x: char| ascii_lower(x)) == word(keyword_at(s, i)->Some_0),
{
    let c = keyword_at(s, i)->Some_0;
    let m = match_text(s, i);
    let l = m.map_values(|x: char| ascii_lower(x));
    assert forall|j: int| 0 <= j < l.len() implies l[j] == word(c)[j] by {
        assert(m[j] == s[i + j]);
        assert(folds_to(s[i + j], word(c)[j]));
        assert((m[j] as u32) < 128);
    }
    assert(l =~= word(c));
}

/// The first keyword of the trimmed text, where `s` embeds a keyword.
proof fn lemma_embedded_is_first(s: Seq<char>, c: Choice)
    requires
        embeds(s, c),
    ensures
        first_ascii_keyword(trimmed(s)) == Some(c),
{
    let p = choose|p: int|
        spelled_at(s, p, c) && forall|i: int| 0 <= i < p ==> (#[trigger] keyword_at(s, i)) is None;
    let (a, b) = lemma_trimmed_is_run(s);
    let t = trimmed(s);
    let n = word(c).len() as int;
    assert(ascii_lower(s[p + 0]) == word(c)[0]);
    assert(ascii_lower(s[p + (n - 1)]) == word(c)[n - 1]);
    assert(a <= p) by {
        if p < a {
            assert(is_white_space(s[p]));
        }
    }
    assert(p + n <= b) by {
        if p + n > b {
            assert(is_white_space(s[p + n - 1]));
        }
    }
    let q = p - a;
    assert forall|j: int| 0 <= j < n implies (#[trigger] t[q + j] as u32) < 128 && ascii_lower(
        t[q + j],
    ) == word(c)[j] by {
        assert(t[q + j] == s[p + j]);
    }
    lemma_spelled_is_found(t, q, c);
    assert forall|j: int| 0 <= j < q implies (#[trigger] keyword_at(t, j)) is None by {
        if keyword_at(t, j) is Some {
            lemma_keyword_in_run(s, a, b, j);
        }
    }
    lemma_first_keyword_at(t, 0, q);
}

/// With no keyword in `s`, none is in its trimmed text.
proof fn lemma_none_after_trim(s: Seq<char>)
    requires
        has_no_keyword(s),
    ensures
        first_keyword_from(trimmed(s), 0) is None,
{
    let (a, b) = lemma_trimmed_is_run(s);
    let t = trimmed(s);
    assert forall|j: int| 0 <= j < t.len() implies (#[trigger] keyword_at(t, j)) is None by {
        if keyword_at(t, j) is Some {
            lemma_keyword_in_run(s, a, b, j);
            assert(keyword_at(s, a + j) is None);
        }
    }
    lemma_no_first_keyword(t, 0);
}

/// Different choices swap winning and losing when they swap sides.
pub proof fn outcome_swaps_sides(a: Choice, b: Choice)
    requires
        a != b,
    ensures
        outcome_of(a, b) == Outcome::Win <==> outcome_of(b, a) == Outcome::Lose,
        outcome_of(a, b) == Outcome::Lose <==> outcome_of(b, a) == Outcome::Win,
{
}

/// The message that rejects the trimmed text `t`.
fn invalid_choice(t: &str) -> (r: String)
    ensures
        r@ == invalid_message(t@),
{
    let mut r = "Invalid choice: ".to_owned();
    r.append(t);
    r.append("!");
    proof {
        reveal_strlit("Invalid choice: ");
        reveal_strlit("!");
    }
    assert(r@ =~= invalid_message(t@));
    r
}

impl Choice {
    /// The keyword of this choice.
    pub fn to_string(&self) -> (r: String)
        ensures
            r@ == word(*self),
    {
        let r = match *self {
            Choice::Rock => "rock".to_owned(),
            Choice::Paper => "paper".to_owned(),
            Choice::Scissors => "scissors".to_owned(),
        };
        proof {
            reveal_strlit("rock");
            reveal_strlit("paper");
            reveal_strlit("scissors");
        }
        assert(r@ =~= word(*self));
        r
    }

    /// The choice drawn as number `n`: 0 is rock, 1 paper, 2 scissors.
    pub fn from_index(n: u32) -> (r: Option<Choice>)
        ensures
            r == choice_of_index(n),
            n < 3 <==> r is Some,
    {
        if n == 0 {
            Some(Choice::Rock)
        } else if n == 1 {
            Some(Choice::Paper)
        } else if n == 2 {
            Some(Choice::Scissors)
        } else {
            None
        }
    }

    /// A choice drawn at random, each of the three alike.
    pub fn rand() -> (r: Choice)
        ensures
            exists|n: u32| n < 3 && #[trigger] choice_of_index(n) == Some(r),
    {
        let n = draw_below(3);
        let r = Choice::from_index(n).unwrap();
        assert(n < 3 && choice_of_index(n) == Some(r));
        r
    }

    /// The choice whose keyword is exactly `w`.
    pub fn from_word(w: &str) -> (r: Option<Choice>)
        ensures
            r == choice_of_word(w@),
    {
        let w = w.to_owned();
        let rock = "rock".to_owned();
        let paper = "paper".to_owned();
        let scissors = "scissors".to_owned();
        proof {
            reveal_strlit("rock");
            reveal_strlit("paper");
            reveal_strlit("scissors");
            assert(rock@ =~= word(Choice::Rock));
            assert(paper@ =~= word(Choice::Paper));
            assert(scissors@ =~= word(Choice::Scissors));
        }
        if w == rock {
            Some(Choice::Rock)
        } else if w == paper {
            Some(Choice::Paper)
        } else if w == scissors {
            Some(Choice::Scissors)
        } else {
            None
        }
    }

    /// Reads a choice from a player's text: the first of the keywords `rock`,
    /// `paper`, `scissors` found in it, ignoring case and whatever surrounds
    /// it; a text without one is rejected with a message that quotes it.
    pub fn parse(s: &str) -> (r: Result<Choice, String>)
        ensures
            r matches Ok(c) ==> parse_result(s@) == Ok::<Choice, Seq<char>>(c),
            r matches Err(e) ==> parse_result(s@) == Err::<Choice, Seq<char>>(e@),
            first_ascii_keyword(trimmed(s@)) matches Some(c) ==> r == Ok::<Choice, String>(c),
            forall|c: Choice| #[trigger] spells(s@, c) ==> r == Ok::<Choice, String>(c),
            forall|c: Choice| #[trigger] embeds(s@, c) ==> r == Ok::<Choice, String>(c),
            has_no_keyword(s@) ==> (r matches Err(e) && e@ == invalid_message(trimmed(s@))),
    {
        let t = trim_white_space(s);
        let found = find_keyword(KEYWORD_PATTERN, t);
        proof {
            assert forall|c: Choice| #[trigger] spells(s@, c) implies embeds(s@, c) by {
                assert(spelled_at(s@, 0, c));
            }
            assert forall|c: Choice| #[trigger] embeds(s@, c) implies first_ascii_keyword(
                trimmed(s@),
            ) == Some(c) by {
                lemma_embedded_is_first(s@, c);
            }
            if has_no_keyword(s@) {
                lemma_none_after_trim(s@);
            }
            let tv = t@;
            if let Some(i) = first_keyword_from(tv, 0) {
                lemma_first_keyword_least(tv, 0);
                if is_ascii_text(match_text(tv, i)) {
                    lemma_ascii_match_lowers(tv, i);
                }
            }
        }
        match found {
            Some(m) => {
                let w = lowercase(m.as_str());
                match Choice::from_word(w.as_str()) {
                    Some(c) => Ok(c),
                    None => Err(invalid_choice(t)),
                }
            },
            None => Err(invalid_choice(t)),
        }
    }

    /// The outcome of this choice played against `c2`.
    pub fn outcome_against(&self, c2: &Self) -> (r: Outcome)
        ensures
            r == outcome_of(*self, *c2),
            *self == *c2 ==> r == Outcome::Draw,
            *self != *c2 ==> r != Outcome::Draw,
    {
        if *self == *c2 {
            Outcome::Draw
        } else if *self == Choice::Rock && *c2 == Choice::Paper {
            Outcome::Lose
        } else if *self == Choice::Paper && *c2 == Choice::Scissors {
            Outcome::Lose
        } else if *self == Choice::Scissors && *c2 == Choice::Rock {
            Outcome::Lose
        } else {
            Outcome::Win
        }
    }
}

} // verus!
