use vstd::prelude::*;

use crate::text::{lower_of, to_lower};
use crate::types::GameType;

verus! {

/// Pattern that marks a title as the game Termina.
pub const TERMINA_PATTERN: &'static str = "\\btermina\\b";

/// Pattern that marks a title as the game LISA.
pub const LISA_PATTERN: &'static str = "\\blisa\\b";

/// Characters that have a meaning in a regular expression.
pub open spec fn is_regex_meta(c: char) -> bool {
    c == '\\' || c == '.' || c == '+' || c == '*' || c == '?' || c == '(' || c == ')' || c
        == '|' || c == '[' || c == ']' || c == '{' || c == '}' || c == '^' || c == '$' || c
        == '#' || c == '&' || c == '-' || c == '~'
}

/// `s` with a backslash put before each regex meta character.
pub open spec fn regex_escaped(s: Seq<char>) -> Seq<char>
    decreases s.len(),
{
    if s.len() == 0 {
        seq![]
    } else if is_regex_meta(s.last()) {
        regex_escaped(s.drop_last()) + seq!['\\', s.last()]
    } else {
        regex_escaped(s.drop_last()).push(s.last())
    }
}

/// Relies on `regex::escape`: it copies the text and puts a backslash before
/// each meta character (the set `is_regex_meta` lists).
#[verifier::external_body]
fn regex_escape(text: &str) -> (r: String)
    ensures
        r@ == regex_escaped(text@),
{
    regex::escape(text)
}

/// `text` as a regular expression that matches it literally.
pub fn escape_text(text: &str) -> (r: String)
    ensures
        r@ == regex_escaped(text@),
{
    regex_escape(text)
}

/// Whether `pattern` compiles as a regular expression and matches somewhere
/// in `haystack`.
pub uninterp spec fn regex_finds(pattern: Seq<char>, haystack: Seq<char>) -> bool;

/// Relies on `regex::Regex::new` and `Regex::is_match`: whether the pattern
/// compiles depends on the pattern alone, and whether it matches on the
/// pattern and the haystack alone. A pattern that does not compile finds
/// nothing.
#[verifier::external_body]
fn regex_search(pattern: &str, haystack: &str) -> (r: bool)
    ensures
        r == regex_finds(pattern@, haystack@),
{
    match regex::Regex::new(pattern) {
        Ok(re) => re.is_match(haystack),
        Err(_) => false,
    }
}

/// The game a title names, from whether each game's pattern was found.
pub open spec fn game_type_for(termina: bool, lisa: bool) -> Option<GameType> {
    if termina {
        Some(GameType::Termina)
    } else if lisa {
        Some(GameType::LisaRPG)
    } else {
        None
    }
}

/// Picks the game from the two pattern searches; Termina wins over LISA.
pub fn game_type_from_matches(termina: bool, lisa: bool) -> (r: Option<GameType>)
    ensures
        r == game_type_for(termina, lisa),
{
    if termina {
        Some(GameType::Termina)
    } else if lisa {
        Some(GameType::LisaRPG)
    } else {
        None
    }
}

/// The game whose text needs handling of its own, told from the project's
/// title in lowercase; none when custom processing is disabled.
pub fn get_game_type(game_title: &str, disable_custom_processing: bool) -> (r: Option<GameType>)
    ensures
        disable_custom_processing ==> r is None,
        !disable_custom_processing ==> r == game_type_for(
            regex_finds(TERMINA_PATTERN@, lower_of(game_title@)),
            regex_finds(LISA_PATTERN@, lower_of(game_title@)),
        ),
{
    if disable_custom_processing {
        None
    } else {
        let lowercased = to_lower(game_title);
        let termina = regex_search(TERMINA_PATTERN, lowercased.as_str());
        let lisa = regex_search(LISA_PATTERN, lowercased.as_str());
        game_type_from_matches(termina, lisa)
    }
}

/// One past the last line break among `b[0..k]`, or 0 when there is none.
pub open spec fn line_start(b: Seq<u8>, k: int) -> int
    decreases k,
{
    if k <= 0 {
        0
    } else if b[k - 1] == 10 {
        k
    } else {
        line_start(b, k - 1)
    }
}

/// The last line of `b`: what follows the last line break that is not the
/// final byte (a final line break stays with the line).
pub open spec fn last_line_of(b: Seq<u8>) -> Seq<u8> {
    if b.len() == 0 {
        seq![]
    } else {
        b.subrange(line_start(b, b.len() - 1), b.len() as int)
    }
}

/// The last line of a file's contents.
pub fn last_line(bytes: &[u8]) -> (r: Vec<u8>)
    ensures
        r@ == last_line_of(bytes@),
{
    let n = bytes.len();
    let mut line: Vec<u8> = Vec::new();
    if n == 0 {
        return line;
    }
    let mut start: usize = n - 1;
    while start > 0 && bytes[start - 1] != 10
        invariant
            n == bytes@.len(),
            start < n,
            line_start(bytes@, n - 1) == line_start(bytes@, start as int),
        decreases start,
    {
        start = start - 1;
    }
    let mut i: usize = start;
    while i < n
        invariant
            start <= i <= n,
            n == bytes@.len(),
            line@ == bytes@.subrange(start as int, i as int),
        decreases n - i,
    {
        line.push(bytes[i]);
        i = i + 1;
        proof {
            assert(line@ == bytes@.subrange(start as int, i as int));
        }
    }
    line
}

} // verus!
