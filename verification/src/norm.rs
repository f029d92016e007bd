//! Character normalization: every comparison in the game is made on
//! characters that have had their diacritics folded away and have then
//! been upper-cased, so that a plain `e` matches an accented one.
use vstd::prelude::*;
use vstd::string::StrSliceExecFns;

verus! {

/// What `diacritics::remove_diacritics` makes of one character: the first
/// character of its transliteration. The crate maps each character through
/// a fixed table (a character it does not know passes through unchanged),
/// so this is a function of the character alone.
pub uninterp spec fn folded(c: char) -> char;

/// ASCII upper-casing: the lower-case letters `a` to `z` move to their
/// upper-case form, every other character stays as it is.
pub open spec fn spec_ascii_upper(c: char) -> char {
    if 'a' <= c && c <= 'z' {
        (((c as u8) - 32) as char)
    } else {
        c
    }
}

/// The canonical form of a character: diacritics folded away, then
/// upper-cased. Applied identically to the secret word and to guesses.
pub open spec fn norm_char(c: char) -> char {
    spec_ascii_upper(folded(c))
}

/// Relies on diacritics::remove_diacritics: a per-character transliteration
/// table, so its output on a one-character string depends on that character
/// alone, and every character maps to at least one output character.
#[verifier::external_body]
fn fold_char(c: char) -> (r: char)
    ensures
        r == folded(c),
{
    diacritics::remove_diacritics(&c.to_string()).chars().next().unwrap_or(c)
}

/// Upper-case an ASCII letter; leave every other character unchanged.
pub fn ascii_upper(c: char) -> (r: char)
    ensures
        r == spec_ascii_upper(c),
{
    if 'a' <= c && c <= 'z' {
        ((c as u8) - 32) as char
    } else {
        c
    }
}

/// The canonical form of a character: fold diacritics, then upper-case.
pub fn normalize_char(c: char) -> (r: char)
    ensures
        r == norm_char(c),
{
    ascii_upper(fold_char(c))
}

/// The characters of a string, as a vector.
pub fn str_to_chars(s: &str) -> (r: Vec<char>)
    ensures
        r@ == s@,
{
    let n: usize = s.unicode_len();
    let mut v: Vec<char> = Vec::new();
    let mut i: usize = 0;
    while i < n
        invariant
            i <= n,
            n == s@.len(),
            v@ == s@.take(i as int),
        decreases n - i,
    {
        let c = s.get_char(i);
        v.push(c);
        proof {
            assert(v@ =~= s@.take(i + 1 as int));
        }
        i += 1;
    }
    proof {
        assert(s@.take(n as int) =~= s@);
    }
    v
}

/// Relies on String::from_iter (through Iterator::collect): collecting
/// characters yields the string of exactly those characters, in order.
#[verifier::external_body]
pub(crate) fn chars_to_string(v: &Vec<char>) -> (r: String)
    ensures
        r@ == v@,
{
    v.iter().collect()
}

} // verus!
