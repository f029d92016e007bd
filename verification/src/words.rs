//! The word bank: the candidate words come from one whitespace-separated
//! text, loaded once at startup; a list with no word is a fatal
//! configuration error.
use crate::norm::chars_to_string;
use crate::norm::str_to_chars;
use vstd::prelude::*;

verus! {

/// What char::is_whitespace returns for a character.
pub uninterp spec fn is_space(c: char) -> bool;

/// Relies on char::is_whitespace: true exactly for the characters with
/// the Unicode White_Space property, a fixed set.
#[verifier::external_body]
fn is_whitespace_char(c: char) -> (r: bool)
    ensures
        r == is_space(c),
{
    c.is_whitespace()
}

/// Length of the leading run of non-whitespace characters.
pub open spec fn token_len(s: Seq<char>) -> nat
    decreases s.len(),
{
    if s.len() == 0 || is_space(s[0]) {
        0
    } else {
        1 + token_len(s.drop_first())
    }
}

/// The whitespace-separated tokens of a character sequence, in order.
pub open spec fn split_ws(s: Seq<char>) -> Seq<Seq<char>>
    decreases s.len(),
    via split_ws_decreases
{
    if s.len() == 0 {
        Seq::empty()
    } else if is_space(s[0]) {
        split_ws(s.drop_first())
    } else {
        seq![s.take(token_len(s) as int)] + split_ws(s.skip(token_len(s) as int))
    }
}

#[via_fn]
proof fn split_ws_decreases(s: Seq<char>) {
    if s.len() != 0 && !is_space(s[0]) {
        lemma_token_len_bound(s);
        assert(token_len(s) >= 1);
    }
}

/// The leading token is never longer than the whole sequence.
proof fn lemma_token_len_bound(s: Seq<char>)
    ensures
        token_len(s) <= s.len(),
    decreases s.len(),
{
    if s.len() != 0 && !is_space(s[0]) {
        lemma_token_len_bound(s.drop_first());
    }
}

/// The character sequences behind a sequence of strings.
pub open spec fn views_of(words: Seq<String>) -> Seq<Seq<char>> {
    words.map_values(|w: String| w@)
}

/// The leading token of a sequence whose first `k` characters are not
/// whitespace and whose character `k` (if any) is, is those `k`
/// characters.
proof fn lemma_token_len(s: Seq<char>, k: int)
    requires
        0 <= k <= s.len(),
        forall|m: int| 0 <= m < k ==> !is_space(#[trigger] s[m]),
        k == s.len() || is_space(s[k]),
    ensures
        token_len(s) == k,
    decreases k,
{
    if k > 0 {
        lemma_token_len(s.drop_first(), k - 1);
    }
}

/// The whitespace-separated tokens of `text`, each as its own string.
pub fn get_words(text: &str) -> (words: Vec<String>)
    ensures
        views_of(words@) == split_ws(text@),
{
    let cs = str_to_chars(text);
    let mut words: Vec<String> = Vec::new();
    let mut i: usize = 0;
    proof {
        assert(cs@.skip(0) =~= cs@);
        assert(views_of(words@) + split_ws(cs@) =~= split_ws(cs@));
    }
    while i < cs.len()
        invariant
            i <= cs@.len(),
            cs@ == text@,
            views_of(words@) + split_ws(cs@.skip(i as int)) == split_ws(cs@),
        decreases cs@.len() - i,
    {
        if is_whitespace_char(cs[i]) {
            proof {
                assert(cs@.skip(i as int)[0] == cs@[i as int]);
                assert(cs@.skip(i as int).drop_first() =~= cs@.skip(i + 1 as int));
            }
            i += 1;
        } else {
            let ghost before = words@;
            let start = i;
            while i < cs.len()
                invariant
                    start <= i <= cs@.len(),
                    forall|k: int| start <= k < i ==> !is_space(#[trigger] cs@[k]),
                ensures
                    start <= i <= cs@.len(),
                    forall|k: int| start <= k < i ==> !is_space(#[trigger] cs@[k]),
                    i == cs@.len() || is_space(cs@[i as int]),
                decreases cs@.len() - i,
            {
                if is_whitespace_char(cs[i]) {
                    break ;
                }
                i += 1;
            }
            let mut tok: Vec<char> = Vec::new();
            let mut k = start;
            while k < i
                invariant
                    start <= k <= i <= cs@.len(),
                    tok@ == cs@.subrange(start as int, k as int),
                decreases i - k,
            {
                tok.push(cs[k]);
                proof {
                    assert(tok@ =~= cs@.subrange(start as int, k + 1 as int));
                }
                k += 1;
            }
            words.push(chars_to_string(&tok));
            proof {
                let suf = cs@.skip(start as int);
                assert forall|m: int| 0 <= m < i - start implies !is_space(#[trigger] suf[m]) by {
                    assert(suf[m] == cs@[m + start]);
                }
                if (i as int) < cs@.len() {
                    assert(suf[i - start] == cs@[i as int]);
                }
                lemma_token_len(suf, i - start);
                assert(suf.take(i - start) =~= cs@.subrange(start as int, i as int));
                assert(suf.skip(i - start) =~= cs@.skip(i as int));
                assert(split_ws(suf) == seq![tok@] + split_ws(cs@.skip(i as int)));
                assert(views_of(words@) =~= views_of(before).push(tok@));
                assert(views_of(words@) + split_ws(cs@.skip(i as int)) =~= views_of(before)
                    + split_ws(suf));
            }
        }
    }
    proof {
        assert(cs@.skip(cs@.len() as int) =~= Seq::<char>::empty());
        assert(views_of(words@) + split_ws(cs@.skip(i as int)) =~= views_of(words@));
    }
    words
}

/// Why the game cannot start.
#[derive(Clone, Copy, PartialEq, Eq, Structural, Debug)]
pub enum ConfigurationError {
    /// The word-list text held no word at all.
    EmptyWordList,
}

/// The candidate words of a word-list text: its whitespace-separated
/// tokens.  A text with no token is rejected - a word game with no words
/// cannot run.
pub fn load_words(text: &str) -> (r: Result<Vec<String>, ConfigurationError>)
    ensures
        match r {
            Ok(words) => views_of(words@) == split_ws(text@) && words@.len() > 0,
            Err(e) => e == ConfigurationError::EmptyWordList && split_ws(text@).len() == 0,
        },
{
    let words = get_words(text);
    if words.len() == 0 {
        Err(ConfigurationError::EmptyWordList)
    } else {
        Ok(words)
    }
}

} // verus!
