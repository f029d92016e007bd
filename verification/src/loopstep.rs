//! One turn of the game loop: what the game does with one incoming chat
//! message, and the lines it emits in return.  The transport that
//! carries the messages stays outside the library.
use crate::game::fresh;
use crate::game::render_spec;
use crate::game::solved;
use crate::game::step;
use crate::game::Secret;
use crate::norm::chars_to_string;
use crate::norm::norm_char;
use crate::norm::str_to_chars;
use vstd::prelude::*;
use vstd::string::StringExecFns;

verus! {

/// The decimal digit character for `d % 10`.
pub open spec fn digit_char(d: nat) -> char {
    ((48 + (d % 10)) as u8) as char
}

/// The decimal digits of `n`, most significant first.
pub open spec fn dec_digits(n: nat) -> Seq<char>
    decreases n,
{
    if n < 10 {
        seq![digit_char(n)]
    } else {
        dec_digits(n / 10).push(digit_char(n))
    }
}

/// Append the decimal digits of `n`.
fn push_digits(n: usize, out: &mut Vec<char>)
    ensures
        final(out)@ == old(out)@ + dec_digits(n as nat),
    decreases n,
{
    if n >= 10 {
        push_digits(n / 10, out);
    }
    let d: u8 = (n % 10) as u8;
    out.push((48 + d) as char);
    proof {
        assert(out@ =~= old(out)@ + dec_digits(n as nat));
    }
}

/// The decimal rendering of a count.
pub fn usize_to_string(n: usize) -> (r: String)
    ensures
        r@ == dec_digits(n as nat),
{
    let mut out: Vec<char> = Vec::new();
    push_digits(n, &mut out);
    proof {
        assert(out@ =~= dec_digits(n as nat));
    }
    chars_to_string(&out)
}

/// One turn of the game loop.  A message that is not exactly one
/// character is silently ignored: no state change, no output.  A
/// one-character message is a guess: the first line emitted is the
/// rendered state tagged with the guesser.  When the guess solves the
/// round, three more lines follow - the solved line with the attempt
/// count, the new-round announcement, and the fresh round's masked word
/// - and the round is replaced by one drawn from `words`.
pub fn handle_message(secret: &mut Secret, words: &Vec<String>, text: &str, author: &str) -> (out:
    Vec<String>)
    requires
        old(secret)@.wf(),
        old(secret).tries < usize::MAX,
        words@.len() > 0,
    ensures
        final(secret)@.wf(),
        text@.len() != 1 ==> final(secret)@ == old(secret)@ && out@.len() == 0,
        text@.len() == 1 ==> ({
            let s1 = step(old(secret)@, norm_char(text@[0]));
            &&& out@.len() >= 1
            &&& out@[0]@ == render_spec(s1) + " - "@ + author@
            &&& (!solved(s1) ==> final(secret)@ == s1 && out@.len() == 1)
            &&& (solved(s1) ==> {
                &&& out@.len() == 4
                &&& out@[1]@ == "Solved in "@ + dec_digits(s1.tries) + " tries!"@
                &&& out@[2]@ == "New word!"@
                &&& (exists|i: int|
                    0 <= i < words@.len() && final(secret)@ == fresh(#[trigger] words@[i]@))
                &&& out@[3]@ == render_spec(final(secret)@)
            })
        }),
{
    let cs = str_to_chars(text);
    if cs.len() != 1 {
        return Vec::new();
    }
    secret.guess(cs[0]);
    let mut line = secret.render();
    line.append(" - ");
    line.append(author);
    let mut out: Vec<String> = Vec::new();
    out.push(line);
    if secret.is_solved() {
        let mut solved_line = "Solved in ".to_owned();
        let count = usize_to_string(secret.tries);
        solved_line.append(count.as_str());
        solved_line.append(" tries!");
        out.push(solved_line);
        out.push("New word!".to_owned());
        let next = Secret::generate(words);
        let opening = next.render();
        *secret = next;
        out.push(opening);
    }
    out
}

} // verus!
