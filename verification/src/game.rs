//! The game state machine: one `Secret` per round, mutated only by
//! `guess`, read by `is_solved` and `render`.
use crate::norm::chars_to_string;
use crate::norm::norm_char;
use crate::norm::normalize_char;
use crate::norm::str_to_chars;
use vstd::prelude::*;

verus! {

/// Mathematical model of one round: the secret word, its normalized
/// form, the letters confirmed present (`found`), the letters confirmed
/// absent (`tried`), and the count of informative guesses (`tries`).
#[verifier::ext_equal]
pub struct Model {
    pub word: Seq<char>,
    pub norm: Seq<char>,
    pub found: Seq<char>,
    pub tried: Seq<char>,
    pub tries: nat,
}

impl Model {
    /// Well-formedness: the normalized word is as long as the word,
    /// `found` and `tried` hold no duplicates, every found letter occurs
    /// in the normalized word, and no tried letter does (so the two sets
    /// are disjoint).
    pub open spec fn wf(self) -> bool {
        &&& self.norm.len() == self.word.len()
        &&& self.found.no_duplicates()
        &&& self.tried.no_duplicates()
        &&& forall|i: int|
            0 <= i < self.found.len() ==> self.norm.contains(#[trigger] self.found[i])
        &&& forall|i: int|
            0 <= i < self.tried.len() ==> !self.norm.contains(#[trigger] self.tried[i])
    }
}

/// The state a round starts in: the word, its letterwise normalization,
/// nothing found, nothing tried, no attempts.
pub open spec fn fresh(word: Seq<char>) -> Model {
    Model {
        word: word,
        norm: word.map_values(|c: char| norm_char(c)),
        found: Seq::empty(),
        tried: Seq::empty(),
        tries: 0,
    }
}

/// One guess of the already-normalized letter `g`: a hit adds `g` to
/// `found` (if new) and counts an attempt; a fresh miss adds `g` to
/// `tried` and counts an attempt; a repeated miss changes nothing.
pub open spec fn step(s: Model, g: char) -> Model {
    if s.norm.contains(g) {
        Model {
            found: if s.found.contains(g) {
                s.found
            } else {
                s.found.push(g)
            },
            tries: s.tries + 1,
            ..s
        }
    } else if !s.tried.contains(g) {
        Model { tried: s.tried.push(g), tries: s.tries + 1, ..s }
    } else {
        s
    }
}

/// A round is solved when every letter of the normalized word is found.
pub open spec fn solved(s: Model) -> bool {
    forall|i: int| 0 <= i < s.norm.len() ==> s.found.contains(#[trigger] s.norm[i])
}

/// The masked word: each position shows its original character once the
/// normalized letter at that position is found, and `-` before that.
pub open spec fn mask_of(s: Model) -> Seq<char> {
    Seq::new(s.word.len(), |i: int| if s.found.contains(s.norm[i]) { s.word[i] } else { '-' })
}

/// The letters from position `i` of the alphabet (0 is `A`) to `Z` that
/// occur in `tried`, in alphabetical order.
pub open spec fn alpha_from(tried: Seq<char>, i: int) -> Seq<char>
    decreases 26 - i,
{
    if i >= 26 {
        Seq::empty()
    } else {
        let c = ((65 + i) as u8) as char;
        (if tried.contains(c) {
            seq![c]
        } else {
            Seq::empty()
        }) + alpha_from(tried, i + 1)
    }
}

/// The tried letters `A` to `Z`, in alphabetical order.
pub open spec fn tried_list(tried: Seq<char>) -> Seq<char> {
    alpha_from(tried, 0)
}

/// The suffix after the masked word: nothing while no letter missed,
/// else a separator and the missed letters in alphabetical order.
pub open spec fn suffix_of(s: Model) -> Seq<char> {
    if s.tried.len() == 0 {
        Seq::empty()
    } else {
        seq![' ', '/', ' '] + tried_list(s.tried)
    }
}

/// The whole display string: masked word, then the tried-letter suffix.
pub open spec fn render_spec(s: Model) -> Seq<char> {
    mask_of(s) + suffix_of(s)
}

/// Whether a vector of characters holds `c`.
fn contains_char(v: &Vec<char>, c: char) -> (r: bool)
    ensures
        r == v@.contains(c),
{
    let mut i: usize = 0;
    while i < v.len()
        invariant
            i <= v@.len(),
            forall|j: int| 0 <= j < i ==> v@[j] != c,
        decreases v@.len() - i,
    {
        if v[i] == c {
            return true;
        }
        i += 1;
    }
    false
}

/// One round of the game.
pub struct Secret {
    pub word: Vec<char>,
    pub norm: Vec<char>,
    pub found: Vec<char>,
    pub tried: Vec<char>,
    pub tries: usize,
}

impl View for Secret {
    type V = Model;

    open spec fn view(&self) -> Model {
        Model {
            word: self.word@,
            norm: self.norm@,
            found: self.found@,
            tried: self.tried@,
            tries: self.tries as nat,
        }
    }
}

/// Relies on rand::random: some value of the type; nothing is promised
/// of which one.
pub assume_specification<T>[ rand::random::<T> ]() -> (r: T)
    where
        rand::distributions::Standard: rand::distributions::Distribution<T>,
;

/// A guess preserves well-formedness.
pub proof fn lemma_step_wf(s: Model, g: char)
    requires
        s.wf(),
    ensures
        step(s, g).wf(),
{
    let t = step(s, g);
    if s.norm.contains(g) {
        if !s.found.contains(g) {
            assert forall|i: int, j: int| 0 <= i < j < t.found.len() implies t.found[i]
                != t.found[j] by {
                if j == s.found.len() {
                    assert(s.found.contains(s.found[i]));
                }
            }
            assert forall|i: int| 0 <= i < t.found.len() implies t.norm.contains(
                #[trigger] t.found[i],
            ) by {
                if i < s.found.len() {
                    assert(s.norm.contains(s.found[i]));
                }
            }
        }
    } else if !s.tried.contains(g) {
        assert forall|i: int, j: int| 0 <= i < j < t.tried.len() implies t.tried[i]
            != t.tried[j] by {
            if j == s.tried.len() {
                assert(s.tried.contains(s.tried[i]));
            }
        }
        assert forall|i: int| 0 <= i < t.tried.len() implies !t.norm.contains(
            #[trigger] t.tried[i],
        ) by {
            if i < s.tried.len() {
                assert(!s.norm.contains(s.tried[i]));
            }
        }
    }
}

impl Secret {
    /// A fresh round for the given secret word.
    pub fn from(word: &str) -> (s: Secret)
        ensures
            s@ == fresh(word@),
            s@.wf(),
    {
        let w = str_to_chars(word);
        let mut norm: Vec<char> = Vec::new();
        let mut i: usize = 0;
        while i < w.len()
            invariant
                i <= w@.len(),
                w@ == word@,
                norm@.len() == i,
                forall|j: int| 0 <= j < i ==> norm@[j] == norm_char(#[trigger] w@[j]),
            decreases w@.len() - i,
        {
            let c = normalize_char(w[i]);
            norm.push(c);
            i += 1;
        }
        let s = Secret { word: w, norm, found: Vec::new(), tried: Vec::new(), tries: 0 };
        proof {
            assert(s@.norm =~= word@.map_values(|c: char| norm_char(c)));
            assert(s@ =~= fresh(word@));
        }
        s
    }

    /// Apply one guess: the letter is normalized, then a hit joins
    /// `found`, a fresh miss joins `tried` and a repeated miss is free.
    pub fn guess(&mut self, c: char)
        requires
            old(self)@.wf(),
            old(self).tries < usize::MAX,
        ensures
            final(self)@ == step(old(self)@, norm_char(c)),
            final(self)@.wf(),
    {
        let g = normalize_char(c);
        if contains_char(&self.norm, g) {
            if !contains_char(&self.found, g) {
                self.found.push(g);
            }
            self.tries = self.tries + 1;
        } else if !contains_char(&self.tried, g) {
            self.tried.push(g);
            self.tries = self.tries + 1;
        }
        proof {
            assert(self@ =~= step(old(self)@, norm_char(c)));
            lemma_step_wf(old(self)@, norm_char(c));
        }
    }

    /// True exactly when every normalized letter of the word is found.
    pub fn is_solved(&self) -> (r: bool)
        ensures
            r == solved(self@),
    {
        let mut i: usize = 0;
        while i < self.norm.len()
            invariant
                i <= self.norm@.len(),
                forall|j: int| 0 <= j < i ==> self.found@.contains(#[trigger] self.norm@[j]),
            decreases self.norm@.len() - i,
        {
            if !contains_char(&self.found, self.norm[i]) {
                proof {
                    assert(!solved(self@)) by {
                        assert(!self@.found.contains(self@.norm[i as int]));
                    }
                }
                return false;
            }
            i += 1;
        }
        true
    }

    /// The display string: the masked word, then, once a letter has
    /// missed, a separator and the missed letters in alphabetical order.
    pub fn render(&self) -> (r: String)
        requires
            self@.wf(),
        ensures
            r@ == render_spec(self@),
    {
        let mut out: Vec<char> = Vec::new();
        let mut i: usize = 0;
        while i < self.word.len()
            invariant
                self@.wf(),
                i <= self.word@.len(),
                out@ == mask_of(self@).take(i as int),
            decreases self.word@.len() - i,
        {
            let c = if contains_char(&self.found, self.norm[i]) {
                self.word[i]
            } else {
                '-'
            };
            out.push(c);
            proof {
                assert(out@ =~= mask_of(self@).take(i + 1 as int));
            }
            i += 1;
        }
        proof {
            assert(mask_of(self@).take(self.word@.len() as int) =~= mask_of(self@));
        }
        if self.tried.len() > 0 {
            out.push(' ');
            out.push('/');
            out.push(' ');
            let ghost full = mask_of(self@) + suffix_of(self@);
            proof {
                assert(out@ + alpha_from(self@.tried, 0) =~= full);
            }
            let mut b: u8 = 65;
            while b <= 90
                invariant
                    self@.wf(),
                    65 <= b <= 91,
                    full == mask_of(self@) + suffix_of(self@),
                    out@ + alpha_from(self@.tried, b as int - 65) == full,
                decreases 91 - b,
            {
                let c = b as char;
                let ghost out0 = out@;
                if contains_char(&self.tried, c) {
                    out.push(c);
                }
                proof {
                    let j = b as int - 65;
                    assert(((65 + j) as u8) as char == c);
                    assert(alpha_from(self@.tried, j) == (if self@.tried.contains(c) {
                        seq![c]
                    } else {
                        Seq::<char>::empty()
                    }) + alpha_from(self@.tried, j + 1));
                    assert(out@ + alpha_from(self@.tried, j + 1) =~= out0 + alpha_from(
                        self@.tried,
                        j,
                    ));
                }
                b += 1;
            }
            proof {
                assert(alpha_from(self@.tried, 26) =~= Seq::<char>::empty());
                assert(out@ =~= full);
            }
        } else {
            proof {
                assert(out@ =~= render_spec(self@));
            }
        }
        chars_to_string(&out)
    }

    /// A fresh round with a word drawn from the list.
    pub fn generate(words: &Vec<String>) -> (s: Secret)
        requires
            words@.len() > 0,
        ensures
            exists|i: int| 0 <= i < words@.len() && s@ == fresh(#[trigger] words@[i]@),
            s@.wf(),
    {
        let r: usize = rand::random();
        let i = r % words.len();
        let s = Secret::from(words[i].as_str());
        proof {
            assert(s@ == fresh(words@[i as int]@));
        }
        s
    }
}

/// The word and its normalization never change under a guess, a found
/// letter stays found, a tried letter stays tried, and the attempt count
/// never decreases.
pub proof fn lemma_step_keeps(s: Model, g: char)
    ensures
        step(s, g).word == s.word,
        step(s, g).norm == s.norm,
        step(s, g).tried == s.tried || step(s, g).tried == s.tried.push(g),
        step(s, g).tries >= s.tries,
        forall|x: char| s.found.contains(x) ==> step(s, g).found.contains(x),
{
    if s.norm.contains(g) && !s.found.contains(g) {
        assert forall|x: char| s.found.contains(x) implies step(s, g).found.contains(x) by {
            let i = choose|i: int| 0 <= i < s.found.len() && s.found[i] == x;
            assert(step(s, g).found[i] == x);
        }
    }
}

/// A repeated miss is free: when `c` is a miss, guessing `c` and then
/// guessing `c` again leaves the whole state - `tried` and `tries`
/// included - exactly as after the first guess.
pub proof fn lemma_repeat_miss_free(s: Model, c: char)
    requires
        !s.norm.contains(norm_char(c)),
    ensures
        step(step(s, norm_char(c)), norm_char(c)) == step(s, norm_char(c)),
{
    let g = norm_char(c);
    let s1 = step(s, g);
    if !s.tried.contains(g) {
        assert(s1.tried.contains(g)) by {
            assert(s1.tried[s.tried.len() as int] == g);
        }
    }
}

/// Guessing a letter that is not in the word and was never guessed
/// before adds its normalized form to `tried`, not to `found`, and costs
/// exactly one attempt.
pub proof fn lemma_fresh_miss(s: Model, c: char)
    requires
        !s.norm.contains(norm_char(c)),
        !s.tried.contains(norm_char(c)),
    ensures
        step(s, norm_char(c)).tries == s.tries + 1,
        step(s, norm_char(c)).tried == s.tried.push(norm_char(c)),
        step(s, norm_char(c)).found == s.found,
{
}

/// A hit puts the normalized letter into `found` and costs exactly one
/// attempt, even when that letter was already found.
pub proof fn lemma_hit(s: Model, c: char)
    requires
        s.norm.contains(norm_char(c)),
    ensures
        step(s, norm_char(c)).tries == s.tries + 1,
        step(s, norm_char(c)).found.contains(norm_char(c)),
        step(s, norm_char(c)).tried == s.tried,
{
    let g = norm_char(c);
    if !s.found.contains(g) {
        assert(step(s, g).found[s.found.len() as int] == g);
    }
}

/// The state after guessing a whole sequence of letters, first first.
pub open spec fn run(s: Model, cs: Seq<char>) -> Model
    decreases cs.len(),
{
    if cs.len() == 0 {
        s
    } else {
        run(step(s, norm_char(cs[0])), cs.drop_first())
    }
}

/// A sequence of guesses never changes the word or its normalization,
/// and never loses a found letter.
pub proof fn lemma_run_keeps(s: Model, cs: Seq<char>)
    ensures
        run(s, cs).word == s.word,
        run(s, cs).norm == s.norm,
        forall|x: char| s.found.contains(x) ==> run(s, cs).found.contains(x),
    decreases cs.len(),
{
    if cs.len() > 0 {
        lemma_step_keeps(s, norm_char(cs[0]));
        lemma_run_keeps(step(s, norm_char(cs[0])), cs.drop_first());
    }
}

/// A guessed letter that occurs in the word is found once the whole
/// sequence of guesses has run.
pub proof fn lemma_run_finds(s: Model, cs: Seq<char>, j: int)
    requires
        0 <= j < cs.len(),
        s.norm.contains(norm_char(cs[j])),
    ensures
        run(s, cs).found.contains(norm_char(cs[j])),
    decreases cs.len(),
{
    let g0 = norm_char(cs[0]);
    let s1 = step(s, g0);
    if j == 0 {
        lemma_hit(s, cs[0]);
        lemma_run_keeps(s1, cs.drop_first());
    } else {
        lemma_step_keeps(s, g0);
        assert(cs.drop_first()[j - 1] == cs[j]);
        lemma_run_finds(s1, cs.drop_first(), j - 1);
    }
}

/// Guessing every distinct normalized letter of the word, in any order
/// and mixed with any other guesses, solves the round.
pub proof fn lemma_all_letters_solve(s: Model, cs: Seq<char>)
    requires
        forall|i: int|
            0 <= i < s.norm.len() ==> exists|j: int|
                0 <= j < cs.len() && norm_char(cs[j]) == #[trigger] s.norm[i],
    ensures
        solved(run(s, cs)),
{
    let r = run(s, cs);
    lemma_run_keeps(s, cs);
    assert forall|i: int| 0 <= i < r.norm.len() implies r.found.contains(#[trigger] r.norm[i]) by {
        assert(r.norm[i] == s.norm[i]);
        let j = choose|j: int| 0 <= j < cs.len() && norm_char(cs[j]) == s.norm[i];
        assert(s.norm.contains(norm_char(cs[j])));
        lemma_run_finds(s, cs, j);
    }
}

/// The masked part of the rendering is exactly as long as the word, and
/// the rendering is that mask followed by the tried-letter suffix.
pub proof fn lemma_render_shape(s: Model)
    ensures
        render_spec(s) == mask_of(s) + suffix_of(s),
        mask_of(s).len() == s.word.len(),
        render_spec(s).len() >= s.word.len(),
        render_spec(s).take(s.word.len() as int) == mask_of(s),
{
    assert(render_spec(s).take(s.word.len() as int) =~= mask_of(s));
}

} // verus!
