//! One round of the game: the target, the vocabulary, and the guesses accepted so far.
use vstd::prelude::*;

use crate::keyboard::{aggregate, keyboard, lemma_keyboard_monotonic, lookup, results_view, KeyboardState};
use crate::matcher::{classify, guess_result, rank, Mark};
use crate::word::{chars_of, fold_case, folded, is_lower, texts};

verus! {

/// Why a guess was turned away. A rejected guess leaves the session as it was.
#[derive(Clone, Copy, Debug, PartialEq, Eq, Structural)]
pub enum SubmitError {
    /// The guess does not have as many letters as the target.
    WrongLength,
    /// The guess is not a word of the vocabulary.
    NotInVocabulary,
}

/// What an accepted guess yields.
#[derive(Debug)]
pub struct SubmitOutcome {
    /// The guess, letter by letter, with its marks.
    pub result: Vec<(char, Mark)>,
    /// The keyboard over every guess so far, the new one with them.
    pub keyboard: KeyboardState,
    /// Whether this guess equals the target.
    pub solved: bool,
}

/// Everything there is to show of a session.
#[derive(Debug)]
pub struct SessionView {
    /// Each accepted guess, in order, letter by letter with its marks.
    pub history: Vec<Vec<(char, Mark)>>,
    /// The keyboard over all accepted guesses.
    pub keyboard: KeyboardState,
    /// Whether some accepted guess equals the target.
    pub solved: bool,
}

/// What the player does: edit the guess being typed, or submit it.
#[derive(Debug)]
pub enum Message {
    NewWordChange(String),
    NewWordSubmit,
}

/// The result of each guess of `guesses` against `target`, in order.
pub open spec fn results_of(target: Seq<char>, guesses: Seq<Seq<char>>) -> Seq<Seq<(char, Mark)>> {
    guesses.map_values(|g: Seq<char>| guess_result(g, target))
}

/// Some guess of `guesses` equals `target`.
pub open spec fn found(target: Seq<char>, guesses: Seq<Seq<char>>) -> bool {
    exists|i: int| 0 <= i < guesses.len() && guesses[i] == target
}

/// Over a session, keyboard marks never fall: appending a guess leaves every
/// letter's mark at least as high as it was.
pub proof fn lemma_keyboard_grows_with_guesses(
    target: Seq<char>,
    guesses: Seq<Seq<char>>,
    g: Seq<char>,
    c: char,
)
    ensures
        rank(lookup(keyboard(results_of(target, guesses)), c)) <= rank(
            lookup(keyboard(results_of(target, guesses.push(g))), c),
        ),
{
    let h1 = results_of(target, guesses);
    let h2 = results_of(target, guesses.push(g));
    assert forall|i: int| 0 <= i < h1.len() implies exists|j: int|
        0 <= j < h2.len() && h2[j] == #[trigger] h1[i] by {
        assert(guesses.push(g)[i] == guesses[i]);
        assert(h2[i] == h1[i]);
    }
    lemma_keyboard_monotonic(h1, h2, c);
}

/// What submitting guess `g` (already case-folded) does to a session, from
/// `before` to `after`, with `r` returned. The target and the vocabulary stay as
/// they were. A guess whose length is not the target's gives `WrongLength`; else a
/// guess that is not a valid word gives `NotInVocabulary`; either way the session
/// is left as it was. Any other guess is accepted: it is appended to the guesses,
/// the round is solved from then on if it equals the target, and the outcome holds
/// its marks, the keyboard over all guesses, and whether it equals the target.
pub open spec fn submission(
    before: GameSession,
    after: GameSession,
    g: Seq<char>,
    r: Result<SubmitOutcome, SubmitError>,
) -> bool {
    let t = before.target_word();
    let fits = g.len() == t.len();
    let known = before.words().contains(g);
    &&& after.target_word() == t
    &&& after.words() == before.words()
    &&& before.is_solved() ==> after.is_solved()
    &&& !fits ==> r == Err::<SubmitOutcome, SubmitError>(SubmitError::WrongLength) && after
        == before
    &&& fits && !known ==> r == Err::<SubmitOutcome, SubmitError>(SubmitError::NotInVocabulary)
        && after == before
    &&& fits && known ==> r is Ok
    &&& g == t ==> r is Ok && after.is_solved()
    &&& r is Ok ==> {
        &&& after.guesses() == before.guesses().push(g)
        &&& after.is_solved() == (before.is_solved() || g == t)
        &&& r->Ok_0.result@ == guess_result(g, t)
        &&& r->Ok_0.keyboard@ == keyboard(results_of(t, after.guesses()))
        &&& r->Ok_0.solved == (g == t)
    }
}

/// Every word of `ws` is lower-case.
pub open spec fn all_lower(ws: Seq<Seq<char>>) -> bool {
    forall|i: int| 0 <= i < ws.len() ==> folded(#[trigger] ws[i]) == ws[i]
}

/// Submitting the target, in any case, solves the round.
pub proof fn lemma_target_solves(
    before: GameSession,
    after: GameSession,
    raw: Seq<char>,
    r: Result<SubmitOutcome, SubmitError>,
)
    requires
        before.wf(),
        folded(raw) == folded(before.target_word()),
        submission(before, after, folded(raw), r),
    ensures
        r is Ok,
        r->Ok_0.solved,
        after.is_solved(),
{
    let i = choose|i: int| 0 <= i < before.words().len() && before.words()[i] == before.target_word();
    assert(folded(before.words()[i]) == before.words()[i]);
}

/// A round of the game.
#[derive(Debug)]
pub struct GameSession {
    vocabulary: Vec<String>,
    target: String,
    history: Vec<String>,
    input: String,
    solved: bool,
}

impl GameSession {
    /// The target word.
    pub closed spec fn target_word(&self) -> Seq<char> {
        self.target@
    }

    /// The valid words.
    pub closed spec fn words(&self) -> Seq<Seq<char>> {
        texts(self.vocabulary@)
    }

    /// The accepted guesses, in the order they were submitted.
    pub closed spec fn guesses(&self) -> Seq<Seq<char>> {
        texts(self.history@)
    }

    /// The guess being typed.
    pub closed spec fn input_text(&self) -> Seq<char> {
        self.input@
    }

    /// Whether the target has been guessed.
    pub closed spec fn is_solved(&self) -> bool {
        self.solved
    }

    /// The session's invariant: the valid words are lower-case, the target is one
    /// of them, every accepted guess has the target's length, and the solved flag
    /// says whether one of them is the target.
    pub open spec fn wf(&self) -> bool {
        &&& all_lower(self.words())
        &&& self.words().contains(self.target_word())
        &&& forall|i: int|
            0 <= i < self.guesses().len() ==> (#[trigger] self.guesses()[i]).len()
                == self.target_word().len()
        &&& self.is_solved() == found(self.target_word(), self.guesses())
    }

    /// A new round on `vocabulary` with `target` to find; `None` exactly when a
    /// word of the vocabulary is not lower-case or the target is not one of them.
    pub fn new(vocabulary: Vec<String>, target: String) -> (r: Option<GameSession>)
        ensures
            r is Some <==> all_lower(texts(vocabulary@)) && texts(vocabulary@).contains(target@),
            r matches Some(s) ==> {
                &&& s.wf()
                &&& s.target_word() == target@
                &&& s.words() == texts(vocabulary@)
                &&& s.guesses() == Seq::<Seq<char>>::empty()
                &&& s.input_text() == Seq::<char>::empty()
                &&& !s.is_solved()
            },
    {
        let known = contains_word(&vocabulary, &target);
        if !known || !words_lower(&vocabulary) {
            return None;
        }
        let s = GameSession {
            vocabulary,
            target,
            history: Vec::new(),
            input: String::new(),
            solved: false,
        };
        assert(s.guesses() =~= Seq::<Seq<char>>::empty());
        Some(s)
    }

    /// The target word.
    pub fn target(&self) -> (r: &String)
        ensures
            r@ == self.target_word(),
    {
        &self.target
    }

    /// The guess being typed.
    pub fn input(&self) -> (r: &String)
        ensures
            r@ == self.input_text(),
    {
        &self.input
    }

    /// Whether the target has been guessed.
    pub fn solved(&self) -> (r: bool)
        ensures
            r == self.is_solved(),
    {
        self.solved
    }

    /// Replaces the guess being typed.
    pub fn set_input(&mut self, text: String)
        requires
            old(self).wf(),
        ensures
            final(self).wf(),
            final(self).input_text() == text@,
            final(self).target_word() == old(self).target_word(),
            final(self).words() == old(self).words(),
            final(self).guesses() == old(self).guesses(),
            final(self).is_solved() == old(self).is_solved(),
    {
        self.input = text;
    }

    /// Submits `raw` as a guess, after turning upper-case letters lower-case.
    /// It is turned away with `WrongLength` where its length is not the target's,
    /// else with `NotInVocabulary` where it is not a valid word; either way the
    /// session is left as it was. Otherwise it is appended to the guesses, and the
    /// round is solved from then on if it equals the target.
    pub fn submit(&mut self, raw: &str) -> (r: Result<SubmitOutcome, SubmitError>)
        requires
            old(self).wf(),
        ensures
            final(self).wf(),
            final(self).input_text() == old(self).input_text(),
            submission(*old(self), *final(self), folded(raw@), r),
    {
        let guess = fold_case(raw);
        let g = chars_of(guess.as_str());
        let t = chars_of(self.target.as_str());
        if g.len() != t.len() {
            return Err(SubmitError::WrongLength);
        }
        if !contains_word(&self.vocabulary, &guess) {
            return Err(SubmitError::NotInVocabulary);
        }
        let result = classify(&g, &t);
        let hit = guess == self.target;
        let ghost before = self.history@;
        self.history.push(guess);
        self.solved = self.solved || hit;
        proof {
            assert(self.guesses() =~= texts(before).push(folded(raw@)));
            assert forall|i: int| 0 <= i < self.guesses().len() implies (
            #[trigger] self.guesses()[i]).len() == self.target_word().len() by {
                if i < before.len() {
                    assert(self.guesses()[i] == texts(before)[i]);
                }
            }
            if found(self.target_word(), self.guesses()) && !hit {
                let i = choose|i: int|
                    0 <= i < self.guesses().len() && self.guesses()[i] == self.target_word();
                assert(texts(before)[i] == self.guesses()[i]);
            }
            if self.solved && !hit {
                let i = choose|i: int|
                    0 <= i < texts(before).len() && texts(before)[i] == self.target_word();
                assert(self.guesses()[i] == texts(before)[i]);
            }
            if hit {
                assert(self.guesses()[self.guesses().len() - 1] == self.target_word());
            }
        }
        let view = self.current_view();
        Ok(SubmitOutcome { result, keyboard: view.keyboard, solved: hit })
    }

    /// Submits the guess being typed, as `submit` does, and clears it where the
    /// guess is accepted.
    pub fn submit_input(&mut self) -> (r: Result<SubmitOutcome, SubmitError>)
        requires
            old(self).wf(),
        ensures
            final(self).wf(),
            submission(*old(self), *final(self), folded(old(self).input_text()), r),
            r is Ok ==> final(self).input_text() == Seq::<char>::empty(),
    {
        let text = self.input.clone();
        let r = self.submit(text.as_str());
        if r.is_ok() {
            self.input = String::new();
        }
        r
    }

    /// Applies a player action: an edit replaces the guess being typed and returns
    /// `None`; a submission submits it as `submit_input` does and returns what that
    /// yielded.
    pub fn update(&mut self, message: Message) -> (r: Option<Result<SubmitOutcome, SubmitError>>)
        requires
            old(self).wf(),
        ensures
            final(self).wf(),
            message matches Message::NewWordChange(text) ==> {
                &&& r is None
                &&& final(self).input_text() == text@
                &&& final(self).target_word() == old(self).target_word()
                &&& final(self).words() == old(self).words()
                &&& final(self).guesses() == old(self).guesses()
                &&& final(self).is_solved() == old(self).is_solved()
            },
            message is NewWordSubmit ==> (r matches Some(out) && submission(
                *old(self),
                *final(self),
                folded(old(self).input_text()),
                out,
            ) && (out is Ok ==> final(self).input_text() == Seq::<char>::empty())),
    {
        match message {
            Message::NewWordChange(text) => {
                self.set_input(text);
                None
            },
            Message::NewWordSubmit => Some(self.submit_input()),
        }
    }

    /// Every accepted guess with its marks, the keyboard over them, and whether the
    /// target has been found, all computed afresh from the guesses and the target.
    pub fn current_view(&self) -> (r: SessionView)
        requires
            self.wf(),
        ensures
            results_view(r.history@) == results_of(self.target_word(), self.guesses()),
            r.keyboard@ == keyboard(results_of(self.target_word(), self.guesses())),
            r.solved == self.is_solved(),
    {
        let t = chars_of(self.target.as_str());
        let mut history: Vec<Vec<(char, Mark)>> = Vec::new();
        let mut i: usize = 0;
        while i < self.history.len()
            invariant
                self.wf(),
                t@ == self.target_word(),
                i <= self.history.len(),
                history.len() == i,
                results_view(history@) == results_of(self.target_word(), self.guesses()).take(
                    i as int,
                ),
            decreases self.history.len() - i,
        {
            let g = chars_of(self.history[i].as_str());
            assert(self.guesses()[i as int] == self.history@[i as int]@);
            let result = classify(&g, &t);
            let ghost before = history@;
            history.push(result);
            assert(results_view(history@)[i as int] == results_of(self.target_word(), self.guesses())[i as int]);
            assert(results_view(history@) =~= results_of(self.target_word(), self.guesses()).take(
                i + 1,
            ));
            i += 1;
        }
        assert(results_view(history@) =~= results_of(self.target_word(), self.guesses()));
        let keyboard = aggregate(&history);
        SessionView { history, keyboard, solved: self.solved }
    }
}

/// Whether every word of `words` is lower-case.
pub fn words_lower(words: &Vec<String>) -> (r: bool)
    ensures
        r == all_lower(texts(words@)),
{
    let mut i: usize = 0;
    while i < words.len()
        invariant
            i <= words.len(),
            forall|k: int| 0 <= k < i ==> folded(#[trigger] texts(words@)[k]) == texts(words@)[k],
        decreases words.len() - i,
    {
        if !is_lower(words[i].as_str()) {
            assert(texts(words@)[i as int] == words@[i as int]@);
            return false;
        }
        assert(texts(words@)[i as int] == words@[i as int]@);
        i += 1;
    }
    true
}

/// Whether `word` is one of `words`.
pub fn contains_word(words: &Vec<String>, word: &String) -> (r: bool)
    ensures
        r == texts(words@).contains(word@),
{
    let mut i: usize = 0;
    while i < words.len()
        invariant
            i <= words.len(),
            forall|k: int| 0 <= k < i ==> words@[k]@ != word@,
        decreases words.len() - i,
    {
        if words[i] == *word {
            assert(texts(words@)[i as int] == word@);
            return true;
        }
        i += 1;
    }
    proof {
        if texts(words@).contains(word@) {
            let k = choose|k: int| 0 <= k < texts(words@).len() && texts(words@)[k] == word@;
            assert(words@[k]@ == word@);
        }
    }
    false
}

} // verus!
