//! Folding the marks of every guess so far into one mark per letter.
use vstd::prelude::*;

use crate::matcher::{higher, rank, stronger, Mark};

verus! {

/// The best mark seen so far for each letter that has been guessed.
/// Letters that are not keys are implicitly `Unknown`.
#[derive(Debug)]
pub struct KeyboardState {
    entries: Vec<(char, Mark)>,
}

/// The map that a list of letter/mark pairs stands for: a later pair for a
/// letter overrides an earlier one.
pub open spec fn entries_map(s: Seq<(char, Mark)>) -> Map<char, Mark>
    decreases s.len(),
{
    if s.len() == 0 {
        Map::empty()
    } else {
        entries_map(s.drop_last()).insert(s.last().0, s.last().1)
    }
}

/// The mark a keyboard map gives letter `c`: `Unknown` where `c` is not a key.
pub open spec fn lookup(m: Map<char, Mark>, c: char) -> Mark {
    if m.contains_key(c) {
        m[c]
    } else {
        Mark::Unknown
    }
}

/// Folds one guess result into a keyboard map, position by position, keeping
/// for each letter the mark of higher precedence.
pub open spec fn absorb(m: Map<char, Mark>, r: Seq<(char, Mark)>) -> Map<char, Mark>
    decreases r.len(),
{
    if r.len() == 0 {
        m
    } else {
        let before = absorb(m, r.drop_last());
        let c = r.last().0;
        before.insert(c, higher(lookup(before, c), r.last().1))
    }
}

/// The keyboard map of a guess history, folded in submission order.
pub open spec fn keyboard(h: Seq<Seq<(char, Mark)>>) -> Map<char, Mark>
    decreases h.len(),
{
    if h.len() == 0 {
        Map::empty()
    } else {
        absorb(keyboard(h.drop_last()), h.last())
    }
}

/// The views of a list of guess results.
pub open spec fn results_view(h: Seq<Vec<(char, Mark)>>) -> Seq<Seq<(char, Mark)>> {
    h.map_values(|r: Vec<(char, Mark)>| r@)
}

/// The best mark that result `r` gives letter `c`, `Unknown` if `c` is not in it.
pub open spec fn best_in(r: Seq<(char, Mark)>, c: char) -> Mark
    decreases r.len(),
{
    if r.len() == 0 {
        Mark::Unknown
    } else {
        higher(
            best_in(r.drop_last(), c),
            if r.last().0 == c {
                r.last().1
            } else {
                Mark::Unknown
            },
        )
    }
}

/// The best mark that any result of history `h` gives letter `c`.
pub open spec fn best_of(h: Seq<Seq<(char, Mark)>>, c: char) -> Mark
    decreases h.len(),
{
    if h.len() == 0 {
        Mark::Unknown
    } else {
        higher(best_of(h.drop_last(), c), best_in(h.last(), c))
    }
}

/// Letter `c` occurs in some result of history `h`.
pub open spec fn guessed(h: Seq<Seq<(char, Mark)>>, c: char) -> bool {
    exists|i: int, j: int| 0 <= i < h.len() && 0 <= j < h[i].len() && (#[trigger] h[i][j]).0 == c
}

/// Every result of `h1` is also a result of `h2`.
pub open spec fn covered_by(h1: Seq<Seq<(char, Mark)>>, h2: Seq<Seq<(char, Mark)>>) -> bool {
    forall|i: int| 0 <= i < h1.len() ==> exists|j: int| 0 <= j < h2.len() && h2[j] == #[trigger] h1[i]
}

impl View for KeyboardState {
    type V = Map<char, Mark>;

    closed spec fn view(&self) -> Map<char, Mark> {
        entries_map(self.entries@)
    }
}

proof fn lemma_entries_absent(s: Seq<(char, Mark)>, c: char)
    requires
        forall|m: int| 0 <= m < s.len() ==> (#[trigger] s[m]).0 != c,
    ensures
        !entries_map(s).contains_key(c),
    decreases s.len(),
{
    if s.len() > 0 {
        lemma_entries_absent(s.drop_last(), c);
    }
}

proof fn lemma_entries_last(s: Seq<(char, Mark)>, k: int)
    requires
        0 <= k < s.len(),
        forall|m: int| k < m < s.len() ==> (#[trigger] s[m]).0 != s[k].0,
    ensures
        entries_map(s).contains_key(s[k].0),
        entries_map(s)[s[k].0] == s[k].1,
    decreases s.len(),
{
    if k < s.len() - 1 {
        lemma_entries_last(s.drop_last(), k);
    }
}

proof fn lemma_entries_update(s: Seq<(char, Mark)>, k: int, v: Mark)
    requires
        0 <= k < s.len(),
        forall|m: int| k < m < s.len() ==> (#[trigger] s[m]).0 != s[k].0,
    ensures
        entries_map(s.update(k, (s[k].0, v))) == entries_map(s).insert(s[k].0, v),
    decreases s.len(),
{
    let c = s[k].0;
    let s2 = s.update(k, (c, v));
    if k == s.len() - 1 {
        assert(s2.drop_last() =~= s.drop_last());
        assert(entries_map(s2) =~= entries_map(s).insert(c, v));
    } else {
        lemma_entries_update(s.drop_last(), k, v);
        assert(s2.drop_last() =~= s.drop_last().update(k, (c, v)));
        assert(entries_map(s2) =~= entries_map(s).insert(c, v));
    }
}

/// Pointwise, folding a result in keeps the higher of the old mark and the result's best.
proof fn lemma_absorb_pointwise(m: Map<char, Mark>, r: Seq<(char, Mark)>, c: char)
    ensures
        lookup(absorb(m, r), c) == higher(lookup(m, c), best_in(r, c)),
        absorb(m, r).contains_key(c) <==> (m.contains_key(c) || exists|j: int|
            0 <= j < r.len() && (#[trigger] r[j]).0 == c),
    decreases r.len(),
{
    if r.len() > 0 {
        lemma_absorb_pointwise(m, r.drop_last(), c);
        let rd = r.drop_last();
        if exists|j: int| 0 <= j < rd.len() && (#[trigger] rd[j]).0 == c {
            let j = choose|j: int| 0 <= j < rd.len() && (#[trigger] rd[j]).0 == c;
            assert(r[j].0 == c);
        }
        if exists|j: int| 0 <= j < r.len() && (#[trigger] r[j]).0 == c {
            let j = choose|j: int| 0 <= j < r.len() && (#[trigger] r[j]).0 == c;
            if j < r.len() - 1 {
                assert(rd[j].0 == c);
            }
        }
    }
}

/// Pointwise, the keyboard of a history gives each letter its best mark over all results.
pub proof fn lemma_keyboard_pointwise(h: Seq<Seq<(char, Mark)>>, c: char)
    ensures
        lookup(keyboard(h), c) == best_of(h, c),
        keyboard(h).contains_key(c) <==> guessed(h, c),
    decreases h.len(),
{
    if h.len() > 0 {
        let hd = h.drop_last();
        lemma_keyboard_pointwise(hd, c);
        lemma_absorb_pointwise(keyboard(hd), h.last(), c);
        if guessed(h, c) {
            let (i, j) = choose|i: int, j: int|
                0 <= i < h.len() && 0 <= j < h[i].len() && (#[trigger] h[i][j]).0 == c;
            if i < h.len() - 1 {
                assert(hd[i][j].0 == c);
            } else {
                assert(h.last()[j].0 == c);
            }
        }
        if guessed(hd, c) {
            let (i, j) = choose|i: int, j: int|
                0 <= i < hd.len() && 0 <= j < hd[i].len() && (#[trigger] hd[i][j]).0 == c;
            assert(h[i][j].0 == c);
        }
        if exists|j: int| 0 <= j < h.last().len() && (#[trigger] h.last()[j]).0 == c {
            let j = choose|j: int| 0 <= j < h.last().len() && (#[trigger] h.last()[j]).0 == c;
            assert(h[h.len() - 1][j].0 == c);
        }
    }
}

/// The best mark over a history bounds each result's best mark, and is one of them
/// unless it is `Unknown`.
proof fn lemma_best_of_is_max(h: Seq<Seq<(char, Mark)>>, c: char)
    ensures
        forall|i: int| 0 <= i < h.len() ==> rank(#[trigger] best_in(h[i], c)) <= rank(best_of(h, c)),
        best_of(h, c) == Mark::Unknown || exists|i: int|
            0 <= i < h.len() && best_of(h, c) == #[trigger] best_in(h[i], c),
    decreases h.len(),
{
    if h.len() > 0 {
        let hd = h.drop_last();
        lemma_best_of_is_max(hd, c);
        assert forall|i: int| 0 <= i < h.len() implies rank(#[trigger] best_in(h[i], c)) <= rank(
            best_of(h, c),
        ) by {
            if i < h.len() - 1 {
                assert(hd[i] == h[i]);
            }
        }
        if best_of(h, c) != Mark::Unknown {
            if best_of(h, c) == best_in(h.last(), c) {
                assert(best_of(h, c) == best_in(h[h.len() - 1], c));
            } else {
                let i = choose|i: int| 0 <= i < hd.len() && best_of(hd, c) == #[trigger] best_in(hd[i], c);
                assert(hd[i] == h[i]);
            }
        }
    }
}

/// Marks only improve as results are added: where every result of `h1` is also a
/// result of `h2`, the keyboard of `h2` gives each letter a mark at least as high
/// as the keyboard of `h1` does; in particular a `Correct` letter stays `Correct`.
pub proof fn lemma_keyboard_monotonic(
    h1: Seq<Seq<(char, Mark)>>,
    h2: Seq<Seq<(char, Mark)>>,
    c: char,
)
    requires
        covered_by(h1, h2),
    ensures
        rank(lookup(keyboard(h1), c)) <= rank(lookup(keyboard(h2), c)),
        lookup(keyboard(h1), c) == Mark::Correct ==> lookup(keyboard(h2), c) == Mark::Correct,
{
    lemma_keyboard_pointwise(h1, c);
    lemma_keyboard_pointwise(h2, c);
    lemma_best_of_is_max(h1, c);
    lemma_best_of_is_max(h2, c);
    if best_of(h1, c) != Mark::Unknown {
        let i = choose|i: int| 0 <= i < h1.len() && best_of(h1, c) == #[trigger] best_in(h1[i], c);
        let j = choose|j: int| 0 <= j < h2.len() && h2[j] == #[trigger] h1[i];
        assert(rank(best_in(h2[j], c)) <= rank(best_of(h2, c)));
    }
}

/// The keyboard does not depend on the order of the results, nor on repeats:
/// two histories that hold the same results give the same keyboard.
pub proof fn lemma_keyboard_order_independent(h1: Seq<Seq<(char, Mark)>>, h2: Seq<Seq<(char, Mark)>>)
    requires
        covered_by(h1, h2),
        covered_by(h2, h1),
    ensures
        keyboard(h1) == keyboard(h2),
{
    assert forall|c: char| #[trigger] keyboard(h1).contains_key(c) == keyboard(h2).contains_key(c) && lookup(
        keyboard(h1),
        c,
    ) == lookup(keyboard(h2), c) by {
        lemma_keyboard_monotonic(h1, h2, c);
        lemma_keyboard_monotonic(h2, h1, c);
        lemma_keyboard_pointwise(h1, c);
        lemma_keyboard_pointwise(h2, c);
        if guessed(h1, c) {
            let (i, j) = choose|i: int, j: int|
                0 <= i < h1.len() && 0 <= j < h1[i].len() && (#[trigger] h1[i][j]).0 == c;
            let k = choose|k: int| 0 <= k < h2.len() && h2[k] == #[trigger] h1[i];
            assert(h2[k][j].0 == c);
        }
        if guessed(h2, c) {
            let (i, j) = choose|i: int, j: int|
                0 <= i < h2.len() && 0 <= j < h2[i].len() && (#[trigger] h2[i][j]).0 == c;
            let k = choose|k: int| 0 <= k < h1.len() && h1[k] == #[trigger] h2[i];
            assert(h1[k][j].0 == c);
        }
    }
    assert(keyboard(h1) =~= keyboard(h2));
}

/// Aggregating two results in either order gives the same keyboard.
pub proof fn lemma_keyboard_swap(r1: Seq<(char, Mark)>, r2: Seq<(char, Mark)>)
    ensures
        keyboard(seq![r1, r2]) == keyboard(seq![r2, r1]),
{
    let h1 = seq![r1, r2];
    let h2 = seq![r2, r1];
    assert(h2[1] == h1[0] && h2[0] == h1[1]);
    lemma_keyboard_order_independent(h1, h2);
}

impl KeyboardState {
    /// A keyboard on which no letter has been guessed.
    pub fn new() -> (r: KeyboardState)
        ensures
            r@ == Map::<char, Mark>::empty(),
    {
        KeyboardState { entries: Vec::new() }
    }

    /// The mark of letter `c`: `Unknown` if it has not been guessed.
    pub fn get(&self, c: char) -> (r: Mark)
        ensures
            r == lookup(self@, c),
    {
        let mut k: usize = self.entries.len();
        while k > 0
            invariant
                k <= self.entries.len(),
                forall|m: int| k <= m < self.entries.len() ==> (#[trigger] self.entries@[m]).0 != c,
            decreases k,
        {
            if self.entries[k - 1].0 == c {
                proof {
                    lemma_entries_last(self.entries@, k - 1);
                }
                return self.entries[k - 1].1;
            }
            k -= 1;
        }
        proof {
            lemma_entries_absent(self.entries@, c);
        }
        Mark::Unknown
    }

    /// Raises letter `c` to mark `x` where `x` ranks higher than what it has.
    pub fn upgrade(&mut self, c: char, x: Mark)
        ensures
            final(self)@ == old(self)@.insert(c, higher(lookup(old(self)@, c), x)),
    {
        let mut k: usize = self.entries.len();
        while k > 0
            invariant
                *self == *old(self),
                k <= self.entries.len(),
                forall|m: int| k <= m < self.entries.len() ==> (#[trigger] self.entries@[m]).0 != c,
            decreases k,
        {
            if self.entries[k - 1].0 == c {
                proof {
                    lemma_entries_last(self.entries@, k - 1);
                    lemma_entries_update(self.entries@, k - 1, higher(self.entries@[k - 1].1, x));
                }
                let best = stronger(self.entries[k - 1].1, x);
                self.entries.set(k - 1, (c, best));
                return;
            }
            k -= 1;
        }
        proof {
            lemma_entries_absent(self.entries@, c);
        }
        let best = stronger(Mark::Unknown, x);
        let ghost before = self.entries@;
        self.entries.push((c, best));
        assert(self.entries@.drop_last() =~= before);
    }

    /// Folds one guess result into the keyboard.
    pub fn absorb_result(&mut self, result: &Vec<(char, Mark)>)
        ensures
            final(self)@ == absorb(old(self)@, result@),
    {
        let mut i: usize = 0;
        while i < result.len()
            invariant
                i <= result.len(),
                self@ == absorb(old(self)@, result@.take(i as int)),
            decreases result.len() - i,
        {
            let (c, x) = result[i];
            self.upgrade(c, x);
            assert(result@.take(i + 1).drop_last() =~= result@.take(i as int));
            i += 1;
        }
        assert(result@.take(i as int) =~= result@);
    }
}

/// The keyboard of a whole guess history: each guessed letter with the best mark
/// any result gave it.
pub fn aggregate(history: &Vec<Vec<(char, Mark)>>) -> (r: KeyboardState)
    ensures
        r@ == keyboard(results_view(history@)),
{
    let mut state = KeyboardState::new();
    let mut i: usize = 0;
    while i < history.len()
        invariant
            i <= history.len(),
            state@ == keyboard(results_view(history@).take(i as int)),
        decreases history.len() - i,
    {
        state.absorb_result(&history[i]);
        assert(results_view(history@).take(i + 1).drop_last() =~= results_view(history@).take(
            i as int,
        ));
        i += 1;
    }
    assert(results_view(history@).take(i as int) =~= results_view(history@));
    state
}

} // verus!
