//! Classifying one guess against the target word, letter by letter.
//!
//! Exact matches are taken first; each remaining guess letter, left to right,
//! then takes the leftmost target letter that is still free. Every target
//! letter serves at most one guess position.
use vstd::prelude::*;

use crate::word::chars_of;

verus! {

/// What is known of a letter. `Unknown` is never given to a guessed letter;
/// it is the keyboard's value for letters not guessed yet.
#[derive(Clone, Copy, Debug, PartialEq, Eq, Structural)]
pub enum Mark {
    Unknown,
    Absent,
    Present,
    Correct,
}

/// Precedence of a mark: `Correct > Present > Absent > Unknown`.
pub open spec fn rank(m: Mark) -> nat {
    match m {
        Mark::Unknown => 0,
        Mark::Absent => 1,
        Mark::Present => 2,
        Mark::Correct => 3,
    }
}

/// The mark of higher precedence.
pub open spec fn higher(a: Mark, b: Mark) -> Mark {
    if rank(a) >= rank(b) {
        a
    } else {
        b
    }
}

/// The mark of higher precedence of `a` and `b`.
pub fn stronger(a: Mark, b: Mark) -> (r: Mark)
    ensures
        r == higher(a, b),
{
    let ra: u8 = match a {
        Mark::Unknown => 0,
        Mark::Absent => 1,
        Mark::Present => 2,
        Mark::Correct => 3,
    };
    let rb: u8 = match b {
        Mark::Unknown => 0,
        Mark::Absent => 1,
        Mark::Present => 2,
        Mark::Correct => 3,
    };
    if ra >= rb {
        a
    } else {
        b
    }
}

/// The guess and the target differ in length.
#[derive(Clone, Copy, Debug, PartialEq, Eq, Structural)]
pub enum EvalError {
    InvalidLength,
}

/// Target letters left for misplaced matches once exact matches have taken theirs.
pub open spec fn free_after_exact(g: Seq<char>, t: Seq<char>) -> Seq<Option<char>> {
    Seq::new(t.len(), |j: int| if g[j] == t[j] { None } else { Some(t[j]) })
}

/// The leftmost slot at or after `from` that still holds `c`, or `s.len()` if none does.
pub open spec fn first_free(s: Seq<Option<char>>, c: char, from: int) -> int
    decreases s.len() - from,
{
    if from >= s.len() {
        s.len() as int
    } else if s[from] == Some(c) {
        from
    } else {
        first_free(s, c, from + 1)
    }
}

/// Marks and free target letters once the misplaced-match pass has visited
/// guess positions `0..i`.
pub open spec fn scan(g: Seq<char>, t: Seq<char>, i: nat) -> (Seq<Mark>, Seq<Option<char>>)
    decreases i,
{
    if i == 0 {
        (
            Seq::new(g.len(), |k: int| if g[k] == t[k] { Mark::Correct } else { Mark::Absent }),
            free_after_exact(g, t),
        )
    } else {
        let prev = scan(g, t, (i - 1) as nat);
        let k = i - 1;
        if g[k] == t[k] {
            prev
        } else {
            let j = first_free(prev.1, g[k], 0);
            if j < prev.1.len() {
                (prev.0.update(k, Mark::Present), prev.1.update(j, None))
            } else {
                prev
            }
        }
    }
}

/// The mark of each position of guess `g` against target `t` (of equal length).
pub open spec fn marks(g: Seq<char>, t: Seq<char>) -> Seq<Mark> {
    scan(g, t, g.len()).0
}

/// Each letter of `g` paired with its mark against `t`.
pub open spec fn guess_result(g: Seq<char>, t: Seq<char>) -> Seq<(char, Mark)> {
    Seq::new(g.len(), |i: int| (g[i], marks(g, t)[i]))
}

proof fn lemma_first_free(s: Seq<Option<char>>, c: char, from: int, j: int)
    requires
        0 <= from <= j <= s.len(),
        forall|k: int| from <= k < j ==> s[k] != Some(c),
        j == s.len() || s[j] == Some(c),
    ensures
        first_free(s, c, from) == j,
    decreases j - from,
{
    if from < j {
        lemma_first_free(s, c, from + 1, j);
    }
}

proof fn lemma_first_free_found(s: Seq<Option<char>>, c: char, from: int)
    requires
        0 <= from,
    ensures
        from <= first_free(s, c, from) <= s.len() || s.len() < from,
        first_free(s, c, from) < s.len() ==> s[first_free(s, c, from)] == Some(c),
    decreases s.len() - from,
{
    if from < s.len() && s[from] != Some(c) {
        lemma_first_free_found(s, c, from + 1);
    }
}

/// Along the scan, exact matches stay `Correct` and no other position is.
proof fn lemma_scan_shape(g: Seq<char>, t: Seq<char>, i: nat)
    requires
        g.len() == t.len(),
        i <= g.len(),
    ensures
        scan(g, t, i).0.len() == g.len(),
        scan(g, t, i).1.len() == t.len(),
        forall|k: int| 0 <= k < g.len() ==> (#[trigger] scan(g, t, i).0[k] == Mark::Correct <==> g[k] == t[k]),
        forall|k: int| 0 <= k < g.len() ==> #[trigger] scan(g, t, i).0[k] != Mark::Unknown,
        forall|k: int| i <= k < g.len() && g[k] != t[k] ==> #[trigger] scan(g, t, i).0[k] == Mark::Absent,
    decreases i,
{
    if i > 0 {
        lemma_scan_shape(g, t, (i - 1) as nat);
        let prev = scan(g, t, (i - 1) as nat);
        lemma_first_free_found(prev.1, g[i - 1], 0);
    }
}

/// The marks of a guess: exact matches are `Correct`, the rest `Present` or `Absent`.
pub proof fn lemma_marks_shape(g: Seq<char>, t: Seq<char>)
    requires
        g.len() == t.len(),
    ensures
        marks(g, t).len() == g.len(),
        forall|k: int| 0 <= k < g.len() ==> (#[trigger] marks(g, t)[k] == Mark::Correct <==> g[k] == t[k]),
        forall|k: int| 0 <= k < g.len() ==> #[trigger] marks(g, t)[k] != Mark::Unknown,
{
    lemma_scan_shape(g, t, g.len());
}

fn holds_letter(slot: Option<char>, c: char) -> (r: bool)
    ensures
        r == (slot == Some(c)),
{
    match slot {
        Some(x) => x == c,
        None => false,
    }
}

/// Classifies each letter of `g` against `t`, consuming each target letter at most once.
pub fn classify(g: &Vec<char>, t: &Vec<char>) -> (r: Vec<(char, Mark)>)
    requires
        g.len() == t.len(),
    ensures
        r@ == guess_result(g@, t@),
{
    let n = g.len();
    let mut marks_v: Vec<Mark> = Vec::new();
    let mut free: Vec<Option<char>> = Vec::new();
    let mut i: usize = 0;
    while i < n
        invariant
            n == g.len(),
            n == t.len(),
            i <= n,
            marks_v@ == scan(g@, t@, 0).0.take(i as int),
            free@ == scan(g@, t@, 0).1.take(i as int),
        decreases n - i,
    {
        if g[i] == t[i] {
            marks_v.push(Mark::Correct);
            free.push(None);
        } else {
            marks_v.push(Mark::Absent);
            free.push(Some(t[i]));
        }
        i += 1;
        assert(marks_v@ =~= scan(g@, t@, 0).0.take(i as int));
        assert(free@ =~= scan(g@, t@, 0).1.take(i as int));
    }
    assert(marks_v@ =~= scan(g@, t@, 0).0);
    assert(free@ =~= scan(g@, t@, 0).1);
    i = 0;
    while i < n
        invariant
            n == g.len(),
            n == t.len(),
            i <= n,
            marks_v@ == scan(g@, t@, i as nat).0,
            free@ == scan(g@, t@, i as nat).1,
        decreases n - i,
    {
        proof {
            lemma_scan_shape(g@, t@, i as nat);
        }
        if g[i] != t[i] {
            let c = g[i];
            let mut j: usize = 0;
            while j < n && !holds_letter(free[j], c)
                invariant
                    n == free.len(),
                    j <= n,
                    forall|k: int| 0 <= k < j ==> free@[k] != Some(c),
                decreases n - j,
            {
                j += 1;
            }
            proof {
                lemma_first_free(free@, c, 0, j as int);
            }
            if j < n {
                marks_v.set(i, Mark::Present);
                free.set(j, None);
            }
        }
        i += 1;
    }
    proof {
        lemma_scan_shape(g@, t@, n as nat);
    }
    let mut out: Vec<(char, Mark)> = Vec::new();
    let mut k: usize = 0;
    while k < n
        invariant
            n == g.len(),
            n == t.len(),
            k <= n,
            marks_v@ == marks(g@, t@),
            marks_v.len() == n,
            out@ == guess_result(g@, t@).take(k as int),
        decreases n - k,
    {
        out.push((g[k], marks_v[k]));
        k += 1;
        assert(out@ =~= guess_result(g@, t@).take(k as int));
    }
    assert(out@ =~= guess_result(g@, t@));
    out
}

/// Classifies every letter of `guess` against `target`.
/// Fails with `InvalidLength` exactly when the two differ in length.
pub fn evaluate(guess: &str, target: &str) -> (r: Result<Vec<(char, Mark)>, EvalError>)
    ensures
        guess@.len() != target@.len() <==> r == Err::<Vec<(char, Mark)>, EvalError>(
            EvalError::InvalidLength,
        ),
        r is Ok ==> r->Ok_0@ == guess_result(guess@, target@),
{
    let g = chars_of(guess);
    let t = chars_of(target);
    if g.len() != t.len() {
        return Err(EvalError::InvalidLength);
    }
    Ok(classify(&g, &t))
}

/// Number of indices `k` in `0..n` for which `p(k)` holds.
pub open spec fn count_where(n: int, p: spec_fn(int) -> bool) -> nat
    decreases n,
{
    if n <= 0 {
        0
    } else {
        count_where(n - 1, p) + if p(n - 1) {
            1nat
        } else {
            0nat
        }
    }
}

/// Number of times letter `c` occurs in `s`.
pub open spec fn occurrences(s: Seq<char>, c: char) -> nat {
    count_where(s.len() as int, holds_at(s, c))
}

/// The positions of `s` that hold letter `c`.
pub open spec fn holds_at(s: Seq<char>, c: char) -> spec_fn(int) -> bool {
    |k: int| s[k] == c
}

/// The positions of guess `g` that hold letter `c` and are marked `x` against `t`.
pub open spec fn marked_at(g: Seq<char>, t: Seq<char>, c: char, x: Mark) -> spec_fn(int) -> bool {
    |k: int| g[k] == c && marks(g, t)[k] == x
}

/// Number of positions of guess `g` that hold letter `c` and are marked `x` against `t`.
pub open spec fn tally(g: Seq<char>, t: Seq<char>, c: char, x: Mark) -> nat {
    count_where(g.len() as int, marked_at(g, t, c, x))
}

proof fn lemma_count_ext(n: int, p: spec_fn(int) -> bool, q: spec_fn(int) -> bool)
    requires
        forall|k: int| 0 <= k < n ==> #[trigger] p(k) == q(k),
    ensures
        count_where(n, p) == count_where(n, q),
    decreases n,
{
    if n > 0 {
        lemma_count_ext(n - 1, p, q);
    }
}

proof fn lemma_count_split(
    n: int,
    p: spec_fn(int) -> bool,
    a: spec_fn(int) -> bool,
    b: spec_fn(int) -> bool,
)
    requires
        forall|k: int| 0 <= k < n ==> #[trigger] p(k) == (a(k) || b(k)),
        forall|k: int| 0 <= k < n ==> !(#[trigger] a(k) && b(k)),
    ensures
        count_where(n, p) == count_where(n, a) + count_where(n, b),
    decreases n,
{
    if n > 0 {
        lemma_count_split(n - 1, p, a, b);
    }
}

proof fn lemma_count_one_less(n: int, p: spec_fn(int) -> bool, q: spec_fn(int) -> bool, j: int)
    requires
        0 <= j < n,
        p(j),
        !q(j),
        forall|k: int| 0 <= k < n && k != j ==> #[trigger] p(k) == q(k),
    ensures
        count_where(n, p) == count_where(n, q) + 1,
    decreases n,
{
    if n - 1 == j {
        lemma_count_ext(n - 1, p, q);
    } else {
        lemma_count_one_less(n - 1, p, q, j);
    }
}

/// The number of `Correct` marks equals the number of positions where guess and target agree.
pub proof fn lemma_correct_count(g: Seq<char>, t: Seq<char>)
    requires
        g.len() == t.len(),
    ensures
        count_where(g.len() as int, |k: int| marks(g, t)[k] == Mark::Correct) == count_where(
            g.len() as int,
            |k: int| g[k] == t[k],
        ),
{
    lemma_marks_shape(g, t);
    lemma_count_ext(
        g.len() as int,
        |k: int| marks(g, t)[k] == Mark::Correct,
        |k: int| g[k] == t[k],
    );
}

/// Along the misplaced-match pass, each `Present` mark given to letter `c`
/// takes one free `c` from the target.
proof fn lemma_present_consumes(g: Seq<char>, t: Seq<char>, c: char, i: nat)
    requires
        g.len() == t.len(),
        i <= g.len(),
    ensures
        count_where(t.len() as int, |k: int| scan(g, t, i).1[k] == Some(c)) + count_where(
            i as int,
            |k: int| g[k] == c && scan(g, t, i).0[k] == Mark::Present,
        ) == count_where(t.len() as int, |k: int| free_after_exact(g, t)[k] == Some(c)),
    decreases i,
{
    let n = t.len() as int;
    if i > 0 {
        let k = i - 1;
        let prev = scan(g, t, k as nat);
        let cur = scan(g, t, i);
        lemma_present_consumes(g, t, c, k as nat);
        lemma_scan_shape(g, t, k as nat);
        lemma_scan_shape(g, t, i);
        let pb = |m: int| g[m] == c && prev.0[m] == Mark::Present;
        let cb = |m: int| g[m] == c && cur.0[m] == Mark::Present;
        let pf = |m: int| prev.1[m] == Some(c);
        let cf = |m: int| cur.1[m] == Some(c);
        lemma_count_ext(k, pb, cb);
        assert(count_where(i as int, cb) == count_where(k, cb) + if cb(k) {
            1nat
        } else {
            0nat
        });
        if g[k] != t[k] {
            let j = first_free(prev.1, g[k], 0);
            lemma_first_free_found(prev.1, g[k], 0);
            if j < prev.1.len() {
                if g[k] == c {
                    lemma_count_one_less(n, pf, cf, j);
                } else {
                    lemma_count_ext(n, pf, cf);
                }
            } else {
                lemma_count_ext(n, pf, cf);
            }
        } else {
            lemma_count_ext(n, pf, cf);
        }
    }
}

/// For every letter, the positions marked `Correct` or `Present` never outnumber
/// its occurrences in the target.
pub proof fn lemma_letters_not_overcounted(g: Seq<char>, t: Seq<char>, c: char)
    requires
        g.len() == t.len(),
    ensures
        tally(g, t, c, Mark::Correct) + tally(g, t, c, Mark::Present) <= occurrences(t, c),
{
    let n = g.len() as int;
    let free0 = free_after_exact(g, t);
    lemma_marks_shape(g, t);
    lemma_count_split(
        n,
        holds_at(t, c),
        |k: int| t[k] == c && g[k] == t[k],
        |k: int| free0[k] == Some(c),
    );
    lemma_count_ext(
        n,
        marked_at(g, t, c, Mark::Correct),
        |k: int| t[k] == c && g[k] == t[k],
    );
    lemma_present_consumes(g, t, c, g.len());
    let pt = marked_at(g, t, c, Mark::Present);
    let pc = |k: int| g[k] == c && scan(g, t, g.len()).0[k] == Mark::Present;
    lemma_count_ext(n, pt, pc);
}

/// Evaluation depends on the guess and the target alone: two results that meet
/// the contract of `evaluate` for the same inputs are the same.
pub proof fn lemma_evaluate_deterministic(
    g: Seq<char>,
    t: Seq<char>,
    r1: Seq<(char, Mark)>,
    r2: Seq<(char, Mark)>,
)
    requires
        r1 == guess_result(g, t),
        r2 == guess_result(g, t),
    ensures
        r1 == r2,
{
}


} // verus!
