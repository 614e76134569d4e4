//! Words as sequences of letters, and the text helpers the game needs.
use vstd::prelude::*;

verus! {

/// The letters of `s`, in order.
pub fn chars_of(s: &str) -> (r: Vec<char>)
    ensures
        r@ == s@,
{
    broadcast use vstd::string::axiom_spec_iter;

    let mut out: Vec<char> = Vec::new();
    for c in it: s.chars()
        invariant
            it.seq() == s@,
            out@ == it.seq().take(it.index() as int),
    {
        out.push(c);
    }
    out
}

/// Length of the words the game is played with.
pub const WORD_LEN: usize = 5;

/// Appends `c` to `s`.
/// Relies on `String::push`, which appends one character.
#[verifier::external_body]
fn push_char(s: &mut String, c: char)
    ensures
        final(s)@ == old(s)@.push(c),
{
    s.push(c);
}

/// `c` with an upper-case Latin letter turned lower-case; any other character as it is.
pub open spec fn lower(c: char) -> char {
    if 'A' <= c && c <= 'Z' {
        ((c as u32) + 32) as char
    } else {
        c
    }
}

/// `s` with every upper-case Latin letter turned lower-case.
pub open spec fn folded(s: Seq<char>) -> Seq<char> {
    s.map_values(|c: char| lower(c))
}

/// The lower-case form of letter `c`.
pub fn lower_letter(c: char) -> (r: char)
    ensures
        r == lower(c),
{
    if 'A' <= c && c <= 'Z' {
        ((c as u8) + 32) as char
    } else {
        c
    }
}

/// `s` with every upper-case Latin letter turned lower-case.
pub fn fold_case(s: &str) -> (r: String)
    ensures
        r@ == folded(s@),
{
    broadcast use vstd::string::axiom_spec_iter;

    let mut out = String::new();
    for c in it: s.chars()
        invariant
            it.seq() == s@,
            out@ == folded(it.seq().take(it.index() as int)),
    {
        proof {
            assert(folded(it.seq().take(it.index() + 1)) =~= folded(it.seq().take(it.index() as int)).push(lower(c)));
        }
        push_char(&mut out, lower_letter(c));
    }
    out
}

/// The characters that separate words in a word list: ASCII whitespace.
pub open spec fn is_space(c: char) -> bool {
    c == ' ' || c == '\t' || c == '\n' || c == '\r' || c == '\x0C'
}

/// Reading `s[0..i]` as a word list: the words ended so far and the word under way.
pub open spec fn split_upto(s: Seq<char>, i: nat) -> (Seq<Seq<char>>, Seq<char>)
    decreases i,
{
    if i == 0 {
        (Seq::empty(), Seq::empty())
    } else {
        let (done, cur) = split_upto(s, (i - 1) as nat);
        let c = s[i - 1];
        if !is_space(c) {
            (done, cur.push(c))
        } else if cur.len() > 0 {
            (done.push(cur), Seq::empty())
        } else {
            (done, cur)
        }
    }
}

/// The words of `s`: its maximal runs of characters that are not whitespace, in order.
pub open spec fn words_of(s: Seq<char>) -> Seq<Seq<char>> {
    let (done, cur) = split_upto(s, s.len());
    if cur.len() > 0 {
        done.push(cur)
    } else {
        done
    }
}

/// The words of `ws` that have `n` letters, in order.
pub open spec fn of_length(ws: Seq<Seq<char>>, n: nat) -> Seq<Seq<char>>
    decreases ws.len(),
{
    if ws.len() == 0 {
        ws
    } else if ws.last().len() == n {
        of_length(ws.drop_last(), n).push(ws.last())
    } else {
        of_length(ws.drop_last(), n)
    }
}

/// The views of a list of strings.
pub open spec fn texts(v: Seq<String>) -> Seq<Seq<char>> {
    v.map_values(|w: String| w@)
}

/// The words of `text` that have `WORD_LEN` letters, in order of appearance.
pub fn parse_word_list(text: &str) -> (r: Vec<String>)
    ensures
        texts(r@) == of_length(words_of(text@), WORD_LEN as nat),
{
    broadcast use vstd::string::axiom_spec_iter;

    let mut out: Vec<String> = Vec::new();
    let mut cur = String::new();
    let mut cur_len: usize = 0;
    for c in it: text.chars()
        invariant
            it.seq() == text@,
            cur@ == split_upto(text@, it.index() as nat).1,
            cur_len <= WORD_LEN + 1,
            cur_len == cur@.len() || (cur_len == WORD_LEN + 1 && cur@.len() > WORD_LEN),
            texts(out@) == of_length(split_upto(text@, it.index() as nat).0, WORD_LEN as nat),
    {
        let ghost i = it.index();
        if !is_space_char(c) {
            push_char(&mut cur, c);
            if cur_len <= WORD_LEN {
                cur_len += 1;
            }
        } else {
            if cur_len > 0 {
                let ghost done = split_upto(text@, i as nat).0;
                assert(done.push(cur@).drop_last() =~= done);
                if cur_len == WORD_LEN {
                    out.push(cur);
                    assert(texts(out@) =~= texts(out@).drop_last().push(out@.last()@));
                    assert(texts(out@).drop_last() =~= of_length(done, WORD_LEN as nat));
                }
            }
            cur = String::new();
            cur_len = 0;
        }
    }
    if cur_len > 0 {
        let ghost done = split_upto(text@, text@.len()).0;
        assert(done.push(cur@).drop_last() =~= done);
        if cur_len == WORD_LEN {
            out.push(cur);
            assert(texts(out@) =~= texts(out@).drop_last().push(out@.last()@));
            assert(texts(out@).drop_last() =~= of_length(done, WORD_LEN as nat));
        }
    }
    out
}

fn is_space_char(c: char) -> (r: bool)
    ensures
        r == is_space(c),
{
    c == ' ' || c == '\t' || c == '\n' || c == '\r' || c == '\x0C'
}


/// Whether `s` has no upper-case Latin letter, that is, folding leaves it as it is.
pub fn is_lower(s: &str) -> (r: bool)
    ensures
        r == (folded(s@) == s@),
{
    let cs = chars_of(s);
    let mut i: usize = 0;
    while i < cs.len()
        invariant
            cs@ == s@,
            i <= cs.len(),
            forall|k: int| 0 <= k < i ==> lower(#[trigger] s@[k]) == s@[k],
        decreases cs.len() - i,
    {
        if lower_letter(cs[i]) != cs[i] {
            assert(folded(s@)[i as int] != s@[i as int]);
            return false;
        }
        i += 1;
    }
    assert(folded(s@) =~= s@);
    true
}

/// Folding twice folds no further than folding once.
pub proof fn lemma_fold_idempotent(s: Seq<char>)
    ensures
        folded(folded(s)) == folded(s),
{
    assert forall|i: int| 0 <= i < s.len() implies lower(lower(#[trigger] s[i])) == lower(s[i]) by {
        let c = s[i];
        if 'A' <= c && c <= 'Z' {
            assert((c as u32) + 32 > 'Z' as u32);
        }
    }
    assert(folded(folded(s)) =~= folded(s));
}


} // verus!
