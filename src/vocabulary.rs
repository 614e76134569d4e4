//! The list of valid words, and choosing the target among them.
use vstd::prelude::*;

use rand::Rng;

use crate::session::all_lower;
use crate::word::{
    fold_case, folded, lemma_fold_idempotent, of_length, parse_word_list, texts, words_of, WORD_LEN,
};

verus! {

/// The word played when the word list yields no word at all.
pub open spec fn fallback_word() -> Seq<char> {
    seq!['w', 'o', 'r', 's', 'd']
}

/// Each word of `ws`, turned lower-case.
pub open spec fn folded_all(ws: Seq<Seq<char>>) -> Seq<Seq<char>> {
    ws.map_values(|w: Seq<char>| folded(w))
}

/// The vocabulary read from a word list: its words of `WORD_LEN` letters, turned
/// lower-case, or the fallback word alone where there are none, so that the
/// vocabulary is never empty.
pub open spec fn vocabulary_of(text: Seq<char>) -> Seq<Seq<char>> {
    let ws = folded_all(of_length(words_of(text), WORD_LEN as nat));
    if ws.len() > 0 {
        ws
    } else {
        seq![fallback_word()]
    }
}

/// The vocabulary of a word list; never empty, and all lower-case.
pub fn vocabulary_from(text: &str) -> (r: Vec<String>)
    ensures
        texts(r@) == vocabulary_of(text@),
        r.len() > 0,
        all_lower(texts(r@)),
{
    let words = parse_word_list(text);
    if words.len() > 0 {
        let mut out: Vec<String> = Vec::new();
        let mut i: usize = 0;
        while i < words.len()
            invariant
                i <= words.len(),
                texts(out@) == folded_all(texts(words@).take(i as int)),
            decreases words.len() - i,
        {
            let w = fold_case(words[i].as_str());
            let ghost before = texts(out@);
            out.push(w);
            assert(texts(out@) =~= before.push(folded(texts(words@)[i as int])));
            assert(texts(out@) =~= folded_all(texts(words@).take(i + 1)));
            i += 1;
        }
        assert(texts(words@).take(i as int) =~= texts(words@));
        assert forall|k: int| 0 <= k < texts(out@).len() implies folded(
            #[trigger] texts(out@)[k],
        ) == texts(out@)[k] by {
            lemma_fold_idempotent(texts(words@)[k]);
        }
        out
    } else {
        let mut v: Vec<String> = Vec::new();
        let w = String::from_str("worsd");
        proof {
            reveal_strlit("worsd");
        }
        assert(w@ =~= fallback_word());
        v.push(w);
        assert(texts(v@) =~= seq![fallback_word()]);
        assert(folded(fallback_word()) =~= fallback_word());
        v
    }
}

/// An index drawn at random from `0..n`.
/// Relies on `rand::thread_rng` and `Rng::gen_range`, which returns a value of the
/// range and panics on an empty one.
#[verifier::external_body]
fn random_index(n: usize) -> (r: usize)
    requires
        n > 0,
    ensures
        r < n,
{
    rand::thread_rng().gen_range(0..n)
}

/// The word at `index` of `words`, if there is one.
pub fn target_at(words: &Vec<String>, index: usize) -> (r: Option<String>)
    ensures
        index < words.len() ==> r == Some(words[index as int]),
        index >= words.len() ==> r is None,
{
    if index < words.len() {
        Some(words[index].clone())
    } else {
        None
    }
}

/// A target drawn at random from `words`; `None` exactly when `words` is empty.
pub fn pick_target(words: &Vec<String>) -> (r: Option<String>)
    ensures
        r is Some <==> words.len() > 0,
        r is Some ==> words@.contains(r->Some_0),
{
    if words.len() == 0 {
        return None;
    }
    let i = random_index(words.len());
    let r = target_at(words, i);
    assert(words@[i as int] == words[i as int]);
    r
}

} // verus!
