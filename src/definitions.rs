//! Definitions of the target word, as a public dictionary service returns them.
use vstd::prelude::*;

use crate::word::texts;

verus! {

/// Where the dictionary service answers for `word`.
pub open spec fn definition_url_of(word: Seq<char>) -> Seq<char> {
    "https://api.dictionaryapi.dev/api/v2/entries/en/"@ + word
}

/// The address at which the dictionary service answers for `word`.
pub fn definition_url(word: &str) -> (r: String)
    ensures
        r@ == definition_url_of(word@),
{
    let mut url = String::from_str("https://api.dictionaryapi.dev/api/v2/entries/en/");
    url.append(word);
    url
}

/// The definitions that one meaning holds: the text of each definition that has one.
pub open spec fn texts_of(ds: Seq<Option<Seq<char>>>) -> Seq<Seq<char>>
    decreases ds.len(),
{
    if ds.len() == 0 {
        Seq::empty()
    } else {
        match ds.last() {
            Some(d) => texts_of(ds.drop_last()).push(d),
            None => texts_of(ds.drop_last()),
        }
    }
}

/// The definitions of all meanings, meaning after meaning.
pub open spec fn flattened(meanings: Seq<Seq<Option<Seq<char>>>>) -> Seq<Seq<char>>
    decreases meanings.len(),
{
    if meanings.len() == 0 {
        Seq::empty()
    } else {
        flattened(meanings.drop_last()) + texts_of(meanings.last())
    }
}

/// The views of the definitions of one meaning.
pub open spec fn meaning_view(ds: Seq<Option<String>>) -> Seq<Option<Seq<char>>> {
    ds.map_values(|d: Option<String>| match d {
        Some(s) => Some(s@),
        None => None,
    })
}

/// The views of a list of meanings.
pub open spec fn meanings_view(ms: Seq<Vec<Option<String>>>) -> Seq<Seq<Option<Seq<char>>>> {
    ms.map_values(|m: Vec<Option<String>>| meaning_view(m@))
}

/// Gathers the definition texts of every meaning into one list, in order, skipping
/// definitions that have no text.
pub fn collect_definitions(meanings: &Vec<Vec<Option<String>>>) -> (r: Vec<String>)
    ensures
        texts(r@) == flattened(meanings_view(meanings@)),
{
    let mut out: Vec<String> = Vec::new();
    let mut i: usize = 0;
    while i < meanings.len()
        invariant
            i <= meanings.len(),
            texts(out@) == flattened(meanings_view(meanings@).take(i as int)),
        decreases meanings.len() - i,
    {
        let ds = &meanings[i];
        let ghost start = texts(out@);
        let mut j: usize = 0;
        while j < ds.len()
            invariant
                j <= ds.len(),
                texts(out@) == start + texts_of(meaning_view(ds@).take(j as int)),
            decreases ds.len() - j,
        {
            assert(meaning_view(ds@).take(j + 1).drop_last() =~= meaning_view(ds@).take(j as int));
            match &ds[j] {
                Some(d) => {
                    let ghost before = texts(out@);
                    out.push(d.clone());
                    assert(texts(out@) =~= before.push(d@));
                },
                None => {},
            }
            j += 1;
        }
        assert(meaning_view(ds@).take(j as int) =~= meaning_view(ds@));
        assert(meanings_view(meanings@).take(i + 1).drop_last() =~= meanings_view(meanings@).take(
            i as int,
        ));
        i += 1;
    }
    assert(meanings_view(meanings@).take(i as int) =~= meanings_view(meanings@));
    out
}

} // verus!
