use vstd::prelude::*;
use crate::store::{MainData, WordData};

verus! {

/// How a practice sentence picks its words.
pub enum SenGenType {
    /// The first entries in store order (lowest scores after a sort).
    Mistake,
    /// Entries drawn uniformly at random, with replacement.
    Random,
}

/// The keys of `ws` in order, each followed by one space.
pub open spec fn sentence_of(ws: Seq<WordData>) -> Seq<char>
    decreases ws.len(),
{
    if ws.len() == 0 {
        Seq::empty()
    } else {
        sentence_of(ws.drop_last()) + ws.last().key@ + seq![' ']
    }
}

/// The entries of `entries` at the positions `picks`, in that order.
pub open spec fn picked(entries: Seq<WordData>, picks: Seq<int>) -> Seq<WordData> {
    picks.map_values(|i: int| entries[i])
}

pub open spec fn valid_picks(entries: Seq<WordData>, picks: Seq<int>) -> bool {
    forall|k: int| 0 <= k < picks.len() ==> 0 <= #[trigger] picks[k] < entries.len()
}

/// Relies on rand's `IndexedRandom::choose` with the thread-local generator:
/// `None` exactly on an empty slice, otherwise a reference to one of its
/// elements.
#[verifier::external_body]
fn choose_entry(entries: &Vec<WordData>) -> (r: Option<&WordData>)
    ensures
        entries@.len() == 0 <==> r is None,
        r matches Some(w) ==> exists|i: int| 0 <= i < entries@.len() && entries@[i] == *w,
{
    rand::seq::IndexedRandom::choose(entries.as_slice(), &mut rand::rng())
}

/// Appends the key of `w` and one space to `sentence`.
pub fn append_word(sentence: &mut String, w: &WordData)
    ensures
        final(sentence)@ == old(sentence)@ + w.key@ + seq![' '],
{
    sentence.append(w.key.as_str());
    proof {
        reveal_strlit(" ");
    }
    sentence.append(" ");
}

/// The sentence made of the first `word_count` entries in their current order.
pub fn mistake_sentence(store: &MainData, word_count: usize) -> (r: String)
    ensures
        r@ == sentence_of(
            store.entries@.take(
                if word_count < store.entries@.len() {
                    word_count as int
                } else {
                    store.entries@.len() as int
                },
            ),
        ),
{
    let n = if word_count < store.entries.len() {
        word_count
    } else {
        store.entries.len()
    };
    let mut out = String::new();
    let mut k: usize = 0;
    while k < n
        invariant
            k <= n,
            n <= store.entries@.len(),
            out@ == sentence_of(store.entries@.take(k as int)),
        decreases n - k,
    {
        append_word(&mut out, &store.entries[k]);
        assert(store.entries@.take(k + 1).drop_last() == store.entries@.take(k as int));
        k = k + 1;
    }
    out
}

/// A sentence of `word_count` entries drawn at random; empty when the store is.
pub fn random_sentence(store: &MainData, word_count: usize) -> (r: String)
    ensures
        exists|picks: Seq<int>|
            {
                &&& picks.len() == (if store.entries@.len() == 0 {
                    0
                } else {
                    word_count as int
                })
                &&& valid_picks(store.entries@, picks)
                &&& r@ == sentence_of(picked(store.entries@, picks))
            },
{
    let ghost entries = store.entries@;
    let mut out = String::new();
    let ghost mut picks: Seq<int> = Seq::empty();
    let mut k: usize = 0;
    while k < word_count
        invariant
            k <= word_count,
            entries == store.entries@,
            picks.len() == (if entries.len() == 0 {
                0
            } else {
                k as int
            }),
            valid_picks(entries, picks),
            out@ == sentence_of(picked(entries, picks)),
        decreases word_count - k,
    {
        let chosen = choose_entry(&store.entries);
        match chosen {
            Some(w) => {
                let ghost i = choose|i: int| 0 <= i < entries.len() && entries[i] == *w;
                append_word(&mut out, w);
                proof {
                    let old_picks = picks;
                    picks = picks.push(i);
                    assert(picked(entries, picks).drop_last() == picked(entries, old_picks));
                }
            },
            None => {},
        }
        k = k + 1;
    }
    out
}

/// What a sentence built by `mode` from `entries` may be: the first
/// `word_count` entries in order, or `word_count` entries drawn from anywhere.
pub open spec fn is_generated(
    entries: Seq<WordData>,
    mode: SenGenType,
    word_count: int,
    s: Seq<char>,
) -> bool {
    match mode {
        SenGenType::Mistake => s == sentence_of(
            entries.take(
                if word_count < entries.len() {
                    word_count
                } else {
                    entries.len() as int
                },
            ),
        ),
        SenGenType::Random => exists|picks: Seq<int>|
            {
                &&& picks.len() == (if entries.len() == 0 {
                    0
                } else {
                    word_count
                })
                &&& valid_picks(entries, picks)
                &&& s == sentence_of(picked(entries, picks))
            },
    }
}

/// Builds a practice sentence of `word_count` words by the given policy.
pub fn generate_sentence(store: &MainData, mode: &SenGenType, word_count: usize) -> (r: String)
    ensures
        is_generated(store.entries@, *mode, word_count as int, r@),
        store.entries@.len() == 0 ==> r@.len() == 0,
{
    match mode {
        SenGenType::Mistake => mistake_sentence(store, word_count),
        SenGenType::Random => {
            let r = random_sentence(store, word_count);
            proof {
                if store.entries@.len() == 0 {
                    let picks = choose|picks: Seq<int>|
                        {
                            &&& picks.len() == 0
                            &&& valid_picks(store.entries@, picks)
                            &&& r@ == sentence_of(picked(store.entries@, picks))
                        };
                    assert(picked(store.entries@, picks).len() == 0);
                }
            }
            r
        },
    }
}

} // verus!
