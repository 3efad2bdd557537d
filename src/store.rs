use vstd::prelude::*;

verus! {

/// One practice word and its difficulty score (lower means practise sooner).
pub struct WordData {
    pub key: String,
    pub value: i32,
}

impl WordData {
    pub fn new(key: String, value: i32) -> (r: WordData)
        ensures
            r.key == key,
            r.value == value,
    {
        WordData { key, value }
    }
}

/// The score store: practice words in their current order.
pub struct MainData {
    pub entries: Vec<WordData>,
}

/// Inserts `w` into `s` after every trailing entry whose score is at most
/// `w.value`; on an ascending `s` this is the stable sorted insertion.
pub open spec fn insert_by_value(s: Seq<WordData>, w: WordData) -> Seq<WordData>
    decreases s.len(),
{
    if s.len() == 0 {
        seq![w]
    } else if s.last().value <= w.value {
        s.push(w)
    } else {
        insert_by_value(s.drop_last(), w).push(s.last())
    }
}

/// The stable ascending sort of `s` by score.
pub open spec fn sorted_by_value(s: Seq<WordData>) -> Seq<WordData>
    decreases s.len(),
{
    if s.len() == 0 {
        s
    } else {
        insert_by_value(sorted_by_value(s.drop_last()), s.last())
    }
}

pub open spec fn is_ascending(s: Seq<WordData>) -> bool {
    forall|i: int, j: int| 0 <= i < j < s.len() ==> s[i].value <= s[j].value
}

proof fn lemma_insert_by_value(s: Seq<WordData>, w: WordData)
    ensures
        insert_by_value(s, w).to_multiset() == s.to_multiset().insert(w),
        is_ascending(s) ==> is_ascending(insert_by_value(s, w)),
        insert_by_value(s, w).len() == s.len() + 1,
    decreases s.len(),
{
    broadcast use vstd::seq_lib::group_to_multiset_ensures;

    if s.len() == 0 {
        assert(seq![w] == Seq::<WordData>::empty().push(w));
    } else if s.last().value <= w.value {
    } else {
        let p = s.drop_last();
        lemma_insert_by_value(p, w);
        assert(s == p.push(s.last()));
        assert(p.to_multiset().insert(w).insert(s.last()) =~= p.to_multiset().insert(
            s.last(),
        ).insert(w));
        if is_ascending(s) {
            let r = insert_by_value(p, w);
            assert(r.to_multiset().count(w) > 0);
            assert forall|k: int| 0 <= k < r.len() implies r[k].value <= s.last().value by {
                assert(r.to_multiset().count(r[k]) > 0);
                assert(r.contains(r[k]));
                if r[k] != w {
                    assert(p.to_multiset().count(r[k]) > 0);
                    assert(p.contains(r[k]));
                }
            }
        }
    }
}

/// The sort yields an ascending permutation of its input.
pub proof fn lemma_sorted_by_value(s: Seq<WordData>)
    ensures
        is_ascending(sorted_by_value(s)),
        sorted_by_value(s).to_multiset() == s.to_multiset(),
        sorted_by_value(s).len() == s.len(),
    decreases s.len(),
{
    broadcast use vstd::seq_lib::group_to_multiset_ensures;

    if s.len() > 0 {
        let p = s.drop_last();
        lemma_sorted_by_value(p);
        lemma_insert_by_value(sorted_by_value(p), s.last());
        assert(s == p.push(s.last()));
    }
}

/// Sorting entries that are already ascending keeps their order: equal
/// scores stay in the order in which they stood.
pub proof fn lemma_sort_keeps_ascending(s: Seq<WordData>)
    requires
        is_ascending(s),
    ensures
        sorted_by_value(s) == s,
    decreases s.len(),
{
    if s.len() > 0 {
        let p = s.drop_last();
        lemma_sort_keeps_ascending(p);
        if p.len() > 0 {
            assert(p.last().value <= s.last().value);
        }
        assert(p.push(s.last()) == s);
    }
}

impl MainData {
    pub fn new() -> (r: MainData)
        ensures
            r.entries@.len() == 0,
    {
        MainData { entries: Vec::new() }
    }

    pub fn add(&mut self, key: String, value: i32)
        ensures
            final(self).entries@ == old(self).entries@.push(WordData { key, value }),
    {
        self.entries.push(WordData::new(key, value));
    }

    /// One entry of score 0 per word, in the given order; `None` when there
    /// are no words.
    pub fn seed(words: &Vec<String>) -> (r: Option<MainData>)
        ensures
            words@.len() == 0 <==> r is None,
            r matches Some(m) ==> m.entries@.len() == words@.len() && forall|i: int|
                0 <= i < words@.len() ==> #[trigger] m.entries@[i] == (WordData {
                    key: words@[i],
                    value: 0,
                }),
    {
        if words.len() == 0 {
            return None;
        }
        let mut data = MainData::new();
        let mut k: usize = 0;
        while k < words.len()
            invariant
                k <= words@.len(),
                data.entries@.len() == k,
                forall|i: int|
                    0 <= i < k ==> #[trigger] data.entries@[i] == (WordData {
                        key: words@[i],
                        value: 0,
                    }),
            decreases words@.len() - k,
        {
            data.add(words[k].clone(), 0);
            k = k + 1;
        }
        Some(data)
    }

    /// Reorders the entries ascending by score, keeping equal scores in
    /// their prior relative order.
    pub fn sort_by_value(&mut self)
        ensures
            final(self).entries@ == sorted_by_value(old(self).entries@),
            final(self).entries@.len() == old(self).entries@.len(),
            is_ascending(final(self).entries@),
            final(self).entries@.to_multiset() == old(self).entries@.to_multiset(),
    {
        let ghost orig = self.entries@;
        let n = self.entries.len();
        let mut i: usize = 0;
        while i < n
            invariant
                n == orig.len(),
                i <= n,
                self.entries@ == sorted_by_value(orig.take(i as int)) + orig.skip(i as int),
            decreases n - i,
        {
            proof {
                lemma_sorted_by_value(orig.take(i as int));
            }
            let ghost prefix = sorted_by_value(orig.take(i as int));
            let w = self.entries.remove(i);
            assert(w == orig[i as int]);
            assert(self.entries@ == prefix + orig.skip(i as int + 1));
            assert(prefix.take(i as int) == prefix);
            assert(prefix.skip(i as int) == Seq::<WordData>::empty());
            assert(insert_by_value(prefix, w) == insert_by_value(prefix, w) + Seq::<
                WordData,
            >::empty());
            let mut j: usize = i;
            while j > 0 && self.entries[j - 1].value > w.value
                invariant
                    j <= i,
                    i < n,
                    prefix.len() == i,
                    self.entries@ == prefix + orig.skip(i as int + 1),
                    insert_by_value(prefix, w) == insert_by_value(prefix.take(j as int), w)
                        + prefix.skip(j as int),
                decreases j,
            {
                let ghost t = prefix.take(j as int);
                assert(t.drop_last() == prefix.take(j - 1));
                assert(prefix.skip(j - 1) == seq![t.last()] + prefix.skip(j as int));
                assert(insert_by_value(t, w) == insert_by_value(prefix.take(j - 1), w).push(
                    t.last(),
                ));
                assert(insert_by_value(t, w) + prefix.skip(j as int) == insert_by_value(
                    prefix.take(j - 1),
                    w,
                ) + prefix.skip(j - 1));
                j = j - 1;
            }
            assert(insert_by_value(prefix.take(j as int), w) == prefix.take(j as int).push(w));
            assert(insert_by_value(prefix, w) == prefix.insert(j as int, w));
            self.entries.insert(j, w);
            assert(orig.take(i + 1).drop_last() == orig.take(i as int));
            assert(self.entries@ == insert_by_value(prefix, w) + orig.skip(i + 1));
            i = i + 1;
        }
        assert(orig.take(n as int) == orig);
        assert(self.entries@ == sorted_by_value(orig));
        proof {
            lemma_sorted_by_value(orig);
        }
    }
}

} // verus!
