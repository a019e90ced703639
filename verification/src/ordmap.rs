//! A name-keyed map stored as an association list sorted strictly ascending
//! by `lex_lt`. Staging collections use it so that every walk over a map is
//! in ascending name order, which keeps all emitted artifacts deterministic.

use vstd::prelude::*;

use crate::text::{lemma_lex_lt_transitive, lemma_lex_lt_trichotomy, lex_lt, str_eq, str_lt};

verus! {

/// Keys strictly ascending: no duplicates, ascending order.
pub open spec fn entries_sorted<T>(s: Seq<(Seq<char>, T)>) -> bool {
    forall|i: int, j: int|
        0 <= i < j < s.len() ==> #[trigger] lex_lt(#[trigger] s[i].0, s[j].0)
}

/// The value at the first entry whose key is `k`, if any.
pub open spec fn assoc_get<T>(s: Seq<(Seq<char>, T)>, k: Seq<char>) -> Option<T>
    decreases s.len(),
{
    if s.len() == 0 {
        None
    } else if s[0].0 == k {
        Some(s[0].1)
    } else {
        assoc_get(s.skip(1), k)
    }
}

pub open spec fn assoc_contains<T>(s: Seq<(Seq<char>, T)>, k: Seq<char>) -> bool {
    assoc_get(s, k) is Some
}

/// `s` with `(k, v)` inserted at its ordered position, replacing an entry
/// whose key is already `k`.
pub open spec fn assoc_insert<T>(s: Seq<(Seq<char>, T)>, k: Seq<char>, v: T) -> Seq<
    (Seq<char>, T),
>
    decreases s.len(),
{
    if s.len() == 0 {
        seq![(k, v)]
    } else if lex_lt(k, s[0].0) {
        seq![(k, v)] + s
    } else if s[0].0 == k {
        seq![(k, v)] + s.skip(1)
    } else {
        seq![s[0]] + assoc_insert(s.skip(1), k, v)
    }
}

/// `s` with the first entry whose key is `k` removed.
pub open spec fn assoc_remove<T>(s: Seq<(Seq<char>, T)>, k: Seq<char>) -> Seq<(Seq<char>, T)>
    decreases s.len(),
{
    if s.len() == 0 {
        s
    } else if s[0].0 == k {
        s.skip(1)
    } else {
        seq![s[0]] + assoc_remove(s.skip(1), k)
    }
}

/// `s` restricted to the keys listed in `keep`, keeping entry order.
pub open spec fn assoc_retain<T>(s: Seq<(Seq<char>, T)>, keep: Seq<Seq<char>>) -> Seq<
    (Seq<char>, T),
> {
    s.filter(|e: (Seq<char>, T)| keep.contains(e.0))
}

/// A key is absent exactly when no entry carries it.
pub proof fn lemma_assoc_get_none<T>(s: Seq<(Seq<char>, T)>, k: Seq<char>)
    ensures
        (assoc_get(s, k) is None) <==> (forall|i: int| 0 <= i < s.len() ==> (#[trigger] s[i]).0
            != k),
    decreases s.len(),
{
    if s.len() > 0 {
        lemma_assoc_get_none(s.skip(1), k);
        if s[0].0 != k {
            assert forall|i: int| 0 <= i < s.len() && (assoc_get(s, k) is None) implies (
            #[trigger] s[i]).0 != k by {
                if i > 0 {
                    assert(s.skip(1)[i - 1] == s[i]);
                }
            }
            if forall|i: int| 0 <= i < s.len() ==> (#[trigger] s[i]).0 != k {
                assert forall|i: int| 0 <= i < s.skip(1).len() implies (#[trigger] s.skip(1)[i]).0
                    != k by {
                    assert(s.skip(1)[i] == s[i + 1]);
                }
            }
        }
    }
}

/// The tail of a sorted association list is sorted.
pub proof fn lemma_sorted_skip<T>(s: Seq<(Seq<char>, T)>)
    requires
        entries_sorted(s),
        s.len() > 0,
    ensures
        entries_sorted(s.skip(1)),
        forall|i: int| 0 <= i < s.skip(1).len() ==> lex_lt(s[0].0, (#[trigger] s.skip(1)[i]).0),
{
    assert forall|i: int, j: int| 0 <= i < j < s.skip(1).len() implies #[trigger] lex_lt(
        #[trigger] s.skip(1)[i].0,
        s.skip(1)[j].0,
    ) by {
        assert(s.skip(1)[i] == s[i + 1]);
        assert(s.skip(1)[j] == s[j + 1]);
    }
    assert forall|i: int| 0 <= i < s.skip(1).len() implies lex_lt(
        s[0].0,
        (#[trigger] s.skip(1)[i]).0,
    ) by {
        assert(s.skip(1)[i] == s[i + 1]);
    }
}

/// In a sorted list, a key below every stored key is absent; in particular a
/// key below the head is absent.
pub proof fn lemma_assoc_get_below_head<T>(s: Seq<(Seq<char>, T)>, k: Seq<char>)
    requires
        entries_sorted(s),
        s.len() > 0,
        lex_lt(k, s[0].0),
    ensures
        assoc_get(s, k) is None,
{
    lemma_assoc_get_none(s, k);
    assert forall|i: int| 0 <= i < s.len() implies (#[trigger] s[i]).0 != k by {
        if i == 0 {
            lemma_lex_lt_trichotomy(k, s[0].0);
        } else {
            lemma_lex_lt_transitive(k, s[0].0, s[i].0);
            lemma_lex_lt_trichotomy(k, s[i].0);
        }
    }
}

/// What `assoc_insert` does, seen through `assoc_get`, sortedness and length.
pub proof fn lemma_assoc_insert_props<T>(s: Seq<(Seq<char>, T)>, k: Seq<char>, v: T)
    requires
        entries_sorted(s),
    ensures
        entries_sorted(assoc_insert(s, k, v)),
        assoc_get(assoc_insert(s, k, v), k) == Some(v),
        forall|k2: Seq<char>| k2 != k ==> #[trigger] assoc_get(assoc_insert(s, k, v), k2)
            == assoc_get(s, k2),
        assoc_insert(s, k, v).len() == if assoc_contains(s, k) {
            s.len()
        } else {
            s.len() + 1
        },
    decreases s.len(),
{
    let out = assoc_insert(s, k, v);
    if s.len() == 0 {
        assert(out =~= seq![(k, v)]);
        assert forall|k2: Seq<char>| k2 != k implies #[trigger] assoc_get(out, k2) == assoc_get(
            s,
            k2,
        ) by {
            assert(out.skip(1) =~= s);
        }
    } else if lex_lt(k, s[0].0) {
        assert(out =~= seq![(k, v)] + s);
        assert(out.skip(1) =~= s);
        lemma_assoc_get_below_head(s, k);
        assert forall|i: int, j: int| 0 <= i < j < out.len() implies #[trigger] lex_lt(
            #[trigger] out[i].0,
            out[j].0,
        ) by {
            if i == 0 {
                if j > 1 {
                    lemma_lex_lt_transitive(k, s[0].0, s[j - 1].0);
                }
            }
        }
    } else if s[0].0 == k {
        assert(out =~= seq![(k, v)] + s.skip(1));
        assert(out.skip(1) =~= s.skip(1));
        lemma_sorted_skip(s);
        assert forall|i: int, j: int| 0 <= i < j < out.len() implies #[trigger] lex_lt(
            #[trigger] out[i].0,
            out[j].0,
        ) by {
            if i > 0 {
                assert(out[i] == s.skip(1)[i - 1]);
                assert(out[j] == s.skip(1)[j - 1]);
            } else {
                assert(out[j] == s.skip(1)[j - 1]);
            }
        }
        assert forall|k2: Seq<char>| k2 != k implies #[trigger] assoc_get(out, k2) == assoc_get(
            s,
            k2,
        ) by {
            assert(out[0].0 == k);
            assert(assoc_get(out, k2) == assoc_get(out.skip(1), k2));
            assert(assoc_get(s, k2) == assoc_get(s.skip(1), k2));
        }
    } else {
        lemma_lex_lt_trichotomy(k, s[0].0);
        lemma_sorted_skip(s);
        lemma_assoc_insert_props(s.skip(1), k, v);
        let rec = assoc_insert(s.skip(1), k, v);
        assert(out =~= seq![s[0]] + rec);
        assert(out.skip(1) =~= rec);
        assert(out[0] == s[0]);
        // every key in rec is above s[0].0
        assert forall|i: int| 0 <= i < rec.len() implies lex_lt(s[0].0, (#[trigger] rec[i]).0) by {
            lemma_assoc_get_none(rec, rec[i].0);
            assert(assoc_get(rec, rec[i].0) is Some);
            if rec[i].0 == k {
            } else {
                assert(assoc_get(s.skip(1), rec[i].0) == assoc_get(rec, rec[i].0));
                lemma_assoc_get_none(s.skip(1), rec[i].0);
                let w = choose|w: int|
                    0 <= w < s.skip(1).len() && (#[trigger] s.skip(1)[w]).0 == rec[i].0;
                lemma_sorted_skip(s);
            }
        }
        assert forall|i: int, j: int| 0 <= i < j < out.len() implies #[trigger] lex_lt(
            #[trigger] out[i].0,
            out[j].0,
        ) by {
            if i > 0 {
                assert(out[i] == rec[i - 1]);
                assert(out[j] == rec[j - 1]);
            } else {
                assert(out[j] == rec[j - 1]);
            }
        }
        assert(assoc_get(out, k) == Some(v));
        assert forall|k2: Seq<char>| k2 != k implies #[trigger] assoc_get(out, k2) == assoc_get(
            s,
            k2,
        ) by {
            if s[0].0 == k2 {
            } else {
                assert(assoc_get(out, k2) == assoc_get(out.skip(1), k2));
                assert(assoc_get(s, k2) == assoc_get(s.skip(1), k2));
            }
        }
    }
}

/// What `assoc_remove` does, seen through `assoc_get`, sortedness and length.
pub proof fn lemma_assoc_remove_props<T>(s: Seq<(Seq<char>, T)>, k: Seq<char>)
    requires
        entries_sorted(s),
    ensures
        entries_sorted(assoc_remove(s, k)),
        assoc_get(assoc_remove(s, k), k) is None,
        forall|k2: Seq<char>| k2 != k ==> #[trigger] assoc_get(assoc_remove(s, k), k2)
            == assoc_get(s, k2),
        assoc_remove(s, k).len() == if assoc_contains(s, k) {
            s.len() - 1
        } else {
            s.len() as int
        },
    decreases s.len(),
{
    let out = assoc_remove(s, k);
    if s.len() == 0 {
    } else if s[0].0 == k {
        lemma_sorted_skip(s);
        if s.skip(1).len() > 0 {
            lemma_assoc_get_below_head(s.skip(1), k);
        }
        assert forall|k2: Seq<char>| k2 != k implies #[trigger] assoc_get(out, k2) == assoc_get(
            s,
            k2,
        ) by {
            assert(assoc_get(s, k2) == assoc_get(s.skip(1), k2));
        }
    } else {
        lemma_sorted_skip(s);
        lemma_assoc_remove_props(s.skip(1), k);
        let rec = assoc_remove(s.skip(1), k);
        assert(out =~= seq![s[0]] + rec);
        assert(out.skip(1) =~= rec);
        assert(out[0] == s[0]);
        assert forall|i: int| 0 <= i < rec.len() implies lex_lt(s[0].0, (#[trigger] rec[i]).0) by {
            lemma_assoc_get_none(rec, rec[i].0);
            assert(assoc_get(rec, rec[i].0) is Some);
            assert(rec[i].0 != k);
            assert(assoc_get(s.skip(1), rec[i].0) == assoc_get(rec, rec[i].0));
            lemma_assoc_get_none(s.skip(1), rec[i].0);
        }
        assert forall|i: int, j: int| 0 <= i < j < out.len() implies #[trigger] lex_lt(
            #[trigger] out[i].0,
            out[j].0,
        ) by {
            if i > 0 {
                assert(out[i] == rec[i - 1]);
                assert(out[j] == rec[j - 1]);
            } else {
                assert(out[j] == rec[j - 1]);
            }
        }
        assert forall|k2: Seq<char>| k2 != k implies #[trigger] assoc_get(out, k2) == assoc_get(
            s,
            k2,
        ) by {
            if s[0].0 == k2 {
            } else {
                assert(assoc_get(out, k2) == assoc_get(out.skip(1), k2));
                assert(assoc_get(s, k2) == assoc_get(s.skip(1), k2));
            }
        }
    }
}

/// Retaining by the same key set twice is the same as retaining once.
pub proof fn lemma_assoc_retain_idempotent<T>(s: Seq<(Seq<char>, T)>, keep: Seq<Seq<char>>)
    ensures
        assoc_retain(assoc_retain(s, keep), keep) =~= assoc_retain(s, keep),
    decreases s.len(),
{
    broadcast use vstd::seq_lib::group_filter_ensures;

    let pred = |e: (Seq<char>, T)| keep.contains(e.0);
    if s.len() > 0 {
        lemma_assoc_retain_idempotent(s.drop_last(), keep);
        reveal(Seq::filter);
        if pred(s.last()) {
            assert(s.filter(pred) == s.drop_last().filter(pred).push(s.last()));
            assert(s.filter(pred).drop_last() =~= s.drop_last().filter(pred));
        }
    }
}

/// Every entry of an insert is the new pair or one of the old entries.
pub proof fn lemma_assoc_insert_elems<T>(s: Seq<(Seq<char>, T)>, k: Seq<char>, v: T)
    ensures
        forall|i: int|
            0 <= i < assoc_insert(s, k, v).len() ==> #[trigger] assoc_insert(s, k, v)[i] == (k, v)
                || s.contains(assoc_insert(s, k, v)[i]),
    decreases s.len(),
{
    let out = assoc_insert(s, k, v);
    if s.len() == 0 {
    } else if lex_lt(k, s[0].0) {
        assert forall|i: int| 0 <= i < out.len() implies #[trigger] out[i] == (k, v) || s.contains(
            out[i],
        ) by {
            if i > 0 {
                assert(out[i] == s[i - 1]);
                assert(s.contains(s[i - 1]));
            }
        }
    } else if s[0].0 == k {
        assert forall|i: int| 0 <= i < out.len() implies #[trigger] out[i] == (k, v) || s.contains(
            out[i],
        ) by {
            if i > 0 {
                assert(out[i] == s.skip(1)[i - 1]);
                assert(s.skip(1)[i - 1] == s[i]);
                assert(s.contains(s[i]));
            }
        }
    } else {
        lemma_assoc_insert_elems(s.skip(1), k, v);
        let rec = assoc_insert(s.skip(1), k, v);
        assert forall|i: int| 0 <= i < out.len() implies #[trigger] out[i] == (k, v) || s.contains(
            out[i],
        ) by {
            if i == 0 {
                assert(out[0] == s[0]);
                assert(s.contains(s[0]));
            } else {
                assert(out[i] == rec[i - 1]);
                if rec[i - 1] == (k, v) {
                } else {
                    assert(s.skip(1).contains(rec[i - 1]));
                    let w = choose|w: int| 0 <= w < s.skip(1).len() && s.skip(1)[w] == rec[i - 1];
                    assert(s[w + 1] == rec[i - 1]);
                    assert(s.contains(rec[i - 1]));
                }
            }
        }
    }
}

/// Every entry of a removal is one of the old entries.
pub proof fn lemma_assoc_remove_elems<T>(s: Seq<(Seq<char>, T)>, k: Seq<char>)
    ensures
        forall|i: int|
            0 <= i < assoc_remove(s, k).len() ==> s.contains(#[trigger] assoc_remove(s, k)[i]),
    decreases s.len(),
{
    let out = assoc_remove(s, k);
    if s.len() == 0 {
    } else if s[0].0 == k {
        assert forall|i: int| 0 <= i < out.len() implies s.contains(#[trigger] out[i]) by {
            assert(out[i] == s[i + 1]);
        }
    } else {
        lemma_assoc_remove_elems(s.skip(1), k);
        let rec = assoc_remove(s.skip(1), k);
        assert forall|i: int| 0 <= i < out.len() implies s.contains(#[trigger] out[i]) by {
            if i == 0 {
                assert(out[0] == s[0]);
            } else {
                assert(out[i] == rec[i - 1]);
                assert(s.skip(1).contains(rec[i - 1]));
                let w = choose|w: int| 0 <= w < s.skip(1).len() && s.skip(1)[w] == rec[i - 1];
                assert(s[w + 1] == rec[i - 1]);
            }
        }
    }
}

/// Looking a key up skips any prefix free of that key.
pub proof fn lemma_assoc_get_skip<T>(s: Seq<(Seq<char>, T)>, k: Seq<char>, i: int)
    requires
        0 <= i <= s.len(),
        forall|j: int| 0 <= j < i ==> (#[trigger] s[j]).0 != k,
    ensures
        assoc_get(s, k) == assoc_get(s.skip(i), k),
    decreases i,
{
    if i <= 0 {
        assert(s.skip(0) =~= s);
    } else {
        assert(assoc_get(s, k) == assoc_get(s.skip(1), k));
        assert forall|j: int| 0 <= j < i - 1 implies (#[trigger] s.skip(1)[j]).0 != k by {
            assert(s.skip(1)[j] == s[j + 1]);
        }
        lemma_assoc_get_skip(s.skip(1), k, i - 1);
        assert(s.skip(1).skip(i - 1) =~= s.skip(i));
    }
}

/// Where `assoc_insert` places the new entry, as a take/skip split around the
/// first position whose key is not below `k`.
pub proof fn lemma_assoc_insert_split<T>(s: Seq<(Seq<char>, T)>, k: Seq<char>, v: T, i: int)
    requires
        entries_sorted(s),
        0 <= i <= s.len(),
        forall|j: int| 0 <= j < i ==> lex_lt((#[trigger] s[j]).0, k),
        i < s.len() ==> !lex_lt(s[i].0, k),
    ensures
        assoc_insert(s, k, v) =~= (if i < s.len() && s[i].0 == k {
            s.take(i) + seq![(k, v)] + s.skip(i + 1)
        } else {
            s.take(i) + seq![(k, v)] + s.skip(i)
        }),
    decreases i,
{
    if i <= 0 {
        assert(s.take(0) =~= Seq::<(Seq<char>, T)>::empty());
        assert(s.skip(0) =~= s);
        if s.len() == 0 {
            assert(assoc_insert(s, k, v) =~= seq![(k, v)]);
        } else {
            lemma_lex_lt_trichotomy(k, s[0].0);
            if s[0].0 == k {
                assert(assoc_insert(s, k, v) =~= seq![(k, v)] + s.skip(1));
            } else {
                assert(lex_lt(k, s[0].0));
                assert(assoc_insert(s, k, v) =~= seq![(k, v)] + s);
            }
        }
    } else {
        lemma_lex_lt_trichotomy(k, s[0].0);
        assert(lex_lt(s[0].0, k));
        lemma_sorted_skip(s);
        assert forall|j: int| 0 <= j < i - 1 implies lex_lt((#[trigger] s.skip(1)[j]).0, k) by {
            assert(s.skip(1)[j] == s[j + 1]);
        }
        assert(i - 1 < s.skip(1).len() ==> !lex_lt(s.skip(1)[i - 1].0, k)) by {
            if i - 1 < s.skip(1).len() {
                assert(s.skip(1)[i - 1] == s[i]);
            }
        }
        lemma_assoc_insert_split(s.skip(1), k, v, i - 1);
        assert(assoc_insert(s, k, v) =~= seq![s[0]] + assoc_insert(s.skip(1), k, v));
        assert(s.skip(1).take(i - 1) =~= s.take(i).skip(1));
        assert(s.take(i) =~= seq![s[0]] + s.take(i).skip(1));
        if i < s.len() && s[i].0 == k {
            assert(s.skip(1)[i - 1] == s[i]);
            assert(s.skip(1).skip(i) =~= s.skip(i + 1));
        } else {
            assert(s.skip(1).skip(i - 1) =~= s.skip(i));
        }
    }
}

/// Where `assoc_remove` takes the entry out, as a take/skip split.
pub proof fn lemma_assoc_remove_split<T>(s: Seq<(Seq<char>, T)>, k: Seq<char>, i: int)
    requires
        0 <= i <= s.len(),
        forall|j: int| 0 <= j < i ==> (#[trigger] s[j]).0 != k,
        i < s.len() ==> s[i].0 == k,
    ensures
        assoc_remove(s, k) =~= (if i < s.len() {
            s.take(i) + s.skip(i + 1)
        } else {
            s
        }),
    decreases i,
{
    if i <= 0 {
        if s.len() == 0 {
        } else if 0 < s.len() && s[0].0 == k {
            assert(s.take(0) =~= Seq::<(Seq<char>, T)>::empty());
            assert(assoc_remove(s, k) =~= s.skip(1));
        }
    } else {
        assert(s[0].0 != k);
        assert(assoc_remove(s, k) =~= seq![s[0]] + assoc_remove(s.skip(1), k));
        assert forall|j: int| 0 <= j < i - 1 implies (#[trigger] s.skip(1)[j]).0 != k by {
            assert(s.skip(1)[j] == s[j + 1]);
        }
        assert(i - 1 < s.skip(1).len() ==> s.skip(1)[i - 1].0 == k) by {
            if i - 1 < s.skip(1).len() {
                assert(s.skip(1)[i - 1] == s[i]);
            }
        }
        lemma_assoc_remove_split(s.skip(1), k, i - 1);
        assert(s.take(i) =~= seq![s[0]] + s.skip(1).take(i - 1));
        if i < s.len() {
            assert(s.skip(1).skip(i) =~= s.skip(i + 1));
        } else {
            assert(s =~= seq![s[0]] + s.skip(1));
        }
    }
}

/// A map from names to values, iterated in ascending name order.
pub struct OrdMap<V> {
    entries: Vec<(String, V)>,
}

impl<V: View> View for OrdMap<V> {
    type V = Seq<(Seq<char>, V::V)>;

    closed spec fn view(&self) -> Seq<(Seq<char>, V::V)> {
        self.entries@.map_values(|e: (String, V)| (e.0@, e.1@))
    }
}

impl<V: View> OrdMap<V> {
    pub open spec fn wf(&self) -> bool {
        entries_sorted(self@)
    }

    pub fn new() -> (m: Self)
        ensures
            m@ =~= Seq::<(Seq<char>, V::V)>::empty(),
            m.wf(),
    {
        OrdMap { entries: Vec::new() }
    }

    pub fn len(&self) -> (n: usize)
        ensures
            n == self@.len(),
    {
        self.entries.len()
    }

    pub fn key_at(&self, i: usize) -> (k: &String)
        requires
            i < self@.len(),
        ensures
            k@ == self@[i as int].0,
    {
        &self.entries[i].0
    }

    pub fn val_at(&self, i: usize) -> (v: &V)
        requires
            i < self@.len(),
        ensures
            v@ == self@[i as int].1,
    {
        &self.entries[i].1
    }

    /// The first position whose key is not below `k`.
    fn position(&self, k: &str) -> (i: usize)
        requires
            self.wf(),
        ensures
            i <= self@.len(),
            forall|j: int| 0 <= j < i ==> lex_lt((#[trigger] self@[j]).0, k@),
            i < self@.len() ==> !lex_lt(self@[i as int].0, k@),
    {
        let n = self.entries.len();
        let mut i: usize = 0;
        while i < n
            invariant
                0 <= i <= n,
                n == self@.len(),
                self@.len() == self.entries@.len(),
                forall|j: int| 0 <= j < i ==> lex_lt((#[trigger] self@[j]).0, k@),
            decreases n - i,
        {
            let lt = str_lt(self.entries[i].0.as_str(), k);
            proof {
                assert(self@[i as int].0 == self.entries@[i as int].0@);
            }
            if !lt {
                return i;
            }
            i = i + 1;
        }
        i
    }

    pub fn get(&self, k: &str) -> (r: Option<&V>)
        requires
            self.wf(),
        ensures
            match r {
                Some(v) => assoc_get(self@, k@) == Some(v@),
                None => assoc_get(self@, k@) is None,
            },
    {
        let i = self.position(k);
        proof {
            assert forall|j: int| 0 <= j < i implies (#[trigger] self@[j]).0 != k@ by {
                lemma_lex_lt_trichotomy(self@[j].0, k@);
            }
            lemma_assoc_get_skip(self@, k@, i as int);
        }
        if i < self.entries.len() {
            let eq = str_eq(self.entries[i].0.as_str(), k);
            proof {
                assert(self@[i as int].0 == self.entries@[i as int].0@);
            }
            if eq {
                proof {
                    assert(self@.skip(i as int)[0] == self@[i as int]);
                }
                Some(&self.entries[i].1)
            } else {
                proof {
                    lemma_lex_lt_trichotomy(self@[i as int].0, k@);
                    lemma_sorted_skip_general(self@, i as int);
                    lemma_assoc_get_below_head(self@.skip(i as int), k@);
                }
                None
            }
        } else {
            proof {
                assert(self@.skip(i as int) =~= Seq::<(Seq<char>, V::V)>::empty());
            }
            None
        }
    }

    pub fn contains_key(&self, k: &str) -> (r: bool)
        requires
            self.wf(),
        ensures
            r == assoc_contains(self@, k@),
    {
        match self.get(k) {
            Some(_) => true,
            None => false,
        }
    }

    /// Adds `(k, v)`, overwriting any entry already keyed `k`.
    pub fn insert(&mut self, k: String, v: V)
        requires
            old(self).wf(),
        ensures
            final(self)@ =~= assoc_insert(old(self)@, k@, v@),
            final(self).wf(),
    {
        let ghost s0 = self@;
        let i = self.position(k.as_str());
        proof {
            lemma_assoc_insert_split(s0, k@, v@, i as int);
        }
        if i < self.entries.len() {
            let eq = str_eq(self.entries[i].0.as_str(), k.as_str());
            proof {
                assert(s0[i as int].0 == self.entries@[i as int].0@);
            }
            if eq {
                self.entries.remove(i);
                self.entries.insert(i, (k, v));
                proof {
                    assert(self@ =~= s0.take(i as int) + seq![(k@, v@)] + s0.skip(i as int + 1));
                    lemma_assoc_insert_props(s0, k@, v@);
                }
                return ;
            }
        }
        self.entries.insert(i, (k, v));
        proof {
            assert(self@ =~= s0.take(i as int) + seq![(k@, v@)] + s0.skip(i as int));
            lemma_assoc_insert_props(s0, k@, v@);
        }
    }

    /// Drops the entry keyed `k`, if any.
    pub fn remove(&mut self, k: &str)
        requires
            old(self).wf(),
        ensures
            final(self)@ =~= assoc_remove(old(self)@, k@),
            final(self).wf(),
    {
        let ghost s0 = self@;
        let i = self.position(k);
        proof {
            assert forall|j: int| 0 <= j < i implies (#[trigger] s0[j]).0 != k@ by {
                lemma_lex_lt_trichotomy(s0[j].0, k@);
            }
            lemma_assoc_remove_props(s0, k@);
        }
        if i < self.entries.len() {
            let eq = str_eq(self.entries[i].0.as_str(), k);
            proof {
                assert(s0[i as int].0 == self.entries@[i as int].0@);
            }
            if eq {
                self.entries.remove(i);
                proof {
                    lemma_assoc_remove_split(s0, k@, i as int);
                    assert(self@ =~= s0.take(i as int) + s0.skip(i as int + 1));
                }
                return ;
            }
            proof {
                lemma_lex_lt_trichotomy(s0[i as int].0, k@);
                lemma_sorted_skip_general(s0, i as int);
                lemma_assoc_get_below_head(s0.skip(i as int), k@);
                lemma_assoc_get_skip(s0, k@, i as int);
                lemma_assoc_get_none(s0, k@);
                lemma_assoc_remove_absent(s0, k@);
            }
        } else {
            proof {
                assert(s0.skip(i as int) =~= Seq::<(Seq<char>, V::V)>::empty());
                lemma_assoc_get_skip(s0, k@, i as int);
                lemma_assoc_get_none(s0, k@);
                lemma_assoc_remove_absent(s0, k@);
            }
        }
    }

    /// Keeps exactly the entries whose key is in `keep`.
    pub fn retain(&mut self, keep: &OrdSet)
        requires
            old(self).wf(),
        ensures
            final(self)@ =~= assoc_retain(old(self)@, keep@),
            final(self).wf(),
    {
        let ghost s0 = self@;
        let ghost pred = |e: (Seq<char>, V::V)| keep@.contains(e.0);
        let mut i: usize = 0;
        let ghost mut j: int = 0;
        proof {
            assert(s0.take(0).filter(pred) =~= Seq::<(Seq<char>, V::V)>::empty()) by {
                reveal(Seq::filter);
            }
            assert(s0.skip(0) =~= s0);
            assert(self@ =~= s0.take(0).filter(pred) + s0.skip(0));
        }
        while i < self.entries.len()
            invariant
                0 <= j <= s0.len(),
                i == s0.take(j).filter(pred).len(),
                self@ =~= s0.take(j).filter(pred) + s0.skip(j),
                self@.len() == self.entries@.len(),
                i + s0.len() - j == self@.len(),
                forall|e: (Seq<char>, V::V)| #[trigger] pred(e) == keep@.contains(e.0),
            decreases s0.len() - j,
        {
            proof {
                assert(self@[i as int] == s0.skip(j)[0]);
                assert(s0.skip(j)[0] == s0[j]);
                broadcast use vstd::seq_lib::group_filter_ensures;

                Seq::filter_distributes_over_add(s0.take(j), seq![s0[j]], pred);
                assert(s0.take(j + 1) =~= s0.take(j) + seq![s0[j]]);
                reveal(Seq::filter);
                assert(seq![s0[j]].drop_last() =~= Seq::<(Seq<char>, V::V)>::empty());
                assert(Seq::<(Seq<char>, V::V)>::empty().filter(pred) =~= Seq::<
                    (Seq<char>, V::V),
                >::empty());
                assert(seq![s0[j]].last() == s0[j]);
                assert(seq![s0[j]].filter(pred) =~= (if pred(s0[j]) {
                    seq![s0[j]]
                } else {
                    Seq::<(Seq<char>, V::V)>::empty()
                }));
            }
            let pair_key_in = {
                let pair: &(String, V) = &self.entries[i];
                keep.contains(pair.0.as_str())
            };
            proof {
                assert(self@[i as int].0 == self.entries@[i as int].0@);
            }
            proof {
                assert(s0.skip(j) =~= seq![s0[j]] + s0.skip(j + 1));
            }
            if pair_key_in {
                i = i + 1;
                proof {
                    assert(pred(s0[j]));
                    assert(s0.take(j + 1).filter(pred) =~= s0.take(j).filter(pred) + seq![s0[j]]);
                    assert(self@ =~= s0.take(j + 1).filter(pred) + s0.skip(j + 1));
                    j = j + 1;
                }
            } else {
                let ghost prev = self@;
                self.entries.remove(i);
                proof {
                    assert(!pred(s0[j]));
                    assert(s0.take(j + 1).filter(pred) =~= s0.take(j).filter(pred));
                    assert(self@ =~= prev.remove(i as int));
                    assert(prev.remove(i as int) =~= s0.take(j).filter(pred) + s0.skip(j + 1)) by {
                        assert forall|l: int|
                            0 <= l < prev.remove(i as int).len() implies prev.remove(i as int)[l]
                            == (s0.take(j).filter(pred) + s0.skip(j + 1))[l] by {
                            if l < i {
                            } else {
                                assert(prev.remove(i as int)[l] == prev[l + 1]);
                                assert(prev[l + 1] == s0.skip(j)[l + 1 - i]);
                                assert(s0.skip(j)[l + 1 - i] == s0[j + l + 1 - i]);
                                assert(s0.skip(j + 1)[l - i] == s0[j + 1 + l - i]);
                            }
                        }
                    }
                    assert(self@ =~= s0.take(j + 1).filter(pred) + s0.skip(j + 1));
                    j = j + 1;
                }
            }
        }
        proof {
            assert(j == s0.len());
            assert(s0.take(j) =~= s0);
            assert(s0.skip(j) =~= Seq::<(Seq<char>, V::V)>::empty());
            assert(self@ =~= s0.filter(pred));
            lemma_assoc_retain_sorted_pred(s0, pred);
        }
    }
}

/// Any suffix of a sorted association list is sorted, and every key in it is
/// above every key before it.
pub proof fn lemma_sorted_skip_general<T>(s: Seq<(Seq<char>, T)>, i: int)
    requires
        entries_sorted(s),
        0 <= i <= s.len(),
    ensures
        entries_sorted(s.skip(i)),
    decreases i,
{
    if i > 0 && s.len() > 0 {
        lemma_sorted_skip(s);
        lemma_sorted_skip_general(s.skip(1), i - 1);
        assert(s.skip(1).skip(i - 1) =~= s.skip(i));
    } else {
        assert(s.skip(0) =~= s);
    }
}

/// Removing an absent key changes nothing.
pub proof fn lemma_assoc_remove_absent<T>(s: Seq<(Seq<char>, T)>, k: Seq<char>)
    requires
        assoc_get(s, k) is None,
    ensures
        assoc_remove(s, k) =~= s,
    decreases s.len(),
{
    if s.len() > 0 {
        lemma_assoc_remove_absent(s.skip(1), k);
        assert(s =~= seq![s[0]] + s.skip(1));
    }
}

/// Filtering by any predicate on the key keeps sortedness.
pub proof fn lemma_assoc_retain_sorted_pred<T>(
    s: Seq<(Seq<char>, T)>,
    pred: spec_fn((Seq<char>, T)) -> bool,
)
    requires
        entries_sorted(s),
    ensures
        entries_sorted(s.filter(pred)),
    decreases s.len(),
{
    broadcast use vstd::seq_lib::group_filter_ensures;

    reveal(Seq::filter);
    if s.len() > 0 {
        let rest = s.drop_last();
        assert(entries_sorted(rest)) by {
            assert forall|i: int, j: int| 0 <= i < j < rest.len() implies #[trigger] lex_lt(
                #[trigger] rest[i].0,
                rest[j].0,
            ) by {
                assert(rest[i] == s[i]);
                assert(rest[j] == s[j]);
            }
        }
        lemma_assoc_retain_sorted_pred(rest, pred);
        if pred(s.last()) {
            let out = s.filter(pred);
            assert(out == rest.filter(pred).push(s.last()));
            assert forall|i: int, j: int| 0 <= i < j < out.len() implies #[trigger] lex_lt(
                #[trigger] out[i].0,
                out[j].0,
            ) by {
                if j < out.len() - 1 {
                    assert(out[i] == rest.filter(pred)[i]);
                    assert(out[j] == rest.filter(pred)[j]);
                } else {
                    assert(out[j] == s.last());
                    assert(out[i] == rest.filter(pred)[i]);
                    assert(rest.filter(pred).contains(out[i]));
                    Seq::lemma_filter_contains_rev(rest, pred, out[i]);
                    let w = choose|w: int| 0 <= w < rest.len() && rest[w] == out[i];
                    assert(s[w] == rest[w]);
                    assert(lex_lt(s[w].0, s[s.len() - 1].0));
                }
            }
        }
    }
}

/// An ordered set of names: the keys-only counterpart of `OrdMap`.
pub struct OrdSet {
    items: Vec<String>,
}

/// Names strictly ascending.
pub open spec fn names_sorted(s: Seq<Seq<char>>) -> bool {
    forall|i: int, j: int| 0 <= i < j < s.len() ==> #[trigger] lex_lt(#[trigger] s[i], s[j])
}

/// `s` with `k` inserted at its ordered position if not yet present.
pub open spec fn names_insert(s: Seq<Seq<char>>, k: Seq<char>) -> Seq<Seq<char>>
    decreases s.len(),
{
    if s.len() == 0 {
        seq![k]
    } else if lex_lt(k, s[0]) {
        seq![k] + s
    } else if s[0] == k {
        s
    } else {
        seq![s[0]] + names_insert(s.skip(1), k)
    }
}

/// What `names_insert` does, seen through membership and sortedness.
pub proof fn lemma_names_insert_props(s: Seq<Seq<char>>, k: Seq<char>)
    requires
        names_sorted(s),
    ensures
        names_sorted(names_insert(s, k)),
        names_insert(s, k).contains(k),
        forall|k2: Seq<char>| #[trigger] names_insert(s, k).contains(k2) <==> (s.contains(k2) || k2
            == k),
    decreases s.len(),
{
    let out = names_insert(s, k);
    if s.len() == 0 {
        assert(out =~= seq![k]);
        assert(out[0] == k);
        assert forall|k2: Seq<char>| #[trigger] out.contains(k2) implies (s.contains(k2) || k2
            == k) by {}
    } else {
        assert(names_sorted(s.skip(1)) && (forall|i: int|
            0 <= i < s.skip(1).len() ==> lex_lt(s[0], #[trigger] s.skip(1)[i]))) by {
            assert forall|i: int, j: int| 0 <= i < j < s.skip(1).len() implies #[trigger] lex_lt(
                #[trigger] s.skip(1)[i],
                s.skip(1)[j],
            ) by {
                assert(s.skip(1)[i] == s[i + 1]);
                assert(s.skip(1)[j] == s[j + 1]);
            }
            assert forall|i: int| 0 <= i < s.skip(1).len() implies lex_lt(
                s[0],
                #[trigger] s.skip(1)[i],
            ) by {
                assert(s.skip(1)[i] == s[i + 1]);
            }
        }
        if lex_lt(k, s[0]) {
            assert(out =~= seq![k] + s);
            assert(out[0] == k);
            assert forall|i: int, j: int| 0 <= i < j < out.len() implies #[trigger] lex_lt(
                #[trigger] out[i],
                out[j],
            ) by {
                if i == 0 {
                    if j > 1 {
                        lemma_lex_lt_transitive(k, s[0], s[j - 1]);
                    }
                } else {
                    assert(out[i] == s[i - 1]);
                    assert(out[j] == s[j - 1]);
                }
            }
            assert forall|k2: Seq<char>| #[trigger] out.contains(k2) implies (s.contains(k2) || k2
                == k) by {
                let w = choose|w: int| 0 <= w < out.len() && out[w] == k2;
                if w > 0 {
                    assert(s[w - 1] == k2);
                }
            }
            assert forall|k2: Seq<char>| s.contains(k2) || k2 == k implies #[trigger] out.contains(
                k2,
            ) by {
                if k2 == k {
                    assert(out[0] == k2);
                } else {
                    let w = choose|w: int| 0 <= w < s.len() && s[w] == k2;
                    assert(out[w + 1] == k2);
                }
            }
        } else if s[0] == k {
            assert(out =~= s);
            assert(s[0] == k);
        } else {
            lemma_lex_lt_trichotomy(k, s[0]);
            lemma_names_insert_props(s.skip(1), k);
            let rec = names_insert(s.skip(1), k);
            assert(out =~= seq![s[0]] + rec);
            assert forall|i: int| 0 <= i < rec.len() implies lex_lt(s[0], #[trigger] rec[i]) by {
                assert(rec.contains(rec[i]));
                if rec[i] == k {
                } else {
                    assert(s.skip(1).contains(rec[i]));
                    let w = choose|w: int| 0 <= w < s.skip(1).len() && s.skip(1)[w] == rec[i];
                }
            }
            assert forall|i: int, j: int| 0 <= i < j < out.len() implies #[trigger] lex_lt(
                #[trigger] out[i],
                out[j],
            ) by {
                if i > 0 {
                    assert(out[i] == rec[i - 1]);
                    assert(out[j] == rec[j - 1]);
                } else {
                    assert(out[j] == rec[j - 1]);
                }
            }
            assert(rec.contains(k));
            let w = choose|w: int| 0 <= w < rec.len() && rec[w] == k;
            assert(out[w + 1] == k);
            assert(out.contains(k));
            assert forall|k2: Seq<char>| #[trigger] out.contains(k2) implies (s.contains(k2) || k2
                == k) by {
                let u = choose|u: int| 0 <= u < out.len() && out[u] == k2;
                if u == 0 {
                    assert(s[0] == k2);
                } else {
                    assert(rec[u - 1] == k2);
                    assert(rec.contains(k2));
                    if k2 != k {
                        assert(s.skip(1).contains(k2));
                        let w2 = choose|w2: int| 0 <= w2 < s.skip(1).len() && s.skip(1)[w2] == k2;
                        assert(s[w2 + 1] == k2);
                    }
                }
            }
            assert forall|k2: Seq<char>| s.contains(k2) || k2 == k implies #[trigger] out.contains(
                k2,
            ) by {
                if k2 == k {
                } else {
                    let w2 = choose|w2: int| 0 <= w2 < s.len() && s[w2] == k2;
                    if w2 == 0 {
                        assert(out[0] == k2);
                    } else {
                        assert(s.skip(1)[w2 - 1] == k2);
                        assert(s.skip(1).contains(k2));
                        assert(rec.contains(k2));
                        let w3 = choose|w3: int| 0 <= w3 < rec.len() && rec[w3] == k2;
                        assert(out[w3 + 1] == k2);
                    }
                }
            }
        }
    }
}

/// Two sorted name sequences with the same members are the same sequence.
pub proof fn lemma_names_sorted_unique(s1: Seq<Seq<char>>, s2: Seq<Seq<char>>)
    requires
        names_sorted(s1),
        names_sorted(s2),
        forall|k: Seq<char>| #[trigger] s1.contains(k) <==> s2.contains(k),
    ensures
        s1 =~= s2,
    decreases s1.len() + s2.len(),
{
    if s1.len() == 0 && s2.len() == 0 {
    } else if s1.len() == 0 {
        assert(s2.contains(s2[0]));
        assert(s1.contains(s2[0]));
        assert(false);
    } else if s2.len() == 0 {
        assert(s1.contains(s1[0]));
        assert(!s2.contains(s1[0]));
        assert(false);
    } else {
        lemma_lex_lt_trichotomy(s1[0], s2[0]);
        if lex_lt(s1[0], s2[0]) {
            assert(s1.contains(s1[0]));
            assert(s2.contains(s1[0]));
            let w = choose|w: int| 0 <= w < s2.len() && s2[w] == s1[0];
            if w > 0 {
                lemma_lex_lt_transitive(s1[0], s2[0], s2[w]);
                lemma_lex_lt_trichotomy(s1[0], s2[w]);
            } else {
                lemma_lex_lt_trichotomy(s1[0], s2[0]);
            }
        } else if lex_lt(s2[0], s1[0]) {
            assert(s2.contains(s2[0]));
            assert(s1.contains(s2[0]));
            let w = choose|w: int| 0 <= w < s1.len() && s1[w] == s2[0];
            if w > 0 {
                lemma_lex_lt_transitive(s2[0], s1[0], s1[w]);
                lemma_lex_lt_trichotomy(s2[0], s1[w]);
            } else {
                lemma_lex_lt_trichotomy(s2[0], s1[0]);
            }
        } else {
            assert(names_sorted(s1.skip(1))) by {
                assert forall|i: int, j: int|
                    0 <= i < j < s1.skip(1).len() implies #[trigger] lex_lt(
                    #[trigger] s1.skip(1)[i],
                    s1.skip(1)[j],
                ) by {
                    assert(s1.skip(1)[i] == s1[i + 1]);
                    assert(s1.skip(1)[j] == s1[j + 1]);
                }
            }
            assert(names_sorted(s2.skip(1))) by {
                assert forall|i: int, j: int|
                    0 <= i < j < s2.skip(1).len() implies #[trigger] lex_lt(
                    #[trigger] s2.skip(1)[i],
                    s2.skip(1)[j],
                ) by {
                    assert(s2.skip(1)[i] == s2[i + 1]);
                    assert(s2.skip(1)[j] == s2[j + 1]);
                }
            }
            assert forall|k: Seq<char>| #[trigger] s1.skip(1).contains(k) implies s2.skip(
                1,
            ).contains(k) by {
                let w = choose|w: int| 0 <= w < s1.skip(1).len() && s1.skip(1)[w] == k;
                assert(s1[w + 1] == k);
                assert(s1.contains(k));
                assert(s2.contains(k));
                let u = choose|u: int| 0 <= u < s2.len() && s2[u] == k;
                if u == 0 {
                    assert(lex_lt(s1[0], s1[w + 1]));
                    lemma_lex_lt_trichotomy(s1[0], k);
                } else {
                    assert(s2.skip(1)[u - 1] == k);
                }
            }
            assert forall|k: Seq<char>| #[trigger] s2.skip(1).contains(k) implies s1.skip(
                1,
            ).contains(k) by {
                let w = choose|w: int| 0 <= w < s2.skip(1).len() && s2.skip(1)[w] == k;
                assert(s2[w + 1] == k);
                assert(s2.contains(k));
                assert(s1.contains(k));
                let u = choose|u: int| 0 <= u < s1.len() && s1[u] == k;
                if u == 0 {
                    assert(lex_lt(s2[0], s2[w + 1]));
                    lemma_lex_lt_trichotomy(s2[0], k);
                } else {
                    assert(s1.skip(1)[u - 1] == k);
                }
            }
            lemma_names_sorted_unique(s1.skip(1), s2.skip(1));
            assert(s1 =~= seq![s1[0]] + s1.skip(1));
            assert(s2 =~= seq![s2[0]] + s2.skip(1));
        }
    }
}

impl View for OrdSet {
    type V = Seq<Seq<char>>;

    closed spec fn view(&self) -> Seq<Seq<char>> {
        self.items@.map_values(|s: String| s@)
    }
}

impl OrdSet {
    pub open spec fn wf(&self) -> bool {
        names_sorted(self@)
    }

    pub fn new() -> (s: Self)
        ensures
            s@ =~= Seq::<Seq<char>>::empty(),
            s.wf(),
    {
        OrdSet { items: Vec::new() }
    }

    pub fn len(&self) -> (n: usize)
        ensures
            n == self@.len(),
    {
        self.items.len()
    }

    pub fn at(&self, i: usize) -> (k: &String)
        requires
            i < self@.len(),
        ensures
            k@ == self@[i as int],
    {
        &self.items[i]
    }

    pub fn contains(&self, k: &str) -> (r: bool)
        ensures
            r == self@.contains(k@),
    {
        let n = self.items.len();
        let mut i: usize = 0;
        while i < n
            invariant
                0 <= i <= n,
                n == self@.len(),
                self@.len() == self.items@.len(),
                forall|j: int| 0 <= j < i ==> #[trigger] self@[j] != k@,
            decreases n - i,
        {
            let eq = str_eq(self.items[i].as_str(), k);
            proof {
                assert(self@[i as int] == self.items@[i as int]@);
            }
            if eq {
                proof {
                    assert(self@[i as int] == k@);
                }
                return true;
            }
            i = i + 1;
        }
        proof {
            if self@.contains(k@) {
                let w = choose|w: int| 0 <= w < self@.len() && self@[w] == k@;
            }
        }
        false
    }

    /// The first position whose name is not below `k`.
    fn position(&self, k: &str) -> (i: usize)
        ensures
            i <= self@.len(),
            forall|j: int| 0 <= j < i ==> lex_lt(#[trigger] self@[j], k@),
            i < self@.len() ==> !lex_lt(self@[i as int], k@),
    {
        let n = self.items.len();
        let mut i: usize = 0;
        while i < n
            invariant
                0 <= i <= n,
                n == self@.len(),
                self@.len() == self.items@.len(),
                forall|j: int| 0 <= j < i ==> lex_lt(#[trigger] self@[j], k@),
            decreases n - i,
        {
            let lt = str_lt(self.items[i].as_str(), k);
            proof {
                assert(self@[i as int] == self.items@[i as int]@);
            }
            if !lt {
                return i;
            }
            i = i + 1;
        }
        i
    }

    /// Adds `k` if not yet present.
    pub fn insert(&mut self, k: String)
        requires
            old(self).wf(),
        ensures
            final(self)@ =~= names_insert(old(self)@, k@),
            final(self).wf(),
    {
        let ghost s0 = self@;
        let i = self.position(k.as_str());
        proof {
            lemma_names_insert_split(s0, k@, i as int);
        }
        if i < self.items.len() {
            let eq = str_eq(self.items[i].as_str(), k.as_str());
            proof {
                assert(s0[i as int] == self.items@[i as int]@);
            }
            if eq {
                proof {
                    lemma_names_insert_props(s0, k@);
                }
                return ;
            }
        }
        self.items.insert(i, k);
        proof {
            assert(self@ =~= s0.take(i as int) + seq![k@] + s0.skip(i as int));
            lemma_names_insert_props(s0, k@);
        }
    }
}

/// Where `names_insert` places the new name, as a take/skip split.
pub proof fn lemma_names_insert_split(s: Seq<Seq<char>>, k: Seq<char>, i: int)
    requires
        names_sorted(s),
        0 <= i <= s.len(),
        forall|j: int| 0 <= j < i ==> lex_lt(#[trigger] s[j], k),
        i < s.len() ==> !lex_lt(s[i], k),
    ensures
        names_insert(s, k) =~= (if i < s.len() && s[i] == k {
            s
        } else {
            s.take(i) + seq![k] + s.skip(i)
        }),
    decreases i,
{
    if i <= 0 {
        assert(s.take(0) =~= Seq::<Seq<char>>::empty());
        assert(s.skip(0) =~= s);
        if s.len() == 0 {
            assert(names_insert(s, k) =~= seq![k]);
        } else {
            lemma_lex_lt_trichotomy(k, s[0]);
            if s[0] == k {
            } else {
                assert(lex_lt(k, s[0]));
                assert(names_insert(s, k) =~= seq![k] + s);
            }
        }
    } else {
        lemma_lex_lt_trichotomy(k, s[0]);
        assert(lex_lt(s[0], k));
        assert(names_sorted(s.skip(1))) by {
            assert forall|a: int, b: int| 0 <= a < b < s.skip(1).len() implies #[trigger] lex_lt(
                #[trigger] s.skip(1)[a],
                s.skip(1)[b],
            ) by {
                assert(s.skip(1)[a] == s[a + 1]);
                assert(s.skip(1)[b] == s[b + 1]);
            }
        }
        assert forall|j: int| 0 <= j < i - 1 implies lex_lt(#[trigger] s.skip(1)[j], k) by {
            assert(s.skip(1)[j] == s[j + 1]);
        }
        assert(i - 1 < s.skip(1).len() ==> !lex_lt(s.skip(1)[i - 1], k)) by {
            if i - 1 < s.skip(1).len() {
                assert(s.skip(1)[i - 1] == s[i]);
            }
        }
        lemma_names_insert_split(s.skip(1), k, i - 1);
        assert(names_insert(s, k) =~= seq![s[0]] + names_insert(s.skip(1), k));
        if i < s.len() && s[i] == k {
            assert(s.skip(1)[i - 1] == s[i]);
            assert(s =~= seq![s[0]] + s.skip(1));
        } else {
            assert(s.take(i) =~= seq![s[0]] + s.skip(1).take(i - 1));
            assert(s.skip(1).skip(i - 1) =~= s.skip(i));
        }
    }
}

} // verus!
