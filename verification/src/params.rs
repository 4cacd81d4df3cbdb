//! `ParamMap`: string-keyed map whose entries are kept sorted by key in the
//! order of `Ord for str`, as a `BTreeMap<String, String>` iterates them.

use vstd::prelude::*;
use crate::text::{compare_keys, key_lt, lemma_key_lt_asymmetric, lemma_key_lt_irreflexive, lemma_key_lt_total, lemma_key_lt_transitive, str_eq, KeyOrder};

verus! {

/// An entry viewed as plain character sequences.
pub type Entry = (Seq<char>, Seq<char>);

/// Keys strictly increase along the sequence (so no key occurs twice).
pub open spec fn sorted_keys(s: Seq<Entry>) -> bool {
    forall|i: int, j: int| 0 <= i < j < s.len() ==> key_lt(#[trigger] s[i].0, #[trigger] s[j].0)
}

/// The entries after `insert(k, v)`: `k` takes its place in key order, and
/// an entry with the same key is replaced.
pub open spec fn insert_sorted(s: Seq<Entry>, k: Seq<char>, v: Seq<char>) -> Seq<Entry>
    decreases s.len(),
{
    if s.len() == 0 {
        seq![(k, v)]
    } else if s[0].0 == k {
        seq![(k, v)] + s.drop_first()
    } else if key_lt(k, s[0].0) {
        seq![(k, v)] + s
    } else {
        seq![s[0]] + insert_sorted(s.drop_first(), k, v)
    }
}

/// The value stored under `k`.
pub open spec fn lookup(s: Seq<Entry>, k: Seq<char>) -> Option<Seq<char>>
    decreases s.len(),
{
    if s.len() == 0 {
        None
    } else if s[0].0 == k {
        Some(s[0].1)
    } else {
        lookup(s.drop_first(), k)
    }
}

/// Inserting every entry of `extra`, in order, into `base`.
pub open spec fn insert_all(base: Seq<Entry>, extra: Seq<Entry>) -> Seq<Entry> {
    extra.fold_left(base, |acc: Seq<Entry>, e: Entry| insert_sorted(acc, e.0, e.1))
}

pub open spec fn entries_view(v: Seq<(String, String)>) -> Seq<Entry> {
    v.map_values(|e: (String, String)| (e.0@, e.1@))
}

/// A map from strings to strings that iterates in key order.
pub struct ParamMap {
    entries: Vec<(String, String)>,
}

impl View for ParamMap {
    type V = Seq<Entry>;

    closed spec fn view(&self) -> Seq<Entry> {
        entries_view(self.entries@)
    }
}

// ── laws of the sorted representation ───────────────────────────────────

/// A key that is below `k` and below every key of `s` is below every key
/// after inserting `k`.
pub proof fn lemma_insert_sorted_lower_bound(s: Seq<Entry>, k: Seq<char>, v: Seq<char>, x: Seq<char>)
    requires
        key_lt(x, k),
        forall|j: int| 0 <= j < s.len() ==> key_lt(x, #[trigger] s[j].0),
    ensures
        forall|j: int|
            0 <= j < insert_sorted(s, k, v).len() ==> key_lt(x, #[trigger] insert_sorted(s, k, v)[j].0),
    decreases s.len(),
{
    if s.len() > 0 && s[0].0 != k && !key_lt(k, s[0].0) {
        assert forall|j: int| 0 <= j < s.drop_first().len() implies key_lt(
            x,
            #[trigger] s.drop_first()[j].0,
        ) by {
            assert(s.drop_first()[j] == s[j + 1]);
        }
        lemma_insert_sorted_lower_bound(s.drop_first(), k, v, x);
        let r = insert_sorted(s, k, v);
        let t = insert_sorted(s.drop_first(), k, v);
        assert forall|j: int| 0 <= j < r.len() implies key_lt(x, #[trigger] r[j].0) by {
            if j > 0 {
                assert(r[j] == t[j - 1]);
            }
        }
    } else if s.len() > 0 && s[0].0 == k {
        let r = insert_sorted(s, k, v);
        assert forall|j: int| 0 <= j < r.len() implies key_lt(x, #[trigger] r[j].0) by {
            if j > 0 {
                assert(r[j] == s[j]);
            }
        }
    } else if s.len() > 0 {
        let r = insert_sorted(s, k, v);
        assert forall|j: int| 0 <= j < r.len() implies key_lt(x, #[trigger] r[j].0) by {
            if j > 0 {
                assert(r[j] == s[j - 1]);
            }
        }
    }
}

/// Insertion keeps the keys strictly increasing.
pub proof fn lemma_insert_sorted_sorted(s: Seq<Entry>, k: Seq<char>, v: Seq<char>)
    requires
        sorted_keys(s),
    ensures
        sorted_keys(insert_sorted(s, k, v)),
    decreases s.len(),
{
    let r = insert_sorted(s, k, v);
    if s.len() == 0 {
    } else if s[0].0 == k {
        assert forall|i: int, j: int| 0 <= i < j < r.len() implies key_lt(
            #[trigger] r[i].0,
            #[trigger] r[j].0,
        ) by {
            assert(r[j] == s[j]);
            if i > 0 {
                assert(r[i] == s[i]);
            }
        }
    } else if key_lt(k, s[0].0) {
        assert forall|i: int, j: int| 0 <= i < j < r.len() implies key_lt(
            #[trigger] r[i].0,
            #[trigger] r[j].0,
        ) by {
            assert(r[j] == s[j - 1]);
            if i > 0 {
                assert(r[i] == s[i - 1]);
            } else if j > 1 {
                assert(key_lt(s[0].0, s[j - 1].0));
                lemma_key_lt_transitive(k, s[0].0, s[j - 1].0);
            }
        }
    } else {
        let t = s.drop_first();
        assert(sorted_keys(t)) by {
            assert forall|i: int, j: int| 0 <= i < j < t.len() implies key_lt(
                #[trigger] t[i].0,
                #[trigger] t[j].0,
            ) by {
                assert(t[i] == s[i + 1]);
                assert(t[j] == s[j + 1]);
            }
        }
        lemma_insert_sorted_sorted(t, k, v);
        lemma_key_lt_total(k, s[0].0);
        assert forall|j: int| 0 <= j < t.len() implies key_lt(s[0].0, #[trigger] t[j].0) by {
            assert(t[j] == s[j + 1]);
        }
        lemma_insert_sorted_lower_bound(t, k, v, s[0].0);
        let rt = insert_sorted(t, k, v);
        assert forall|i: int, j: int| 0 <= i < j < r.len() implies key_lt(
            #[trigger] r[i].0,
            #[trigger] r[j].0,
        ) by {
            assert(r[j] == rt[j - 1]);
            if i > 0 {
                assert(r[i] == rt[i - 1]);
            }
        }
    }
}

/// Reading after a write: the written key gives the written value, and
/// every other key keeps its value.
pub proof fn lemma_lookup_insert(s: Seq<Entry>, k: Seq<char>, v: Seq<char>, k2: Seq<char>)
    ensures
        lookup(insert_sorted(s, k, v), k2) == if k2 == k {
            Some(v)
        } else {
            lookup(s, k2)
        },
    decreases s.len(),
{
    let r = insert_sorted(s, k, v);
    if s.len() == 0 {
        assert(r =~= seq![(k, v)]);
        assert(r.drop_first().len() == 0);
        assert(lookup(r.drop_first(), k2) is None);
    } else if s[0].0 == k {
        assert(r =~= seq![(k, v)] + s.drop_first());
        assert(r[0] == (k, v));
        assert(r.drop_first() =~= s.drop_first());
    } else if key_lt(k, s[0].0) {
        assert(r =~= seq![(k, v)] + s);
        assert(r[0] == (k, v));
        assert(r.drop_first() =~= s);
    } else {
        let t = insert_sorted(s.drop_first(), k, v);
        assert(r =~= seq![s[0]] + t);
        assert(r[0] == s[0]);
        lemma_lookup_insert(s.drop_first(), k, v, k2);
        assert(r.drop_first() =~= t);
    }
}

/// In a sorted sequence, a key below the first key is absent.
proof fn lemma_lookup_below(s: Seq<Entry>, k: Seq<char>)
    requires
        sorted_keys(s),
        s.len() > 0,
        key_lt(k, s[0].0),
    ensures
        lookup(s, k) is None,
    decreases s.len(),
{
    lemma_key_lt_irreflexive(k);
    assert(s[0].0 != k);
    let t = s.drop_first();
    if t.len() > 0 {
        assert(t[0] == s[1]);
        assert(key_lt(s[0].0, s[1].0));
        lemma_key_lt_transitive(k, s[0].0, s[1].0);
        assert(sorted_keys(t)) by {
            assert forall|i: int, j: int| 0 <= i < j < t.len() implies key_lt(
                #[trigger] t[i].0,
                #[trigger] t[j].0,
            ) by {
                assert(t[i] == s[i + 1]);
                assert(t[j] == s[j + 1]);
            }
        }
        lemma_lookup_below(t, k);
    }
}

/// Insertion adds one entry exactly when the key was absent.
pub proof fn lemma_insert_sorted_len(s: Seq<Entry>, k: Seq<char>, v: Seq<char>)
    requires
        sorted_keys(s),
    ensures
        insert_sorted(s, k, v).len() == s.len() + if lookup(s, k) is None {
            1int
        } else {
            0int
        },
    decreases s.len(),
{
    if s.len() > 0 && s[0].0 != k {
        if key_lt(k, s[0].0) {
            lemma_lookup_below(s, k);
        } else {
            let t = s.drop_first();
            assert(sorted_keys(t)) by {
                assert forall|i: int, j: int| 0 <= i < j < t.len() implies key_lt(
                    #[trigger] t[i].0,
                    #[trigger] t[j].0,
                ) by {
                    assert(t[i] == s[i + 1]);
                    assert(t[j] == s[j + 1]);
                }
            }
            lemma_insert_sorted_len(t, k, v);
        }
    }
}

/// Where the linear scan for `k` stops, insertion is an update in place or
/// an insertion at that position.
proof fn lemma_insert_at(s: Seq<Entry>, k: Seq<char>, v: Seq<char>, p: int)
    requires
        sorted_keys(s),
        0 <= p <= s.len(),
        forall|i: int| 0 <= i < p ==> key_lt(#[trigger] s[i].0, k),
        p == s.len() || !key_lt(s[p].0, k),
    ensures
        insert_sorted(s, k, v) == if p < s.len() && s[p].0 == k {
            s.update(p, (k, v))
        } else {
            s.insert(p, (k, v))
        },
    decreases p,
{
    if p == 0 {
        if s.len() == 0 {
            assert(s.insert(0, (k, v)) =~= seq![(k, v)]);
        } else if s[0].0 == k {
            assert(s.update(0, (k, v)) =~= seq![(k, v)] + s.drop_first());
        } else {
            lemma_key_lt_total(k, s[0].0);
            assert(s.insert(0, (k, v)) =~= seq![(k, v)] + s);
        }
    } else {
        let t = s.drop_first();
        assert(key_lt(s[0].0, k));
        lemma_key_lt_irreflexive(k);
        lemma_key_lt_asymmetric(s[0].0, k);
        assert(sorted_keys(t)) by {
            assert forall|i: int, j: int| 0 <= i < j < t.len() implies key_lt(
                #[trigger] t[i].0,
                #[trigger] t[j].0,
            ) by {
                assert(t[i] == s[i + 1]);
                assert(t[j] == s[j + 1]);
            }
        }
        assert forall|i: int| 0 <= i < p - 1 implies key_lt(#[trigger] t[i].0, k) by {
            assert(t[i] == s[i + 1]);
        }
        if p < s.len() {
            assert(t[p - 1] == s[p]);
        }
        lemma_insert_at(t, k, v, p - 1);
        if p < s.len() && s[p].0 == k {
            assert(seq![s[0]] + t.update(p - 1, (k, v)) =~= s.update(p, (k, v)));
        } else {
            assert(seq![s[0]] + t.insert(p - 1, (k, v)) =~= s.insert(p, (k, v)));
        }
    }
}

impl ParamMap {
    /// The well-formedness of the representation (a type invariant).
    #[verifier::type_invariant]
    pub closed spec fn wf(self) -> bool {
        sorted_keys(entries_view(self.entries@))
    }

    /// The entries of a well-formed map are in strictly increasing key order
    /// (`use_type_invariant` gives `wf`).
    pub proof fn lemma_sorted(m: &ParamMap)
        requires
            m.wf(),
        ensures
            sorted_keys(m@),
    {
    }

    /// An empty map.
    pub fn new() -> (m: Self)
        ensures
            m@ == Seq::<Entry>::empty(),
    {
        let m = ParamMap { entries: Vec::new() };
        proof {
            assert(entries_view(m.entries@) =~= Seq::<Entry>::empty());
        }
        m
    }

    /// Number of entries.
    pub fn len(&self) -> (n: usize)
        ensures
            n == self@.len(),
    {
        self.entries.len()
    }

    /// Whether the map holds no entry.
    pub fn is_empty(&self) -> (b: bool)
        ensures
            b == (self@.len() == 0),
    {
        self.entries.len() == 0
    }

    /// The key of the `i`-th entry in key order.
    pub fn key_at(&self, i: usize) -> (k: &String)
        requires
            i < self@.len(),
        ensures
            k@ == self@[i as int].0,
    {
        &self.entries[i].0
    }

    /// The value of the `i`-th entry in key order.
    pub fn value_at(&self, i: usize) -> (v: &String)
        requires
            i < self@.len(),
        ensures
            v@ == self@[i as int].1,
    {
        &self.entries[i].1
    }

    /// Position where the scan for `key` stops: the first entry whose key
    /// is not below `key`.
    fn position(&self, key: &str) -> (p: usize)
        ensures
            p <= self@.len(),
            forall|i: int| 0 <= i < p ==> key_lt(#[trigger] self@[i].0, key@),
            p == self@.len() || !key_lt(self@[p as int].0, key@),
    {
        let n = self.entries.len();
        let mut p: usize = 0;
        while p < n
            invariant
                n == self@.len(),
                n == self.entries@.len(),
                p <= n,
                forall|i: int| 0 <= i < p ==> key_lt(#[trigger] self@[i].0, key@),
            decreases n - p,
        {
            let r = compare_keys(self.entries[p].0.as_str(), key);
            if r != KeyOrder::Less {
                return p;
            }
            p = p + 1;
        }
        p
    }

    /// The value stored under `key`.
    pub fn get(&self, key: &str) -> (r: Option<&String>)
        ensures
            match r {
                Some(v) => lookup(self@, key@) == Some(v@),
                None => lookup(self@, key@) is None,
            },
    {
        proof {
            use_type_invariant(self);
        }
        let p = self.position(key);
        if p < self.entries.len() && str_eq(self.entries[p].0.as_str(), key) {
            proof {
                lemma_insert_at(self@, key@, self@[p as int].1, p as int);
                lemma_lookup_insert(self@, key@, self@[p as int].1, key@);
                assert(self@.update(p as int, (key@, self@[p as int].1)) =~= self@);
            }
            Some(&self.entries[p].1)
        } else {
            proof {
                if p < self@.len() {
                    lemma_key_lt_total(self@[p as int].0, key@);
                    lemma_lookup_below(self@.skip(p as int), key@);
                }
                lemma_lookup_prefix_absent(self@, key@, p as int);
            }
            None
        }
    }

    /// Whether `key` is present.
    pub fn contains_key(&self, key: &str) -> (b: bool)
        ensures
            b == lookup(self@, key@) is Some,
    {
        self.get(key).is_some()
    }

    /// Stores `value` under `key`, replacing any earlier value.
    pub fn insert(&mut self, key: String, value: String)
        ensures
            final(self)@ == insert_sorted(old(self)@, key@, value@),
    {
        proof {
            use_type_invariant(&*self);
        }
        let p = self.position(key.as_str());
        let ghost k = key@;
        let ghost v = value@;
        let ghost s = self@;
        proof {
            lemma_insert_at(s, k, v, p as int);
            lemma_insert_sorted_sorted(s, k, v);
        }
        let mut entries: Vec<(String, String)> = Vec::new();
        std::mem::swap(&mut entries, &mut self.entries);
        assert(entries_view(entries@) == s);
        if p < entries.len() && str_eq(entries[p].0.as_str(), key.as_str()) {
            entries.remove(p);
            entries.insert(p, (key, value));
            proof {
                assert(entries_view(entries@) =~= s.update(p as int, (k, v)));
            }
        } else {
            entries.insert(p, (key, value));
            proof {
                assert(entries_view(entries@) =~= s.insert(p as int, (k, v)));
            }
        }
        self.entries = entries;
    }
}

/// A key absent from the tail starting at the scan position, and above
/// every key before it, is absent from the whole sequence.
proof fn lemma_lookup_prefix_absent(s: Seq<Entry>, k: Seq<char>, p: int)
    requires
        0 <= p <= s.len(),
        forall|i: int| 0 <= i < p ==> key_lt(#[trigger] s[i].0, k),
        p == s.len() || lookup(s.skip(p), k) is None,
    ensures
        lookup(s, k) is None,
    decreases p,
{
    if p == s.len() {
        lemma_lookup_absent_all(s, k);
    } else if p > 0 {
        lemma_key_lt_irreflexive(k);
        assert(s.drop_first().skip(p - 1) =~= s.skip(p));
        assert forall|i: int| 0 <= i < p - 1 implies key_lt(#[trigger] s.drop_first()[i].0, k) by {
            assert(s.drop_first()[i] == s[i + 1]);
        }
        lemma_lookup_prefix_absent(s.drop_first(), k, p - 1);
    } else {
        assert(s.skip(0) =~= s);
    }
}

proof fn lemma_lookup_absent_all(s: Seq<Entry>, k: Seq<char>)
    requires
        forall|i: int| 0 <= i < s.len() ==> key_lt(#[trigger] s[i].0, k),
    ensures
        lookup(s, k) is None,
    decreases s.len(),
{
    if s.len() > 0 {
        lemma_key_lt_irreflexive(k);
        assert forall|i: int| 0 <= i < s.drop_first().len() implies key_lt(
            #[trigger] s.drop_first()[i].0,
            k,
        ) by {
            assert(s.drop_first()[i] == s[i + 1]);
        }
        lemma_lookup_absent_all(s.drop_first(), k);
    }
}

} // verus!
