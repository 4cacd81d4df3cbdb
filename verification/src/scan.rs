//! Metadata duplicate scan: the key a photo is grouped by, and the groups
//! of photos that share a non-empty key.

use vstd::prelude::*;
use crate::text::str_eq;
use crate::types::Photo;

verus! {

/// A metadata field photos are grouped by.
#[derive(Debug, Clone, Copy, PartialEq, Eq, Structural)]
pub enum ScanBy {
    Title,
    Filename,
    Datetaken,
}

/// The name of a field, as `Display` writes it.
pub open spec fn scan_by_name(by: ScanBy) -> Seq<char> {
    match by {
        ScanBy::Title => "title"@,
        ScanBy::Filename => "filename"@,
        ScanBy::Datetaken => "datetaken"@,
    }
}

/// The label a report of a field is headed with.
pub open spec fn scan_by_label(by: ScanBy) -> Seq<char> {
    match by {
        ScanBy::Title => "title"@,
        ScanBy::Filename => "filename"@,
        ScanBy::Datetaken => "date taken"@,
    }
}

impl ScanBy {
    /// The field's name (what `Display` writes).
    pub fn to_string(&self) -> (s: String)
        ensures
            s@ == scan_by_name(*self),
    {
        match self {
            ScanBy::Title => "title".to_owned(),
            ScanBy::Filename => "filename".to_owned(),
            ScanBy::Datetaken => "datetaken".to_owned(),
        }
    }

    /// The heading label of the field's report.
    pub fn label(&self) -> (s: &'static str)
        ensures
            s@ == scan_by_label(*self),
    {
        match self {
            ScanBy::Title => "title",
            ScanBy::Filename => "filename",
            ScanBy::Datetaken => "date taken",
        }
    }
}

/// The key of a photo for a field: the title; the original format (empty
/// when unknown); or the first ten characters of the date taken
/// (`YYYY-MM-DD`, empty when unknown).
pub open spec fn scan_key_spec(p: Photo, by: ScanBy) -> Seq<char> {
    match by {
        ScanBy::Title => p.title@,
        ScanBy::Filename => match p.originalformat {
            Some(f) => f@,
            None => Seq::empty(),
        },
        ScanBy::Datetaken => match p.datetaken {
            Some(d) => if d@.len() <= 10 {
                d@
            } else {
                d@.take(10)
            },
            None => Seq::empty(),
        },
    }
}

/// The key of a photo for a field.
pub fn scan_key(p: &Photo, by: ScanBy) -> (k: String)
    ensures
        k@ == scan_key_spec(*p, by),
{
    match by {
        ScanBy::Title => p.title.clone(),
        ScanBy::Filename => match &p.originalformat {
            Some(f) => f.clone(),
            None => String::new(),
        },
        ScanBy::Datetaken => match &p.datetaken {
            Some(d) => {
                let n = d.as_str().unicode_len();
                if n <= 10 {
                    d.clone()
                } else {
                    d.as_str().substring_char(0, 10).to_owned()
                }
            },
            None => String::new(),
        },
    }
}

/// The indices below `n` whose key is `key`, in increasing order.
pub open spec fn occurrences(keys: Seq<Seq<char>>, key: Seq<char>, n: int) -> Seq<int>
    decreases n,
{
    if n <= 0 {
        Seq::empty()
    } else if keys[n - 1] == key {
        occurrences(keys, key, n - 1).push(n - 1)
    } else {
        occurrences(keys, key, n - 1)
    }
}

/// The photos sharing one key.
#[derive(Debug, Clone)]
pub struct KeyGroup {
    pub key: String,
    pub members: Vec<usize>,
}

pub open spec fn members_view(m: Seq<usize>) -> Seq<int> {
    m.map_values(|x: usize| x as int)
}

proof fn lemma_occurrences_bounds(keys: Seq<Seq<char>>, key: Seq<char>, n: int)
    ensures
        forall|k: int|
            0 <= k < occurrences(keys, key, n).len() ==> 0 <= #[trigger] occurrences(keys, key, n)[k]
                < n,
    decreases n,
{
    if n > 0 {
        lemma_occurrences_bounds(keys, key, n - 1);
        let prev = occurrences(keys, key, n - 1);
        let cur = occurrences(keys, key, n);
        assert forall|k: int| 0 <= k < cur.len() implies 0 <= #[trigger] cur[k] < n by {
            if k < prev.len() {
                assert(cur[k] == prev[k]);
            }
        }
    }
}

/// Groups the indices of `keys` by key: one group per non-empty key that
/// occurs at least twice, holding every index of that key in increasing
/// order; groups come in the order of their keys' first occurrences.
pub fn group_duplicates(keys: &Vec<String>) -> (r: Vec<KeyGroup>)
    ensures
        forall|k: int|
            0 <= k < r@.len() ==> {
                let g = #[trigger] r@[k];
                &&& g.key@.len() > 0
                &&& members_view(g.members@) == occurrences(
                    keys@.map_values(|s: String| s@),
                    g.key@,
                    keys@.len() as int,
                )
                &&& g.members@.len() >= 2
            },
        forall|k: int, l: int|
            0 <= k < l < r@.len() ==> (#[trigger] r@[k]).key@ != (#[trigger] r@[l]).key@
                && r@[k].members@[0] < r@[l].members@[0],
        forall|a: int|
            0 <= a < keys@.len() && keys@[a]@.len() > 0 && occurrences(
                keys@.map_values(|s: String| s@),
                keys@[a]@,
                keys@.len() as int,
            ).len() >= 2 ==> exists|k: int| 0 <= k < r@.len() && (#[trigger] r@[k]).key@ == keys@[a]@,
{
    let ghost kv = keys@.map_values(|s: String| s@);
    let n = keys.len();
    let mut gkeys: Vec<String> = Vec::new();
    let mut gmembers: Vec<Vec<usize>> = Vec::new();
    let ghost mut gid: Seq<int> = Seq::empty();
    let mut i: usize = 0;
    while i < n
        invariant
            n == keys@.len(),
            kv == keys@.map_values(|s: String| s@),
            i <= n,
            gkeys@.len() == gmembers@.len(),
            gid.len() == i,
            forall|g: int|
                0 <= g < gkeys@.len() ==> {
                    &&& (#[trigger] gkeys@[g])@.len() > 0
                    &&& members_view(gmembers@[g]@) == occurrences(kv, gkeys@[g]@, i as int)
                    &&& gmembers@[g]@.len() >= 1
                },
            forall|g: int, h: int|
                0 <= g < h < gkeys@.len() ==> (#[trigger] gkeys@[g])@ != (#[trigger] gkeys@[h])@
                    && gmembers@[g]@[0] < gmembers@[h]@[0],
            forall|a: int|
                0 <= a < i && kv[a].len() > 0 ==> 0 <= #[trigger] gid[a] < gkeys@.len()
                    && gkeys@[gid[a]]@ == kv[a],
        decreases n - i,
    {
        let key = &keys[i];
        proof {
            assert(kv[i as int] == key@);
        }
        if key.as_str().unicode_len() > 0 {
            // Find the group of this key.
            let mut g: usize = 0;
            while g < gkeys.len()
                invariant
                    g <= gkeys@.len(),
                    forall|h: int| 0 <= h < g ==> (#[trigger] gkeys@[h])@ != key@,
                ensures
                    g <= gkeys@.len(),
                    forall|h: int| 0 <= h < g ==> (#[trigger] gkeys@[h])@ != key@,
                    g < gkeys@.len() ==> gkeys@[g as int]@ == key@,
                decreases gkeys@.len() - g,
            {
                if str_eq(gkeys[g].as_str(), key.as_str()) {
                    break;
                }
                g = g + 1;
            }
            if g < gkeys.len() {
                let ghost old_members = gmembers@;
                gmembers[g].push(i);
                proof {
                    assert(gkeys@[g as int]@ == key@);
                    assert forall|h: int| 0 <= h < gkeys@.len() implies {
                        &&& (#[trigger] gkeys@[h])@.len() > 0
                        &&& members_view(gmembers@[h]@) == occurrences(kv, gkeys@[h]@, i + 1)
                        &&& gmembers@[h]@.len() >= 1
                    } by {
                        if h == g {
                            assert(members_view(gmembers@[h]@) =~= members_view(
                                old_members[h]@,
                            ).push(i as int));
                        } else {
                            assert(gmembers@[h] == old_members[h]);
                        }
                    }
                    assert forall|h: int| 0 <= h < gkeys@.len() implies (#[trigger] gmembers@[h])@[0]
                        == old_members[h]@[0] by {
                        if h == g {
                            assert(gmembers@[h]@ == old_members[h]@.push(i));
                        } else {
                            assert(gmembers@[h] == old_members[h]);
                        }
                    }
                    gid = gid.push(g as int);
                }
            } else {
                let ghost old_members = gmembers@;
                proof {
                    // No earlier index has this key: its group would exist.
                    assert forall|a: int| 0 <= a < i implies #[trigger] kv[a] != key@ by {
                        if kv[a] == key@ {
                            assert(gkeys@[gid[a]]@ == key@);
                        }
                    }
                    lemma_no_occurrences(kv, key@, i as int);
                    assert forall|h: int| 0 <= h < gkeys@.len() implies old_members[h]@[0]
                        < i by {
                        lemma_occurrences_bounds(kv, gkeys@[h]@, i as int);
                        assert(members_view(old_members[h]@)[0] == old_members[h]@[0] as int);
                    }
                }
                gkeys.push(key.clone());
                let mut m: Vec<usize> = Vec::new();
                m.push(i);
                gmembers.push(m);
                proof {
                    assert forall|h: int| 0 <= h < gkeys@.len() implies {
                        &&& (#[trigger] gkeys@[h])@.len() > 0
                        &&& members_view(gmembers@[h]@) == occurrences(kv, gkeys@[h]@, i + 1)
                        &&& gmembers@[h]@.len() >= 1
                    } by {
                        if h == gkeys@.len() - 1 {
                            assert(members_view(gmembers@[h]@) =~= seq![i as int]);
                            assert(occurrences(kv, key@, i as int) =~= Seq::<int>::empty());
                        } else {
                            assert(gmembers@[h] == old_members[h]);
                        }
                    }
                    gid = gid.push((gkeys@.len() - 1) as int);
                }
            }
        } else {
            proof {
                assert forall|h: int| 0 <= h < gkeys@.len() implies members_view(
                    gmembers@[h]@,
                ) == occurrences(kv, (#[trigger] gkeys@[h])@, i + 1) by {
                    assert(kv[i as int] != gkeys@[h]@);
                }
                gid = gid.push(-1);
            }
        }
        i = i + 1;
    }
    // Keep the groups with at least two members.
    let mut out: Vec<KeyGroup> = Vec::new();
    let ghost mut pos: Seq<int> = Seq::empty();
    let ghost mut src: Seq<int> = Seq::empty();
    let mut g: usize = 0;
    while g < gkeys.len()
        invariant
            n == keys@.len(),
            kv == keys@.map_values(|s: String| s@),
            gkeys@.len() == gmembers@.len(),
            g <= gkeys@.len(),
            pos.len() == g,
            forall|h: int|
                0 <= h < gkeys@.len() ==> {
                    &&& (#[trigger] gkeys@[h])@.len() > 0
                    &&& members_view(gmembers@[h]@) == occurrences(kv, gkeys@[h]@, n as int)
                    &&& gmembers@[h]@.len() >= 1
                },
            forall|h1: int, h2: int|
                0 <= h1 < h2 < gkeys@.len() ==> (#[trigger] gkeys@[h1])@ != (
                #[trigger] gkeys@[h2])@ && gmembers@[h1]@[0] < gmembers@[h2]@[0],
            forall|k: int|
                0 <= k < out@.len() ==> {
                    let o = #[trigger] out@[k];
                    &&& o.key@.len() > 0
                    &&& members_view(o.members@) == occurrences(kv, o.key@, n as int)
                    &&& o.members@.len() >= 2
                },
            forall|k: int, l: int|
                0 <= k < l < out@.len() ==> (#[trigger] out@[k]).key@ != (#[trigger] out@[l]).key@
                    && out@[k].members@[0] < out@[l].members@[0],
            src.len() == out@.len(),
            forall|k: int|
                0 <= k < out@.len() ==> 0 <= #[trigger] src[k] < g && gkeys@[src[k]]@
                    == out@[k].key@ && gmembers@[src[k]]@[0] == out@[k].members@[0],
            forall|h: int|
                0 <= h < g && gmembers@[h]@.len() >= 2 ==> 0 <= #[trigger] pos[h] < out@.len()
                    && out@[pos[h]].key@ == gkeys@[h]@,
        decreases gkeys@.len() - g,
    {
        if gmembers[g].len() >= 2 {
            let ghost old_out = out@;
            let grp = KeyGroup { key: gkeys[g].clone(), members: gmembers[g].clone() };
            proof {
                assert(grp.members@ == gmembers@[g as int]@);
            }
            out.push(grp);
            proof {
                assert(out@[old_out.len() as int] == grp);
                assert forall|k: int, l: int| 0 <= k < l < out@.len() implies (
                #[trigger] out@[k]).key@ != (#[trigger] out@[l]).key@ && out@[k].members@[0]
                    < out@[l].members@[0] by {
                    if l == old_out.len() {
                        assert(out@[k] == old_out[k]);
                        let h = src[k];
                        assert(gkeys@[h]@ != gkeys@[g as int]@);
                    } else {
                        assert(out@[k] == old_out[k]);
                        assert(out@[l] == old_out[l]);
                    }
                }
                src = src.push(g as int);
                assert forall|k: int| 0 <= k < out@.len() implies 0 <= #[trigger] src[k] < g + 1
                    && gkeys@[src[k]]@ == out@[k].key@ && gmembers@[src[k]]@[0]
                    == out@[k].members@[0] by {
                    if k < old_out.len() {
                        assert(out@[k] == old_out[k]);
                    }
                }
                pos = pos.push(old_out.len() as int);
            }
        } else {
            proof {
                pos = pos.push(-1);
            }
        }
        g = g + 1;
    }
    proof {
        assert forall|a: int|
            0 <= a < keys@.len() && keys@[a]@.len() > 0 && occurrences(
                keys@.map_values(|s: String| s@),
                keys@[a]@,
                keys@.len() as int,
            ).len() >= 2 implies exists|k: int|
            0 <= k < out@.len() && (#[trigger] out@[k]).key@ == keys@[a]@ by {
            assert(kv[a] == keys@[a]@);
            let h = gid[a];
            assert(gkeys@[h]@ == kv[a]);
            assert(members_view(gmembers@[h]@).len() == gmembers@[h]@.len());
            assert(out@[pos[h]].key@ == keys@[a]@);
        }
    }
    out
}

proof fn lemma_no_occurrences(keys: Seq<Seq<char>>, key: Seq<char>, n: int)
    requires
        0 <= n <= keys.len(),
        forall|a: int| 0 <= a < n ==> #[trigger] keys[a] != key,
    ensures
        occurrences(keys, key, n) == Seq::<int>::empty(),
    decreases n,
{
    if n > 0 {
        lemma_no_occurrences(keys, key, n - 1);
    }
}

} // verus!
