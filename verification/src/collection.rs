//! Collections of named manifests and their referential-consistency check.

use vstd::prelude::*;

use crate::assoc::lemma_map_insert_position;
use crate::assoc::lemma_map_insert_sorted;
use crate::assoc::map_insert;
use crate::assoc::map_sorted;
use crate::cumulative::strs_view;
use crate::manifest::enc_manifest_matches;
use crate::manifest::Manifest;
use crate::manifest::ManifestView;
use crate::order::chars_eq;
use crate::order::chars_lt;
use crate::order::key_of;
use crate::order::lex_lt;
use crate::raw::Raw;

verus! {

/// The view of held name/manifest entries.
pub open spec fn entries_view(s: Seq<(String, Manifest)>) -> Seq<(Seq<char>, Manifest)> {
    s.map_values(|p: (String, Manifest)| (p.0@, p.1))
}

/// The collection a sequence of name/manifest pairs folds into, later
/// pairs overriding earlier ones with the same name.
pub open spec fn coll_fold(entries: Seq<(Seq<char>, Manifest)>) -> Seq<(Seq<char>, Manifest)>
    decreases entries.len(),
{
    if entries.len() == 0 {
        Seq::empty()
    } else {
        map_insert(coll_fold(entries.drop_last()), entries.last().0, entries.last().1, false)
    }
}

/// Whether `k` is a key of the collection.
pub open spec fn coll_has_key(c: Seq<(Seq<char>, Manifest)>, k: Seq<char>) -> bool {
    exists|i: int| 0 <= i < c.len() && (#[trigger] c[i]).0 == k
}

/// The subsequence of `ts` that are not keys of `c`, in order, duplicates
/// kept. Only key existence counts: a reference to any key is satisfied,
/// whatever that key's own topic kind.
pub open spec fn missing_refs(c: Seq<(Seq<char>, Manifest)>, ts: Seq<Seq<char>>) -> Seq<Seq<char>>
    decreases ts.len(),
{
    if ts.len() == 0 {
        Seq::empty()
    } else {
        missing_refs(c, ts.drop_last()) + (if coll_has_key(c, ts.last()) {
            Seq::empty()
        } else {
            seq![ts.last()]
        })
    }
}

/// The report row the entry at `i` contributes: a cumulative entry with
/// missing references contributes its name with those references; every
/// other entry contributes nothing.
pub open spec fn entry_report(c: Seq<(Seq<char>, Manifest)>, i: int) -> Seq<
    (Seq<char>, Seq<Seq<char>>),
> {
    match c[i].1@ {
        ManifestView::Cumulative(cu) => {
            if missing_refs(c, cu.topics).len() == 0 {
                Seq::empty()
            } else {
                seq![(c[i].0, missing_refs(c, cu.topics))]
            }
        },
        _ => Seq::empty(),
    }
}

/// The report rows of the first `n` entries, in entry order.
pub open spec fn missing_up_to(c: Seq<(Seq<char>, Manifest)>, n: int) -> Seq<
    (Seq<char>, Seq<Seq<char>>),
>
    decreases n,
{
    if n <= 0 {
        Seq::empty()
    } else {
        missing_up_to(c, n - 1) + entry_report(c, n - 1)
    }
}

/// Every missing reference of the collection's cumulative entries, one
/// row per cumulative entry with missing references, in entry order —
/// which is key order, since the entries are key-sorted.
pub open spec fn spec_find_missing(c: Seq<(Seq<char>, Manifest)>) -> Seq<
    (Seq<char>, Seq<Seq<char>>),
> {
    missing_up_to(c, c.len() as int)
}

/// The view of a missing-topics report.
pub open spec fn report_view(s: Seq<(String, Vec<String>)>) -> Seq<(Seq<char>, Seq<Seq<char>>)> {
    s.map_values(|p: (String, Vec<String>)| (p.0@, strs_view(p.1@)))
}

/// Whether `r` is the encoding of the collection `c`: a table mapping
/// each topic name to its tagged manifest, in stored (key-sorted) order,
/// with no envelope around the mapping.
pub open spec fn enc_collection_matches(c: Seq<(Seq<char>, Manifest)>, r: Raw) -> bool {
    match r {
        Raw::Table(es) => {
            &&& es@.len() == c.len()
            &&& forall|i: int|
                0 <= i < c.len() ==> (#[trigger] es@[i]).0@ == c[i].0 && enc_manifest_matches(
                    c[i].1@,
                    es@[i].1,
                )
        },
        _ => false,
    }
}

/// Collection of multiple topic manifests, keyed by topic name.
#[derive(Clone, Debug, PartialEq)]
pub struct ManifestCollection {
    topics: Vec<(String, Manifest)>,
}

impl View for ManifestCollection {
    type V = Seq<(Seq<char>, Manifest)>;

    closed spec fn view(&self) -> Seq<(Seq<char>, Manifest)> {
        entries_view(self.topics@)
    }
}

/// Inserts one name/manifest entry, keeping the entries sorted by name;
/// an entry with the same name takes the new manifest.
fn insert_topic(v: Vec<(String, Manifest)>, key: String, val: Manifest) -> (r: Vec<
    (String, Manifest),
>)
    requires
        map_sorted(entries_view(v@), false),
    ensures
        entries_view(r@) == map_insert(entries_view(v@), key@, val, false),
{
    let ghost s = entries_view(v@);
    let mut v = v;
    let ghost s0 = v@;
    let mut i: usize = 0;
    loop
        invariant
            i <= v.len(),
            v@ == s0,
            s == entries_view(s0),
            forall|j: int| 0 <= j < i ==> lex_lt(key_of(#[trigger] s[j].0, false), key_of(key@, false)),
        ensures
            i <= v.len(),
            v@ == s0,
            forall|j: int| 0 <= j < i ==> lex_lt(key_of(#[trigger] s[j].0, false), key_of(key@, false)),
            i < v@.len() ==> !lex_lt(key_of(s[i as int].0, false), key_of(key@, false)),
        decreases v@.len() - i,
    {
        if i >= v.len() {
            break;
        }
        if !chars_lt(v[i].0.as_str(), key.as_str(), false) {
            proof {
                assert(s[i as int] == (v@[i as int].0@, v@[i as int].1));
            }
            break;
        }
        proof {
            assert(s[i as int] == (v@[i as int].0@, v@[i as int].1));
        }
        i = i + 1;
    }
    proof {
        lemma_map_insert_position(s, key@, val, false, i as int);
    }
    if i < v.len() && chars_eq(v[i].0.as_str(), key.as_str(), false) {
        proof {
            assert(s[i as int] == (s0[i as int].0@, s0[i as int].1));
        }
        let e = v.remove(i);
        v.insert(i, (e.0, val));
        proof {
            assert(v@ =~= s0.update(i as int, (s0[i as int].0, val)));
            assert(entries_view(v@) =~= s.update(i as int, (s[i as int].0, val)));
        }
    } else {
        v.insert(i, (key, val));
        proof {
            assert(entries_view(v@) =~= s.insert(i as int, (key@, val)));
        }
    }
    v
}

impl ManifestCollection {
    /// Builds a collection from name/manifest pairs, folded in order: a
    /// later pair overrides an earlier one with the same name.
    pub fn from_entries(entries: Vec<(String, Manifest)>) -> (r: ManifestCollection)
        ensures
            r@ == coll_fold(entries_view(entries@)),
            map_sorted(r@, false),
    {
        let ghost ge = entries_view(entries@);
        let mut rest = entries;
        let mut topics: Vec<(String, Manifest)> = Vec::new();
        let ghost mut j: int = 0;
        proof {
            assert(entries_view(rest@) =~= ge.skip(0));
            assert(entries_view(topics@) =~= coll_fold(ge.take(0)));
        }
        while rest.len() > 0
            invariant
                0 <= j <= ge.len(),
                entries_view(rest@) == ge.skip(j),
                entries_view(topics@) == coll_fold(ge.take(j)),
                map_sorted(entries_view(topics@), false),
            decreases rest@.len(),
        {
            let ghost prev = rest@;
            let ghost pre = entries_view(topics@);
            proof {
                assert(entries_view(prev).len() == prev.len());
                assert(j < ge.len());
                assert(ge.skip(j)[0] == ge[j]);
                assert(entries_view(prev)[0] == (prev[0].0@, prev[0].1));
                lemma_map_insert_sorted(pre, ge[j].0, ge[j].1, false);
            }
            let e = rest.remove(0);
            topics = insert_topic(topics, e.0, e.1);
            proof {
                assert(e.0@ == ge[j].0 && e.1 == ge[j].1);
                assert(rest@ =~= prev.drop_first());
                assert(entries_view(rest@).len() == rest@.len());
                assert forall|m: int| 0 <= m < entries_view(rest@).len() implies entries_view(
                    rest@,
                )[m] == ge.skip(j + 1)[m] by {
                    assert(rest@[m] == prev[m + 1]);
                    assert(entries_view(rest@)[m] == (rest@[m].0@, rest@[m].1));
                    assert(entries_view(prev)[m + 1] == (prev[m + 1].0@, prev[m + 1].1));
                    assert(ge.skip(j)[m + 1] == ge[j + 1 + m]);
                    assert(ge.skip(j + 1)[m] == ge[j + 1 + m]);
                }
                assert(entries_view(rest@) =~= ge.skip(j + 1));
                assert(ge.take(j + 1).drop_last() =~= ge.take(j));
                assert(ge.take(j + 1).last() == ge[j]);
                j = j + 1;
            }
        }
        proof {
            assert(ge.skip(j).len() == 0);
            assert(ge.take(j) =~= ge);
        }
        ManifestCollection { topics }
    }

    /// Get length of the collection.
    pub fn len(&self) -> (r: usize)
        ensures
            r == self@.len(),
    {
        proof {
            assert(self@.len() == self.topics@.len());
        }
        self.topics.len()
    }

    /// Is the manifest collection empty.
    pub fn is_empty(&self) -> (r: bool)
        ensures
            r == (self@.len() == 0),
    {
        proof {
            assert(self@.len() == self.topics@.len());
        }
        self.topics.is_empty()
    }

    /// Whether some entry is stored under `name`.
    fn contains_key(&self, name: &String) -> (r: bool)
        ensures
            r == coll_has_key(self@, name@),
    {
        let ghost cv = self@;
        let mut i: usize = 0;
        while i < self.topics.len()
            invariant
                i <= self.topics.len(),
                cv == self@,
                forall|m: int| 0 <= m < i ==> (#[trigger] cv[m]).0 != name@,
            decreases self.topics.len() - i,
        {
            proof {
                assert(cv[i as int] == (self.topics@[i as int].0@, self.topics@[i as int].1));
            }
            if chars_eq(self.topics[i].0.as_str(), name.as_str(), false) {
                return true;
            }
            i = i + 1;
        }
        false
    }

    /// Get a list of missing topics in the manifest collection: for every
    /// cumulative entry, in key order, the referenced topic names that
    /// are not keys of the collection; entries with nothing missing are
    /// omitted. Pure: the check reports and never repairs.
    pub fn find_missing_topics(&self) -> (r: Vec<(String, Vec<String>)>)
        ensures
            report_view(r@) == spec_find_missing(self@),
    {
        let ghost cv = self@;
        let mut out: Vec<(String, Vec<String>)> = Vec::new();
        let mut i: usize = 0;
        proof {
            assert(report_view(out@) =~= Seq::<(Seq<char>, Seq<Seq<char>>)>::empty());
        }
        while i < self.topics.len()
            invariant
                i <= self.topics.len(),
                cv == self@,
                report_view(out@) == missing_up_to(cv, i as int),
            decreases self.topics.len() - i,
        {
            let ghost pre_out = report_view(out@);
            proof {
                assert(cv[i as int] == (self.topics@[i as int].0@, self.topics@[i as int].1));
            }
            let entry = &self.topics[i];
            match &entry.1 {
                Manifest::Conventional(_) => {
                    proof {
                        assert(entry_report(cv, i as int) =~= Seq::<
                            (Seq<char>, Seq<Seq<char>>),
                        >::empty());
                        assert(report_view(out@) =~= missing_up_to(cv, i + 1));
                    }
                },
                Manifest::Cumulative(c) => {
                    let ts = c.get_topics();
                    let ghost tv = strs_view(ts@);
                    let mut missing: Vec<String> = Vec::new();
                    let mut j: usize = 0;
                    proof {
                        assert(strs_view(missing@) =~= Seq::<Seq<char>>::empty());
                        assert(tv.take(0) =~= Seq::<Seq<char>>::empty());
                    }
                    while j < ts.len()
                        invariant
                            j <= ts@.len(),
                            cv == self@,
                            tv == strs_view(ts@),
                            strs_view(missing@) == missing_refs(cv, tv.take(j as int)),
                        decreases ts@.len() - j,
                    {
                        proof {
                            assert(tv.take(j + 1).drop_last() =~= tv.take(j as int));
                            assert(tv.take(j + 1).last() == tv[j as int]);
                            assert(tv[j as int] == ts@[j as int]@);
                        }
                        let ghost pre_missing = strs_view(missing@);
                        if !self.contains_key(&ts[j]) {
                            missing.push(ts[j].clone());
                            proof {
                                assert(strs_view(missing@) =~= pre_missing + seq![tv[j as int]]);
                            }
                        } else {
                            proof {
                                assert(strs_view(missing@) =~= pre_missing + Seq::<
                                    Seq<char>,
                                >::empty());
                            }
                        }
                        j = j + 1;
                    }
                    proof {
                        assert(tv.take(j as int) =~= tv);
                    }
                    if missing.len() > 0 {
                        let row_name = entry.0.clone();
                        out.push((row_name, missing));
                        proof {
                            assert(strs_view(Seq::<String>::empty()).len() == 0);
                            assert(entry_report(cv, i as int) == seq![
                                (cv[i as int].0, missing_refs(cv, tv)),
                            ]);
                            assert(report_view(out@) =~= pre_out + entry_report(cv, i as int));
                            assert(report_view(out@) =~= missing_up_to(cv, i + 1));
                        }
                    } else {
                        proof {
                            assert(missing_refs(cv, tv).len() == strs_view(missing@).len());
                            assert(entry_report(cv, i as int) =~= Seq::<
                                (Seq<char>, Seq<Seq<char>>),
                            >::empty());
                            assert(report_view(out@) =~= missing_up_to(cv, i + 1));
                        }
                    }
                },
            }
            i = i + 1;
        }
        proof {
            assert(self@.len() == self.topics@.len());
        }
        out
    }

    /// Is this topic manifest collection consistent: true iff no
    /// cumulative entry references a name that is not a key of the
    /// collection.
    pub fn is_consistent(&self) -> (r: bool)
        ensures
            r == (spec_find_missing(self@).len() == 0),
    {
        let report = self.find_missing_topics();
        proof {
            assert(report_view(report@).len() == report@.len());
        }
        report.is_empty()
    }

    /// Encodes the collection as a table mapping each topic name to its
    /// tagged manifest, in stored (key-sorted) order.
    pub fn encode(&self) -> (r: Raw)
        ensures
            enc_collection_matches(self@, r),
    {
        let ghost cv = self@;
        let mut es: Vec<(String, Raw)> = Vec::new();
        let mut i: usize = 0;
        while i < self.topics.len()
            invariant
                i <= self.topics.len(),
                cv == self@,
                es@.len() == i,
                forall|m: int|
                    0 <= m < i ==> (#[trigger] es@[m]).0@ == cv[m].0 && enc_manifest_matches(
                        cv[m].1@,
                        es@[m].1,
                    ),
            decreases self.topics.len() - i,
        {
            proof {
                assert(cv[i as int] == (self.topics@[i as int].0@, self.topics@[i as int].1));
            }
            es.push((self.topics[i].0.clone(), self.topics[i].1.encode()));
            i = i + 1;
        }
        proof {
            assert(self@.len() == self.topics@.len());
        }
        Raw::Table(es)
    }
}

} // verus!
