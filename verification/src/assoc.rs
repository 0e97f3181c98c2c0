//! Key-sorted association sequences.
//!
//! Every mapping in this crate (package versions, localized text, the
//! manifest collection) is held as a sequence of key/value entries kept
//! strictly ascending in the sort key of the entry. The sort key is either
//! the key itself or its canonical locale form, per [`key_of`].

use vstd::prelude::*;

use crate::order::key_of;
use crate::order::lemma_lex_lt_connected;
use crate::order::lemma_lex_lt_irrefl;
use crate::order::lemma_lex_lt_trans;
use crate::order::lex_lt;

verus! {

/// The entries ascend strictly in the sort key of their key component, so
/// keys are unique up to their sort key.
pub open spec fn map_sorted<W>(s: Seq<(Seq<char>, W)>, norm: bool) -> bool {
    forall|i: int, j: int|
        0 <= i < j < s.len() ==> lex_lt(
            key_of(#[trigger] s[i].0, norm),
            key_of(#[trigger] s[j].0, norm),
        )
}

/// The value stored under the sort key of `k`, if any.
pub open spec fn map_get<W>(s: Seq<(Seq<char>, W)>, k: Seq<char>, norm: bool) -> Option<W>
    decreases s.len(),
{
    if s.len() == 0 {
        Option::None
    } else if key_of(s[0].0, norm) == key_of(k, norm) {
        Option::Some(s[0].1)
    } else {
        map_get(s.drop_first(), k, norm)
    }
}

/// Insertion that keeps the entries sorted. When the sort key is already
/// present the stored key stays and only the value is replaced, as when
/// re-inserting into an ordered mapping.
pub open spec fn map_insert<W>(
    s: Seq<(Seq<char>, W)>,
    k: Seq<char>,
    v: W,
    norm: bool,
) -> Seq<(Seq<char>, W)>
    decreases s.len(),
{
    if s.len() == 0 {
        seq![(k, v)]
    } else if lex_lt(key_of(k, norm), key_of(s[0].0, norm)) {
        seq![(k, v)] + s
    } else if key_of(k, norm) == key_of(s[0].0, norm) {
        seq![(s[0].0, v)] + s.drop_first()
    } else {
        seq![s[0]] + map_insert(s.drop_first(), k, v, norm)
    }
}

/// Every key of an insertion's result is the inserted key or one of the
/// original keys.
pub proof fn lemma_map_insert_keys<W>(s: Seq<(Seq<char>, W)>, k: Seq<char>, v: W, norm: bool)
    ensures
        forall|m: int|
            0 <= m < map_insert(s, k, v, norm).len() ==> (#[trigger] map_insert(s, k, v, norm)[m].0
                == k || exists|j: int| 0 <= j < s.len() && map_insert(s, k, v, norm)[m].0 == s[j].0),
    decreases s.len(),
{
    if s.len() == 0 {
    } else if lex_lt(key_of(k, norm), key_of(s[0].0, norm)) {
    } else if key_of(k, norm) == key_of(s[0].0, norm) {
        assert forall|m: int| 0 <= m < map_insert(s, k, v, norm).len() implies (map_insert(
            s,
            k,
            v,
            norm,
        )[m].0 == k || exists|j: int|
            0 <= j < s.len() && map_insert(s, k, v, norm)[m].0 == s[j].0) by {
            assert(map_insert(s, k, v, norm)[m].0 == s[m].0);
        }
    } else {
        lemma_map_insert_keys(s.drop_first(), k, v, norm);
        let r = map_insert(s, k, v, norm);
        let rr = map_insert(s.drop_first(), k, v, norm);
        assert forall|m: int| 0 <= m < r.len() implies (r[m].0 == k || exists|j: int|
            0 <= j < s.len() && r[m].0 == s[j].0) by {
            if m >= 1 {
                assert(r[m].0 == rr[m - 1].0);
                if rr[m - 1].0 != k {
                    let j = choose|j: int|
                        0 <= j < s.drop_first().len() && rr[m - 1].0 == s.drop_first()[j].0;
                    assert(r[m].0 == s[j + 1].0);
                }
            }
        }
    }
}

/// Insertion preserves the sort.
pub proof fn lemma_map_insert_sorted<W>(s: Seq<(Seq<char>, W)>, k: Seq<char>, v: W, norm: bool)
    requires
        map_sorted(s, norm),
    ensures
        map_sorted(map_insert(s, k, v, norm), norm),
    decreases s.len(),
{
    let r = map_insert(s, k, v, norm);
    if s.len() == 0 {
    } else if lex_lt(key_of(k, norm), key_of(s[0].0, norm)) {
        assert forall|i: int, j: int| 0 <= i < j < r.len() implies lex_lt(
            key_of(r[i].0, norm),
            key_of(r[j].0, norm),
        ) by {
            if i == 0 {
                if j > 1 {
                    lemma_lex_lt_trans(
                        key_of(k, norm),
                        key_of(s[0].0, norm),
                        key_of(s[j - 1].0, norm),
                    );
                }
            }
        }
    } else if key_of(k, norm) == key_of(s[0].0, norm) {
        assert forall|i: int, j: int| 0 <= i < j < r.len() implies lex_lt(
            key_of(r[i].0, norm),
            key_of(r[j].0, norm),
        ) by {
            assert(r[i].0 == s[i].0);
            assert(r[j].0 == s[j].0);
        }
    } else {
        if !lex_lt(key_of(s[0].0, norm), key_of(k, norm)) {
            lemma_lex_lt_connected(key_of(s[0].0, norm), key_of(k, norm));
            assert(false);
        }
        lemma_map_insert_sorted(s.drop_first(), k, v, norm);
        lemma_map_insert_keys(s.drop_first(), k, v, norm);
        let rr = map_insert(s.drop_first(), k, v, norm);
        assert forall|i: int, j: int| 0 <= i < j < r.len() implies lex_lt(
            key_of(r[i].0, norm),
            key_of(r[j].0, norm),
        ) by {
            if i == 0 {
                assert(r[j].0 == rr[j - 1].0);
                if rr[j - 1].0 == k {
                } else {
                    let m = choose|m: int|
                        0 <= m < s.drop_first().len() && rr[j - 1].0 == s.drop_first()[m].0;
                    assert(rr[j - 1].0 == s[m + 1].0);
                }
            } else {
                assert(r[i].0 == rr[i - 1].0);
                assert(r[j].0 == rr[j - 1].0);
            }
        }
    }
}

/// Inserting a key greater than every present key appends the entry.
pub proof fn lemma_map_insert_all_less<W>(s: Seq<(Seq<char>, W)>, k: Seq<char>, v: W, norm: bool)
    requires
        forall|j: int| 0 <= j < s.len() ==> lex_lt(key_of(#[trigger] s[j].0, norm), key_of(k, norm)),
    ensures
        map_insert(s, k, v, norm) == s.push((k, v)),
    decreases s.len(),
{
    if s.len() == 0 {
        assert(map_insert(s, k, v, norm) =~= s.push((k, v)));
    } else {
        lemma_lex_lt_irrefl(key_of(k, norm));
        if lex_lt(key_of(k, norm), key_of(s[0].0, norm)) {
            lemma_lex_lt_trans(key_of(k, norm), key_of(s[0].0, norm), key_of(k, norm));
            assert(false);
        }
        lemma_map_insert_all_less(s.drop_first(), k, v, norm);
        assert(map_insert(s, k, v, norm) =~= s.push((k, v)));
    }
}

/// The closed form of an insertion into a sorted sequence: with `i` the
/// first position whose key is not below `k`, insertion either updates the
/// value at `i` or splices the new entry in at `i`.
pub proof fn lemma_map_insert_position<W>(
    s: Seq<(Seq<char>, W)>,
    k: Seq<char>,
    v: W,
    norm: bool,
    i: int,
)
    requires
        map_sorted(s, norm),
        0 <= i <= s.len(),
        forall|j: int| 0 <= j < i ==> lex_lt(key_of(#[trigger] s[j].0, norm), key_of(k, norm)),
        i < s.len() ==> !lex_lt(key_of(s[i].0, norm), key_of(k, norm)),
    ensures
        i < s.len() && key_of(s[i].0, norm) == key_of(k, norm) ==> map_insert(s, k, v, norm)
            == s.update(i, (s[i].0, v)),
        !(i < s.len() && key_of(s[i].0, norm) == key_of(k, norm)) ==> map_insert(s, k, v, norm)
            == s.insert(i, (k, v)),
    decreases s.len(),
{
    if s.len() == 0 {
        assert(map_insert(s, k, v, norm) =~= s.insert(0, (k, v)));
    } else if i == 0 {
        if key_of(s[0].0, norm) == key_of(k, norm) {
            assert(map_insert(s, k, v, norm) =~= s.update(0, (s[0].0, v)));
        } else {
            if !lex_lt(key_of(k, norm), key_of(s[0].0, norm)) {
                lemma_lex_lt_connected(key_of(k, norm), key_of(s[0].0, norm));
                assert(false);
            }
            assert(map_insert(s, k, v, norm) =~= s.insert(0, (k, v)));
        }
    } else {
        lemma_lex_lt_irrefl(key_of(s[0].0, norm));
        if lex_lt(key_of(k, norm), key_of(s[0].0, norm)) {
            lemma_lex_lt_trans(key_of(s[0].0, norm), key_of(k, norm), key_of(s[0].0, norm));
            assert(false);
        }
        let d = s.drop_first();
        assert forall|i2: int, j2: int| 0 <= i2 < j2 < d.len() implies lex_lt(
            key_of(d[i2].0, norm),
            key_of(d[j2].0, norm),
        ) by {
            assert(d[i2] == s[i2 + 1]);
            assert(d[j2] == s[j2 + 1]);
        }
        assert forall|j: int| 0 <= j < i - 1 implies lex_lt(
            key_of(#[trigger] d[j].0, norm),
            key_of(k, norm),
        ) by {
            assert(d[j] == s[j + 1]);
        }
        if i - 1 < d.len() {
            assert(d[i - 1] == s[i]);
        }
        lemma_map_insert_position(d, k, v, norm, i - 1);
        assert(map_insert(s, k, v, norm) == seq![s[0]] + map_insert(d, k, v, norm));
        if i < s.len() && key_of(s[i].0, norm) == key_of(k, norm) {
            assert(map_insert(d, k, v, norm) == d.update(i - 1, (d[i - 1].0, v)));
            assert(map_insert(s, k, v, norm) =~= s.update(i, (s[i].0, v)));
        } else {
            assert(map_insert(d, k, v, norm) == d.insert(i - 1, (k, v)));
            assert(map_insert(s, k, v, norm) =~= s.insert(i, (k, v)));
        }
    }
}

} // verus!
