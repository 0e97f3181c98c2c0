//! Structured values, the wire shape of manifest data.
//!
//! A manifest arrives as a tree of structured values — the common fragment
//! of the table-based text formats the manifests are written in. Decoders
//! read these trees; encoders produce them. Value kinds the manifest
//! grammar gives no meaning to (numbers, dates, and the like) are carried
//! as [`Raw::Other`] and rejected wherever a decoder meets them.

use vstd::prelude::*;

use crate::order::chars_eq;

verus! {

/// A structured value.
#[derive(Debug)]
pub enum Raw {
    /// An explicit absent-value marker.
    Null,
    /// A boolean.
    Bool(bool),
    /// A text string.
    Str(String),
    /// An ordered sequence of values.
    Arr(Vec<Raw>),
    /// An ordered sequence of key/value entries.
    Table(Vec<(String, Raw)>),
    /// A value of a kind the manifest grammar gives no meaning to.
    Other,
}

/// Whether `r` is a string whose characters are `s`.
pub open spec fn raw_is_str(r: Raw, s: Seq<char>) -> bool {
    match r {
        Raw::Str(x) => x@ == s,
        _ => false,
    }
}

/// Whether `r` is the boolean `b`.
pub open spec fn raw_is_bool(r: Raw, b: bool) -> bool {
    match r {
        Raw::Bool(x) => x == b,
        _ => false,
    }
}

/// The characters of an optional string.
pub open spec fn opt_chars(o: Option<String>) -> Option<Seq<char>> {
    match o {
        Option::Some(s) => Option::Some(s@),
        Option::None => Option::None,
    }
}

/// The value under key `k` in a table's entries; when a key occurs twice,
/// the later entry wins, as when the entries are folded into a mapping.
pub open spec fn table_get(es: Seq<(String, Raw)>, k: Seq<char>) -> Option<Raw>
    decreases es.len(),
{
    if es.len() == 0 {
        Option::None
    } else if es.last().0@ == k {
        Option::Some(es.last().1)
    } else {
        table_get(es.drop_last(), k)
    }
}

/// Looks a key up among a table's entries, later entries winning.
pub fn raw_table_get<'a>(es: &'a Vec<(String, Raw)>, key: &str) -> (r: Option<&'a Raw>)
    ensures
        match r {
            Option::Some(x) => table_get(es@, key@) == Option::Some(*x),
            Option::None => table_get(es@, key@) is None,
        },
{
    proof {
        assert(es@.take(es@.len() as int) =~= es@);
    }
    let mut i: usize = es.len();
    loop
        invariant
            i <= es.len(),
            table_get(es@, key@) == table_get(es@.take(i as int), key@),
        decreases i,
    {
        if i == 0 {
            proof {
                assert(es@.take(0) =~= Seq::<(String, Raw)>::empty());
            }
            return Option::None;
        }
        i = i - 1;
        proof {
            assert(es@.take(i + 1).last() == es@[i as int]);
            assert(es@.take(i + 1).drop_last() =~= es@.take(i as int));
        }
        if chars_eq(es[i].0.as_str(), key, false) {
            return Option::Some(&es[i].1);
        }
    }
}

} // verus!
