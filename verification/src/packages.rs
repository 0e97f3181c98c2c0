//! Package version sets and their tri-state wire decoding.

use vstd::prelude::*;

use crate::assoc::lemma_map_insert_position;
use crate::assoc::lemma_map_insert_sorted;
use crate::assoc::map_get;
use crate::assoc::map_insert;
use crate::assoc::map_sorted;
use crate::error::ManifestError;
use crate::order::chars_eq;
use crate::order::chars_lt;
use crate::order::key_of;
use crate::order::lex_lt;
use crate::raw::opt_chars;
use crate::raw::raw_is_str;
use crate::raw::Raw;

verus! {

/// The mathematical content of a package version set: name/version
/// entries, sorted and unique by name; a `None` version records that the
/// package is removed as part of the topic.
pub type PackagesView = Seq<(Seq<char>, Option<Seq<char>>)>;

/// The view of held name/version entries.
pub open spec fn versions_view(s: Seq<(String, Option<String>)>) -> PackagesView {
    s.map_values(|p: (String, Option<String>)| (p.0@, opt_chars(p.1)))
}

/// The version set a sequence of name/version pairs folds into, later
/// pairs overriding earlier ones with the same name.
pub open spec fn pkg_fold(entries: PackagesView) -> PackagesView
    decreases entries.len(),
{
    if entries.len() == 0 {
        Seq::empty()
    } else {
        map_insert(pkg_fold(entries.drop_last()), entries.last().0, entries.last().1, false)
    }
}

/// Tri-state decoding of one package's wire value: a string is the target
/// version; `false` is an explicit removal; an absent-value marker also
/// means no version; `true` has no defined meaning and is rejected as an
/// invalid package version; anything else is a structural mismatch.
pub open spec fn dec_pkg_version(v: Raw) -> Result<Option<Seq<char>>, ManifestError> {
    match v {
        Raw::Str(s) => Result::Ok(Option::Some(s@)),
        Raw::Bool(b) => if b {
            Result::Err(ManifestError::InvalidPackageVersion)
        } else {
            Result::Ok(Option::None)
        },
        Raw::Null => Result::Ok(Option::None),
        _ => Result::Err(ManifestError::InvalidStructure),
    }
}

/// Decoding of a table's entries into a version set, processed in entry
/// order; the first entry that fails decides the error.
pub open spec fn dec_pkg_entries(es: Seq<(String, Raw)>) -> Result<PackagesView, ManifestError>
    decreases es.len(),
{
    if es.len() == 0 {
        Result::Ok(Seq::empty())
    } else {
        match dec_pkg_entries(es.drop_last()) {
            Result::Err(e) => Result::Err(e),
            Result::Ok(acc) => match dec_pkg_version(es.last().1) {
                Result::Err(e) => Result::Err(e),
                Result::Ok(v) => Result::Ok(map_insert(acc, es.last().0@, v, false)),
            },
        }
    }
}

/// Decoding of a package version set: the value must be a table.
pub open spec fn dec_packages(r: Raw) -> Result<PackagesView, ManifestError> {
    match r {
        Raw::Table(es) => dec_pkg_entries(es@),
        _ => Result::Err(ManifestError::InvalidStructure),
    }
}

/// Whether `r` encodes one package's version: the version string, or an
/// explicit absent-value marker for a removal — never a boolean.
pub open spec fn pkg_val_matches(v: Option<Seq<char>>, r: Raw) -> bool {
    match v {
        Option::Some(t) => raw_is_str(r, t),
        Option::None => r is Null,
    }
}

/// Whether `r` is the encoding of the version set `p`: a table with one
/// entry per package, in stored (name-sorted) order.
pub open spec fn enc_packages_matches(p: PackagesView, r: Raw) -> bool {
    match r {
        Raw::Table(es) => {
            &&& es@.len() == p.len()
            &&& forall|i: int|
                0 <= i < p.len() ==> (#[trigger] es@[i]).0@ == p[i].0 && pkg_val_matches(
                    p[i].1,
                    es@[i].1,
                )
        },
        _ => false,
    }
}

/// A set of package changes: names mapped to an optional target version,
/// kept sorted by name. A missing version means the package is removed as
/// part of the topic.
#[derive(Clone, Debug, PartialEq)]
pub struct Packages {
    inner: Vec<(String, Option<String>)>,
}

impl View for Packages {
    type V = PackagesView;

    closed spec fn view(&self) -> PackagesView {
        versions_view(self.inner@)
    }
}

/// Inserts one name/version entry, keeping the entries sorted by name; an
/// entry with the same name takes the new version.
fn insert_version(v: Vec<(String, Option<String>)>, key: String, val: Option<String>) -> (r: Vec<
    (String, Option<String>),
>)
    requires
        map_sorted(versions_view(v@), false),
    ensures
        versions_view(r@) == map_insert(versions_view(v@), key@, opt_chars(val), false),
{
    let ghost s = versions_view(v@);
    let mut v = v;
    let ghost s0 = v@;
    let mut i: usize = 0;
    loop
        invariant
            i <= v.len(),
            v@ == s0,
            s == versions_view(s0),
            forall|j: int| 0 <= j < i ==> lex_lt(key_of(#[trigger] s[j].0, false), key_of(key@, false)),
        ensures
            i <= v.len(),
            v@ == s0,
            forall|j: int| 0 <= j < i ==> lex_lt(key_of(#[trigger] s[j].0, false), key_of(key@, false)),
            i < v@.len() ==> !lex_lt(key_of(s[i as int].0, false), key_of(key@, false)),
        decreases v@.len() - i,
    {
        if i >= v.len() {
            break;
        }
        if !chars_lt(v[i].0.as_str(), key.as_str(), false) {
            proof {
                assert(s[i as int] == (v@[i as int].0@, opt_chars(v@[i as int].1)));
            }
            break;
        }
        proof {
            assert(s[i as int] == (v@[i as int].0@, opt_chars(v@[i as int].1)));
        }
        i = i + 1;
    }
    proof {
        lemma_map_insert_position(s, key@, opt_chars(val), false, i as int);
    }
    if i < v.len() && chars_eq(v[i].0.as_str(), key.as_str(), false) {
        proof {
            assert(s[i as int] == (s0[i as int].0@, opt_chars(s0[i as int].1)));
        }
        let e = v.remove(i);
        v.insert(i, (e.0, val));
        proof {
            assert(v@ =~= s0.update(i as int, (s0[i as int].0, val)));
            assert(versions_view(v@) =~= s.update(i as int, (s[i as int].0, opt_chars(val))));
        }
    } else {
        v.insert(i, (key, val));
        proof {
            assert(versions_view(v@) =~= s.insert(i as int, (key@, opt_chars(val))));
        }
    }
    v
}

/// A failed prefix fails the whole entry list, with the same error.
proof fn lemma_dec_pkg_entries_prefix_err(es: Seq<(String, Raw)>, n: int, e: ManifestError)
    requires
        0 <= n <= es.len(),
        dec_pkg_entries(es.take(n)) == Result::<PackagesView, ManifestError>::Err(e),
    ensures
        dec_pkg_entries(es) == Result::<PackagesView, ManifestError>::Err(e),
    decreases es.len() - n,
{
    if n < es.len() {
        assert(es.take(n + 1).drop_last() =~= es.take(n));
        lemma_dec_pkg_entries_prefix_err(es, n + 1, e);
    } else {
        assert(es.take(n) =~= es);
    }
}

impl Packages {
    /// Builds a version set from name/version pairs, folded in order: a
    /// later pair overrides an earlier one with the same name.
    pub fn new(entries: Vec<(String, Option<String>)>) -> (r: Packages)
        ensures
            r@ == pkg_fold(versions_view(entries@)),
            map_sorted(r@, false),
    {
        let ghost ge = versions_view(entries@);
        let mut rest = entries;
        let mut inner: Vec<(String, Option<String>)> = Vec::new();
        let ghost mut j: int = 0;
        proof {
            assert(versions_view(rest@) =~= ge.skip(0));
            assert(versions_view(inner@) =~= pkg_fold(ge.take(0)));
        }
        while rest.len() > 0
            invariant
                0 <= j <= ge.len(),
                versions_view(rest@) == ge.skip(j),
                versions_view(inner@) == pkg_fold(ge.take(j)),
                map_sorted(versions_view(inner@), false),
            decreases rest@.len(),
        {
            let ghost prev = rest@;
            let ghost pre = versions_view(inner@);
            proof {
                assert(versions_view(prev).len() == prev.len());
                assert(j < ge.len());
                assert(ge.skip(j)[0] == ge[j]);
                assert(versions_view(prev)[0] == (prev[0].0@, opt_chars(prev[0].1)));
                lemma_map_insert_sorted(pre, ge[j].0, ge[j].1, false);
            }
            let e = rest.remove(0);
            inner = insert_version(inner, e.0, e.1);
            proof {
                assert(e.0@ == ge[j].0 && opt_chars(e.1) == ge[j].1);
                assert(rest@ =~= prev.drop_first());
                assert(versions_view(rest@).len() == rest@.len());
                assert forall|m: int| 0 <= m < versions_view(rest@).len() implies versions_view(
                    rest@,
                )[m] == ge.skip(j + 1)[m] by {
                    assert(rest@[m] == prev[m + 1]);
                    assert(versions_view(rest@)[m] == (rest@[m].0@, opt_chars(rest@[m].1)));
                    assert(versions_view(prev)[m + 1] == (prev[m + 1].0@, opt_chars(
                        prev[m + 1].1,
                    )));
                    assert(ge.skip(j)[m + 1] == ge[j + 1 + m]);
                    assert(ge.skip(j + 1)[m] == ge[j + 1 + m]);
                }
                assert(versions_view(rest@) =~= ge.skip(j + 1));
                assert(ge.take(j + 1).drop_last() =~= ge.take(j));
                assert(ge.take(j + 1).last() == ge[j]);
                j = j + 1;
            }
        }
        proof {
            assert(ge.skip(j).len() == 0);
            assert(ge.take(j) =~= ge);
        }
        Packages { inner }
    }

    /// The name/version entries, sorted by name.
    pub fn as_ref(&self) -> (r: &Vec<(String, Option<String>)>)
        ensures
            versions_view(r@) == self@,
    {
        &self.inner
    }

    /// The number of package entries.
    pub fn len(&self) -> (r: usize)
        ensures
            r == self@.len(),
    {
        proof {
            assert(self@.len() == self.inner@.len());
        }
        self.inner.len()
    }

    /// The entry for a package name, if one is present.
    pub fn get(&self, name: &str) -> (r: Option<&Option<String>>)
        ensures
            match map_get(self@, name@, false) {
                Option::Some(t) => r is Some && opt_chars(*r->Some_0) == t,
                Option::None => r is None,
            },
    {
        let ghost s = self@;
        proof {
            assert(s.skip(0) =~= s);
        }
        let mut i: usize = 0;
        while i < self.inner.len()
            invariant
                i <= self.inner.len(),
                s == self@,
                map_get(s, name@, false) == map_get(s.skip(i as int), name@, false),
            decreases self.inner.len() - i,
        {
            proof {
                assert(s.skip(i as int)[0] == s[i as int]);
                assert(s[i as int] == (self.inner@[i as int].0@, opt_chars(self.inner@[i as int].1)));
            }
            if chars_eq(self.inner[i].0.as_str(), name, false) {
                return Option::Some(&self.inner[i].1);
            }
            proof {
                assert(s.skip(i as int).drop_first() =~= s.skip(i + 1));
            }
            i = i + 1;
        }
        proof {
            assert(s.skip(i as int).len() == 0);
        }
        Option::None
    }

    /// Decodes a version set from a structured value, which must be a
    /// table whose values follow the tri-state policy of
    /// [`dec_pkg_version`].
    pub fn decode(raw: &Raw) -> (r: Result<Packages, ManifestError>)
        ensures
            match r {
                Result::Ok(p) => dec_packages(*raw) == Result::<PackagesView, ManifestError>::Ok(
                    p@,
                ) && map_sorted(p@, false),
                Result::Err(e) => dec_packages(*raw) == Result::<
                    PackagesView,
                    ManifestError,
                >::Err(e),
            },
    {
        match raw {
            Raw::Table(es) => {
                proof {
                    assert(dec_packages(*raw) == dec_pkg_entries(es@));
                }
                let mut inner: Vec<(String, Option<String>)> = Vec::new();
                let mut j: usize = 0;
                proof {
                    assert(es@.take(0) =~= Seq::<(String, Raw)>::empty());
                    assert(versions_view(inner@) =~= Seq::<
                        (Seq<char>, Option<Seq<char>>),
                    >::empty());
                }
                while j < es.len()
                    invariant
                        j <= es@.len(),
                        dec_packages(*raw) == dec_pkg_entries(es@),
                        dec_pkg_entries(es@.take(j as int)) == Result::<
                            PackagesView,
                            ManifestError,
                        >::Ok(versions_view(inner@)),
                        map_sorted(versions_view(inner@), false),
                    decreases es@.len() - j,
                {
                    proof {
                        assert(es@.take(j + 1).drop_last() =~= es@.take(j as int));
                        assert(es@.take(j + 1).last() == es@[j as int]);
                    }
                    let ghost pre = versions_view(inner@);
                    let entry = &es[j];
                    proof {
                        assert(*entry == es@[j as int]);
                    }
                    match &entry.1 {
                        Raw::Str(s) => {
                            proof {
                                lemma_map_insert_sorted(pre, es@[j as int].0@, opt_chars(Option::Some(*s)), false);
                            }
                            inner = insert_version(inner, entry.0.clone(), Option::Some(s.clone()));
                        },
                        Raw::Bool(b) => {
                            if *b {
                                proof {
                                    lemma_dec_pkg_entries_prefix_err(
                                        es@,
                                        j + 1,
                                        ManifestError::InvalidPackageVersion,
                                    );
                                }
                                return Result::Err(ManifestError::InvalidPackageVersion);
                            } else {
                                proof {
                                    lemma_map_insert_sorted(pre, es@[j as int].0@, opt_chars(Option::None), false);
                                }
                                inner = insert_version(inner, entry.0.clone(), Option::None);
                            }
                        },
                        Raw::Null => {
                            proof {
                                lemma_map_insert_sorted(pre, es@[j as int].0@, opt_chars(Option::None), false);
                            }
                            inner = insert_version(inner, entry.0.clone(), Option::None);
                        },
                        _ => {
                            proof {
                                lemma_dec_pkg_entries_prefix_err(
                                    es@,
                                    j + 1,
                                    ManifestError::InvalidStructure,
                                );
                            }
                            return Result::Err(ManifestError::InvalidStructure);
                        },
                    }
                    j = j + 1;
                }
                proof {
                    assert(es@.take(j as int) =~= es@);
                }
                Result::Ok(Packages { inner })
            },
            _ => Result::Err(ManifestError::InvalidStructure),
        }
    }

    /// Encodes a version set as a table, one entry per package in stored
    /// (name-sorted) order: the version string, or an absent-value marker
    /// for a removal — a removal is never re-emitted as a boolean.
    pub fn encode(&self) -> (r: Raw)
        ensures
            enc_packages_matches(self@, r),
    {
        let mut es: Vec<(String, Raw)> = Vec::new();
        let mut j: usize = 0;
        while j < self.inner.len()
            invariant
                j <= self.inner.len(),
                es@.len() == j,
                forall|i: int|
                    0 <= i < j ==> (#[trigger] es@[i]).0@ == self@[i].0 && pkg_val_matches(
                        self@[i].1,
                        es@[i].1,
                    ),
            decreases self.inner.len() - j,
        {
            proof {
                assert(self@[j as int] == (self.inner@[j as int].0@, opt_chars(
                    self.inner@[j as int].1,
                )));
            }
            match &self.inner[j].1 {
                Option::Some(s) => {
                    es.push((self.inner[j].0.clone(), Raw::Str(s.clone())));
                },
                Option::None => {
                    es.push((self.inner[j].0.clone(), Raw::Null));
                },
            }
            j = j + 1;
        }
        proof {
            assert(self@.len() == self.inner@.len());
        }
        Raw::Table(es)
    }
}

} // verus!
