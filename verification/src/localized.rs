//! Localized values: a default text plus locale-keyed overrides.

use vstd::prelude::*;

use crate::assoc::lemma_map_insert_keys;
use crate::assoc::lemma_map_insert_position;
use crate::assoc::lemma_map_insert_sorted;
use crate::assoc::map_get;
use crate::assoc::map_insert;
use crate::assoc::map_sorted;
use crate::error::ManifestError;
use crate::locale::Locale;
use crate::order::chars_eq;
use crate::order::chars_lt;
use crate::order::key_of;
use crate::order::lex_lt;
use crate::raw::opt_chars;
use crate::raw::Raw;

verus! {

/// The mathematical content of a localized value: an optional default text
/// and locale-keyed entries. Entry keys are locale tags as written; the
/// entries are sorted, and unique, by the tag's canonical form.
#[verifier::ext_equal]
pub struct LocalizedView {
    /// The fallback text, if any.
    pub default: Option<Seq<char>>,
    /// Tag/text entries, sorted by canonical tag.
    pub content: Seq<(Seq<char>, Seq<char>)>,
}

/// The table key that holds the default text rather than a locale entry.
pub open spec fn default_key() -> Seq<char> {
    "default"@
}

/// Well-formedness: entries sorted and unique by canonical tag, and no
/// entry stored under the default key itself.
pub open spec fn loc_wf(l: LocalizedView) -> bool {
    &&& map_sorted(l.content, true)
    &&& forall|i: int| 0 <= i < l.content.len() ==> (#[trigger] l.content[i]).0 != default_key()
}

/// The view of a sequence of held locale entries.
pub open spec fn content_view(s: Seq<(Locale, String)>) -> Seq<(Seq<char>, Seq<char>)> {
    s.map_values(|p: (Locale, String)| (p.0@, p.1@))
}

/// The localized value a sequence of tag/text pairs folds into, later
/// pairs overriding earlier ones with the same canonical tag.
pub open spec fn loc_fold(entries: Seq<(Seq<char>, Seq<char>)>) -> Seq<(Seq<char>, Seq<char>)>
    decreases entries.len(),
{
    if entries.len() == 0 {
        Seq::empty()
    } else {
        map_insert(
            loc_fold(entries.drop_last()),
            entries.last().0,
            entries.last().1,
            true,
        )
    }
}

/// Structural decoding of a table's entries into a localized value,
/// processed in entry order: the `default` key sets the default text (a
/// string, or an absent-value marker clearing it); every other key is a
/// locale tag whose value must be a string. Any other value shape fails.
pub open spec fn dec_loc_entries(es: Seq<(String, Raw)>) -> Option<LocalizedView>
    decreases es.len(),
{
    if es.len() == 0 {
        Option::Some(LocalizedView { default: Option::None, content: Seq::empty() })
    } else {
        match dec_loc_entries(es.drop_last()) {
            Option::None => Option::None,
            Option::Some(acc) => {
                if es.last().0@ == default_key() {
                    match es.last().1 {
                        Raw::Str(s) => Option::Some(
                            LocalizedView { default: Option::Some(s@), content: acc.content },
                        ),
                        Raw::Null => Option::Some(
                            LocalizedView { default: Option::None, content: acc.content },
                        ),
                        _ => Option::None,
                    }
                } else {
                    match es.last().1 {
                        Raw::Str(s) => Option::Some(
                            LocalizedView {
                                default: acc.default,
                                content: map_insert(acc.content, es.last().0@, s@, true),
                            },
                        ),
                        _ => Option::None,
                    }
                }
            },
        }
    }
}

/// Structural decoding of a localized value: the value must be a table.
pub open spec fn dec_localized(r: Raw) -> Option<LocalizedView> {
    match r {
        Raw::Table(es) => dec_loc_entries(es@),
        _ => Option::None,
    }
}

/// Whether the locale entries of `content` stand in `es` from offset
/// `off` on, each as a string value under its tag as written.
pub open spec fn loc_tail_matches(
    content: Seq<(Seq<char>, Seq<char>)>,
    es: Seq<(String, Raw)>,
    off: int,
) -> bool {
    forall|i: int|
        0 <= i < content.len() ==> (#[trigger] es[off + i]).0@ == content[i].0
            && crate::raw::raw_is_str(es[off + i].1, content[i].1)
}

/// Whether `r` is the encoding of the localized value `l`: a table whose
/// first entry is the default text under the default key (absent when
/// there is no default), followed by the locale entries in stored order.
pub open spec fn enc_localized_matches(l: LocalizedView, r: Raw) -> bool {
    match r {
        Raw::Table(es) => match l.default {
            Option::Some(d) => {
                &&& es@.len() == l.content.len() + 1
                &&& es@[0].0@ == default_key()
                &&& crate::raw::raw_is_str(es@[0].1, d)
                &&& loc_tail_matches(l.content, es@, 1)
            },
            Option::None => {
                &&& es@.len() == l.content.len()
                &&& loc_tail_matches(l.content, es@, 0)
            },
        },
        _ => false,
    }
}

/// A localized value: a default text with locale-specific overrides.
#[derive(Clone, Debug, PartialEq)]
pub struct Localized {
    default: Option<String>,
    content: Vec<(Locale, String)>,
}

impl View for Localized {
    type V = LocalizedView;

    closed spec fn view(&self) -> LocalizedView {
        LocalizedView { default: opt_chars(self.default), content: content_view(self.content@) }
    }
}

/// Inserts one locale entry, keeping the entries sorted by canonical tag;
/// an entry with the same canonical tag keeps its stored tag and takes the
/// new text.
fn insert_content(v: Vec<(Locale, String)>, key: Locale, val: String) -> (r: Vec<
    (Locale, String),
>)
    requires
        map_sorted(content_view(v@), true),
    ensures
        content_view(r@) == map_insert(content_view(v@), key@, val@, true),
{
    let ghost s = content_view(v@);
    let mut v = v;
    let ghost s0 = v@;
    let mut i: usize = 0;
    loop
        invariant
            i <= v.len(),
            v@ == s0,
            s == content_view(s0),
            forall|j: int| 0 <= j < i ==> lex_lt(key_of(#[trigger] s[j].0, true), key_of(key@, true)),
        ensures
            i <= v.len(),
            v@ == s0,
            forall|j: int| 0 <= j < i ==> lex_lt(key_of(#[trigger] s[j].0, true), key_of(key@, true)),
            i < v@.len() ==> !lex_lt(key_of(s[i as int].0, true), key_of(key@, true)),
        decreases v@.len() - i,
    {
        if i >= v.len() {
            break;
        }
        if !chars_lt(v[i].0.as_str(), key.as_str(), true) {
            proof {
                assert(s[i as int] == (v@[i as int].0@, v@[i as int].1@));
            }
            break;
        }
        proof {
            assert(s[i as int] == (v@[i as int].0@, v@[i as int].1@));
        }
        i = i + 1;
    }
    proof {
        lemma_map_insert_position(s, key@, val@, true, i as int);
    }
    if i < v.len() && chars_eq(v[i].0.as_str(), key.as_str(), true) {
        proof {
            assert(s[i as int] == (s0[i as int].0@, s0[i as int].1@));
        }
        let e = v.remove(i);
        v.insert(i, (e.0, val));
        proof {
            assert(v@ =~= s0.update(i as int, (s0[i as int].0, val)));
            assert(content_view(v@) =~= s.update(i as int, (s[i as int].0, val@)));
        }
    } else {
        v.insert(i, (key, val));
        proof {
            assert(content_view(v@) =~= s.insert(i as int, (key@, val@)));
        }
    }
    v
}

/// A failed prefix fails the whole entry list, with the same outcome.
proof fn lemma_dec_loc_entries_prefix_none(es: Seq<(String, Raw)>, n: int)
    requires
        0 <= n <= es.len(),
        dec_loc_entries(es.take(n)) is None,
    ensures
        dec_loc_entries(es) is None,
    decreases es.len() - n,
{
    if n < es.len() {
        assert(es.take(n + 1).drop_last() =~= es.take(n));
        lemma_dec_loc_entries_prefix_none(es, n + 1);
    } else {
        assert(es.take(n) =~= es);
    }
}

impl Localized {
    /// Builds a localized value from a default text and locale entries,
    /// folded in order: a later entry overrides an earlier one with the
    /// same canonical tag.
    pub fn new(default: Option<String>, entries: Vec<(Locale, String)>) -> (r: Localized)
        ensures
            r@.default == opt_chars(default),
            r@.content == loc_fold(content_view(entries@)),
            map_sorted(r@.content, true),
    {
        let ghost ge = content_view(entries@);
        let mut rest = entries;
        let mut content: Vec<(Locale, String)> = Vec::new();
        let ghost mut j: int = 0;
        proof {
            assert(content_view(rest@) =~= ge.skip(0));
            assert(content_view(content@) =~= loc_fold(ge.take(0)));
        }
        while rest.len() > 0
            invariant
                0 <= j <= ge.len(),
                content_view(rest@) == ge.skip(j),
                content_view(content@) == loc_fold(ge.take(j)),
                map_sorted(content_view(content@), true),
            decreases rest@.len(),
        {
            let ghost prev = rest@;
            let ghost pre = content_view(content@);
            proof {
                assert(content_view(prev).len() == prev.len());
                assert(j < ge.len());
                assert(ge.skip(j)[0] == ge[j]);
                assert(content_view(prev)[0] == (prev[0].0@, prev[0].1@));
                lemma_map_insert_sorted(pre, ge[j].0, ge[j].1, true);
            }
            let e = rest.remove(0);
            content = insert_content(content, e.0, e.1);
            proof {
                assert(e.0@ == ge[j].0 && e.1@ == ge[j].1);
                assert(rest@ =~= prev.drop_first());
                assert(content_view(rest@).len() == rest@.len());
                assert forall|m: int| 0 <= m < content_view(rest@).len() implies content_view(
                    rest@,
                )[m] == ge.skip(j + 1)[m] by {
                    assert(rest@[m] == prev[m + 1]);
                    assert(content_view(rest@)[m] == (rest@[m].0@, rest@[m].1@));
                    assert(content_view(prev)[m + 1] == (prev[m + 1].0@, prev[m + 1].1@));
                    assert(ge.skip(j)[m + 1] == ge[j + 1 + m]);
                    assert(ge.skip(j + 1)[m] == ge[j + 1 + m]);
                }
                assert(content_view(rest@) =~= ge.skip(j + 1));
                assert(ge.take(j + 1).drop_last() =~= ge.take(j));
                assert(ge.take(j + 1).last() == ge[j]);
                j = j + 1;
            }
        }
        proof {
            assert(ge.skip(j).len() == 0);
            assert(ge.take(j) =~= ge);
        }
        Localized { default, content }
    }

    /// The text for `locale`: its entry when one exists (by canonical
    /// tag), else the default text, else a missing-localization error.
    pub fn get(&self, locale: &Locale) -> (r: Result<&String, ManifestError>)
        ensures
            match map_get(self@.content, locale@, true) {
                Option::Some(t) => r is Ok && r->Ok_0@ == t,
                Option::None => match self@.default {
                    Option::Some(d) => r is Ok && r->Ok_0@ == d,
                    Option::None => r === Result::Err(ManifestError::MissingLocalization),
                },
            },
    {
        let ghost s = self@.content;
        proof {
            assert(s.skip(0) =~= s);
        }
        let mut i: usize = 0;
        while i < self.content.len()
            invariant
                i <= self.content.len(),
                s == self@.content,
                map_get(s, locale@, true) == map_get(s.skip(i as int), locale@, true),
            decreases self.content.len() - i,
        {
            if chars_eq(self.content[i].0.as_str(), locale.as_str(), true) {
                proof {
                    assert(s.skip(i as int)[0] == s[i as int]);
                }
                return Result::Ok(&self.content[i].1);
            }
            proof {
                assert(s.skip(i as int)[0] == s[i as int]);
                assert(s.skip(i as int).drop_first() =~= s.skip(i + 1));
            }
            i = i + 1;
        }
        proof {
            assert(s.skip(i as int).len() == 0);
        }
        match &self.default {
            Option::Some(d) => Result::Ok(d),
            Option::None => Result::Err(ManifestError::MissingLocalization),
        }
    }

    /// Decodes a localized value from a structured value, which must be a
    /// table of the shape [`dec_localized`] reads.
    pub fn decode(raw: &Raw) -> (r: Option<Localized>)
        ensures
            match r {
                Option::Some(l) => dec_localized(*raw) == Option::Some(l@) && loc_wf(l@),
                Option::None => dec_localized(*raw) is None,
            },
    {
        match raw {
            Raw::Table(es) => {
                proof {
                    assert(dec_localized(*raw) == dec_loc_entries(es@));
                }
                let mut default: Option<String> = Option::None;
                let mut content: Vec<(Locale, String)> = Vec::new();
                let mut j: usize = 0;
                proof {
                    assert(es@.take(0) =~= Seq::<(String, Raw)>::empty());
                    assert(content_view(content@) =~= Seq::<(Seq<char>, Seq<char>)>::empty());
                }
                while j < es.len()
                    invariant
                        j <= es@.len(),
                        dec_localized(*raw) == dec_loc_entries(es@),
                        dec_loc_entries(es@.take(j as int)) == Option::Some(
                            LocalizedView {
                                default: opt_chars(default),
                                content: content_view(content@),
                            },
                        ),
                        map_sorted(content_view(content@), true),
                        forall|m: int|
                            0 <= m < content@.len() ==> (#[trigger] content_view(content@)[m]).0
                                != default_key(),
                    decreases es@.len() - j,
                {
                    proof {
                        assert(es@.take(j + 1).drop_last() =~= es@.take(j as int));
                        assert(es@.take(j + 1).last() == es@[j as int]);
                    }
                    let ghost pre = content_view(content@);
                    let entry = &es[j];
                    proof {
                        assert(*entry == es@[j as int]);
                    }
                    if chars_eq(entry.0.as_str(), "default", false) {
                        match &entry.1 {
                            Raw::Str(s) => {
                                default = Option::Some(s.clone());
                            },
                            Raw::Null => {
                                default = Option::None;
                            },
                            _ => {
                                proof {
                                    assert(dec_loc_entries(es@.take(j + 1)) is None);
                                    lemma_dec_loc_entries_prefix_none(es@, j + 1);
                                }
                                return Option::None;
                            },
                        }
                    } else {
                        match &entry.1 {
                            Raw::Str(s) => {
                                proof {
                                    lemma_map_insert_sorted(pre, es@[j as int].0@, s@, true);
                                    lemma_map_insert_keys(pre, es@[j as int].0@, s@, true);
                                }
                                content = insert_content(
                                    content,
                                    Locale::new(entry.0.as_str()),
                                    s.clone(),
                                );
                            },
                            _ => {
                                proof {
                                    assert(dec_loc_entries(es@.take(j + 1)) is None);
                                    lemma_dec_loc_entries_prefix_none(es@, j + 1);
                                }
                                return Option::None;
                            },
                        }
                    }
                    j = j + 1;
                }
                proof {
                    assert(es@.take(j as int) =~= es@);
                }
                Option::Some(Localized { default, content })
            },
            _ => Option::None,
        }
    }

    /// Encodes a localized value as a table: the default text first, under
    /// the default key, then the locale entries under their tags as
    /// written.
    pub fn encode(&self) -> (r: Raw)
        ensures
            enc_localized_matches(self@, r),
    {
        let mut es: Vec<(String, Raw)> = Vec::new();
        let ghost off: int = if self@.default is Some {
            1
        } else {
            0
        };
        match &self.default {
            Option::Some(d) => {
                es.push(("default".to_owned(), Raw::Str(d.clone())));
            },
            Option::None => {},
        }
        let mut j: usize = 0;
        while j < self.content.len()
            invariant
                j <= self.content.len(),
                es@.len() == off + j,
                off == if self@.default is Some { 1int } else { 0int },
                self@.default is Some ==> es@[0].0@ == default_key() && crate::raw::raw_is_str(
                    es@[0].1,
                    self@.default->0,
                ),
                forall|i: int|
                    0 <= i < j ==> (#[trigger] es@[off + i]).0@ == self@.content[i].0
                        && crate::raw::raw_is_str(es@[off + i].1, self@.content[i].1),
            decreases self.content.len() - j,
        {
            es.push((self.content[j].0.as_str().to_owned(), Raw::Str(self.content[j].1.clone())));
            j = j + 1;
        }
        Raw::Table(es)
    }
}

} // verus!
