//! Laws of the manifest codec and of the consistency checker, stated over
//! the specification-level decoders and encodings and proved for all
//! inputs.

use vstd::prelude::*;

use crate::assoc::lemma_map_insert_all_less;
use crate::assoc::map_sorted;
use crate::collection::coll_has_key;
use crate::collection::entry_report;
use crate::collection::missing_refs;
use crate::collection::missing_up_to;
use crate::collection::spec_find_missing;
use crate::conventional::conv_wf;
use crate::conventional::dec_conventional;
use crate::conventional::enc_conventional_matches;
use crate::conventional::ConventionalView;
use crate::cumulative::cum_wf;
use crate::cumulative::dec_cumulative;
use crate::cumulative::dec_topic_items;
use crate::cumulative::enc_cumulative_matches;
use crate::cumulative::CumulativeView;
use crate::error::ManifestError;
use crate::localized::dec_loc_entries;
use crate::localized::dec_localized;
use crate::localized::default_key;
use crate::localized::enc_localized_matches;
use crate::localized::loc_tail_matches;
use crate::localized::loc_wf;
use crate::localized::LocalizedView;
use crate::manifest::dec_manifest;
use crate::manifest::enc_manifest_matches;
use crate::manifest::manifest_wf;
use crate::manifest::Manifest;
use crate::manifest::ManifestView;
use crate::order::key_of;
use crate::order::lex_lt;
use crate::packages::dec_packages;
use crate::packages::dec_pkg_entries;
use crate::packages::dec_pkg_version;
use crate::packages::enc_packages_matches;
use crate::packages::pkg_val_matches;
use crate::packages::PackagesView;
use crate::raw::raw_is_str;
use crate::raw::table_get;
use crate::raw::Raw;

verus! {

/// Decoding the encoded prefix of a localized value rebuilds the prefix.
proof fn lemma_dec_loc_prefix(l: LocalizedView, es: Seq<(String, Raw)>, off: int, n: int)
    requires
        loc_wf(l),
        off == if l.default is Some { 1int } else { 0int },
        es.len() == off + l.content.len(),
        l.default is Some ==> es[0].0@ == default_key() && raw_is_str(es[0].1, l.default.unwrap()),
        loc_tail_matches(l.content, es, off),
        0 <= n <= l.content.len(),
    ensures
        dec_loc_entries(es.take(off + n)) == Option::Some(
            LocalizedView { default: l.default, content: l.content.take(n) },
        ),
    decreases n,
{
    if n == 0 {
        assert(l.content.take(0) =~= Seq::<(Seq<char>, Seq<char>)>::empty());
        if l.default is Some {
            assert(es.take(1).drop_last() =~= es.take(0));
            assert(es.take(0) =~= Seq::<(String, Raw)>::empty());
            assert(es.take(1).last() == es[0]);
        } else {
            assert(es.take(0) =~= Seq::<(String, Raw)>::empty());
        }
        assert(LocalizedView { default: l.default, content: Seq::empty() } =~= LocalizedView {
            default: l.default,
            content: l.content.take(0),
        });
    } else {
        lemma_dec_loc_prefix(l, es, off, n - 1);
        let k = off + n - 1;
        assert(es.take(off + n).drop_last() =~= es.take(off + n - 1));
        assert(es.take(off + n).last() == es[k]);
        assert(es[off + (n - 1)].0@ == l.content[n - 1].0 && raw_is_str(
            es[off + (n - 1)].1,
            l.content[n - 1].1,
        ));
        assert(l.content[n - 1].0 != default_key());
        assert forall|m: int| 0 <= m < l.content.take(n - 1).len() implies lex_lt(
            key_of(#[trigger] l.content.take(n - 1)[m].0, true),
            key_of(l.content[n - 1].0, true),
        ) by {
            assert(l.content.take(n - 1)[m] == l.content[m]);
        }
        lemma_map_insert_all_less(
            l.content.take(n - 1),
            l.content[n - 1].0,
            l.content[n - 1].1,
            true,
        );
        assert(l.content.take(n - 1).push((l.content[n - 1].0, l.content[n - 1].1)) =~= l
            .content
            .take(n));
    }
}

/// Round trip for localized values: decoding an encoding of a
/// well-formed localized value gives the value back.
pub proof fn lemma_localized_round_trip(l: LocalizedView, r: Raw)
    requires
        loc_wf(l),
        enc_localized_matches(l, r),
    ensures
        dec_localized(r) == Option::Some(l),
{
    let es = r->Table_0;
    let off: int = if l.default is Some {
        1
    } else {
        0
    };
    lemma_dec_loc_prefix(l, es@, off, l.content.len() as int);
    assert(es@.take(off + l.content.len()) =~= es@);
    assert(l.content.take(l.content.len() as int) =~= l.content);
    assert(LocalizedView { default: l.default, content: l.content.take(l.content.len() as int) }
        =~= l);
}

/// Decoding the encoded prefix of a version set rebuilds the prefix.
proof fn lemma_dec_pkg_prefix(p: PackagesView, es: Seq<(String, Raw)>, n: int)
    requires
        map_sorted(p, false),
        es.len() == p.len(),
        forall|i: int|
            0 <= i < p.len() ==> (#[trigger] es[i]).0@ == p[i].0 && pkg_val_matches(
                p[i].1,
                es[i].1,
            ),
        0 <= n <= p.len(),
    ensures
        dec_pkg_entries(es.take(n)) == Result::<PackagesView, ManifestError>::Ok(p.take(n)),
    decreases n,
{
    if n == 0 {
        assert(es.take(0) =~= Seq::<(String, Raw)>::empty());
        assert(p.take(0) =~= Seq::<(Seq<char>, Option<Seq<char>>)>::empty());
    } else {
        lemma_dec_pkg_prefix(p, es, n - 1);
        assert(es.take(n).drop_last() =~= es.take(n - 1));
        assert(es.take(n).last() == es[n - 1]);
        assert(es[n - 1].0@ == p[n - 1].0 && pkg_val_matches(p[n - 1].1, es[n - 1].1));
        assert forall|m: int| 0 <= m < p.take(n - 1).len() implies lex_lt(
            key_of(#[trigger] p.take(n - 1)[m].0, false),
            key_of(p[n - 1].0, false),
        ) by {
            assert(p.take(n - 1)[m] == p[m]);
        }
        lemma_map_insert_all_less(p.take(n - 1), p[n - 1].0, p[n - 1].1, false);
        assert(p.take(n - 1).push((p[n - 1].0, p[n - 1].1)) =~= p.take(n));
    }
}

/// Round trip for package version sets: a removal encoded as an
/// absent-value marker decodes back to a removal, and a version string
/// decodes back to itself.
pub proof fn lemma_packages_round_trip(p: PackagesView, r: Raw)
    requires
        map_sorted(p, false),
        enc_packages_matches(p, r),
    ensures
        dec_packages(r) == Result::<PackagesView, ManifestError>::Ok(p),
{
    let es = r->Table_0;
    lemma_dec_pkg_prefix(p, es@, p.len() as int);
    assert(es@.take(p.len() as int) =~= es@);
    assert(p.take(p.len() as int) =~= p);
}

/// Decoding the encoded prefix of a topic-name list rebuilds the prefix.
proof fn lemma_dec_topics_prefix(ts: Seq<Seq<char>>, vs: Seq<Raw>, n: int)
    requires
        vs.len() == ts.len(),
        forall|i: int| 0 <= i < ts.len() ==> raw_is_str(#[trigger] vs[i], ts[i]),
        0 <= n <= ts.len(),
    ensures
        dec_topic_items(vs.take(n)) == Option::Some(ts.take(n)),
    decreases n,
{
    if n == 0 {
        assert(vs.take(0) =~= Seq::<Raw>::empty());
        assert(ts.take(0) =~= Seq::<Seq<char>>::empty());
    } else {
        lemma_dec_topics_prefix(ts, vs, n - 1);
        assert(vs.take(n).drop_last() =~= vs.take(n - 1));
        assert(vs.take(n).last() == vs[n - 1]);
        assert(raw_is_str(vs[n - 1], ts[n - 1]));
        assert(ts.take(n - 1).push(ts[n - 1]) =~= ts.take(n));
    }
}

/// The key lookups a conventional decoding makes, evaluated over a tagged
/// conventional encoding's five entries.
proof fn lemma_conv_table_lookups(es: Seq<(String, Raw)>)
    requires
        es.len() == 5,
        es[0].0@ == "type"@,
        es[1].0@ == "name"@,
        es[2].0@ == "security"@,
        es[3].0@ == "caution"@,
        es[4].0@ == "packages"@,
    ensures
        table_get(es, "name"@) == Option::Some(es[1].1),
        table_get(es, "security"@) == Option::Some(es[2].1),
        table_get(es, "caution"@) == Option::Some(es[3].1),
        table_get(es, "packages"@) == Option::Some(es[4].1),
{
    reveal_strlit("type");
    reveal_strlit("name");
    reveal_strlit("security");
    reveal_strlit("caution");
    reveal_strlit("packages");
    assert("name"@.len() == 4);
    assert("security"@.len() == 8);
    assert("caution"@.len() == 7);
    assert("packages"@.len() == 8);
    assert("security"@[0] == 's');
    assert("packages"@[0] == 'p');
    let e4 = es.drop_last();
    let e3 = e4.drop_last();
    let e2 = e3.drop_last();
    assert(e4.last() == es[3]);
    assert(e3.last() == es[2]);
    assert(e2.last() == es[1]);
    assert("packages"@ != "name"@);
    assert("caution"@ != "name"@);
    assert("security"@ != "name"@);
    assert(table_get(es, "name"@) == table_get(e4, "name"@));
    assert(table_get(e4, "name"@) == table_get(e3, "name"@));
    assert(table_get(e3, "name"@) == table_get(e2, "name"@));
    assert(table_get(e2, "name"@) == Option::Some(es[1].1));
    assert("packages"@ != "security"@);
    assert("caution"@ != "security"@);
    assert(table_get(es, "security"@) == table_get(e4, "security"@));
    assert(table_get(e4, "security"@) == table_get(e3, "security"@));
    assert(table_get(e3, "security"@) == Option::Some(es[2].1));
    assert("packages"@ != "caution"@);
    assert(table_get(es, "caution"@) == table_get(e4, "caution"@));
    assert(table_get(e4, "caution"@) == Option::Some(es[3].1));
    assert(table_get(es, "packages"@) == Option::Some(es[4].1));
}

/// The key lookups a decoding makes, evaluated over a tagged cumulative
/// encoding's three entries: the cumulative fields are found, and the
/// `security` key a conventional decoding would need is absent.
proof fn lemma_cum_table_lookups(es: Seq<(String, Raw)>)
    requires
        es.len() == 3,
        es[0].0@ == "type"@,
        es[1].0@ == "name"@,
        es[2].0@ == "topics"@,
    ensures
        table_get(es, "name"@) == Option::Some(es[1].1),
        table_get(es, "topics"@) == Option::Some(es[2].1),
        table_get(es, "security"@) is None,
{
    reveal_strlit("type");
    reveal_strlit("name");
    reveal_strlit("topics");
    reveal_strlit("security");
    assert("type"@.len() == 4);
    assert("name"@.len() == 4);
    assert("topics"@.len() == 6);
    assert("security"@.len() == 8);
    assert("name"@[0] == 'n');
    assert("topics"@[0] == 't');
    let e2 = es.drop_last();
    let e1 = e2.drop_last();
    let e0 = e1.drop_last();
    assert(e2.last() == es[1]);
    assert(e1.last() == es[0]);
    assert(e0 =~= Seq::<(String, Raw)>::empty());
    assert("topics"@ != "name"@);
    assert(table_get(es, "name"@) == table_get(e2, "name"@));
    assert(table_get(e2, "name"@) == Option::Some(es[1].1));
    assert(table_get(es, "topics"@) == Option::Some(es[2].1));
    assert("topics"@ != "security"@);
    assert("name"@ != "security"@);
    assert("type"@ != "security"@);
    assert(table_get(es, "security"@) == table_get(e2, "security"@));
    assert(table_get(e2, "security"@) == table_get(e1, "security"@));
    assert(table_get(e1, "security"@) == table_get(e0, "security"@));
    assert(table_get(e0, "security"@) is None);
}

/// Round trip for conventional topics.
pub proof fn lemma_conventional_round_trip(c: ConventionalView, r: Raw)
    requires
        conv_wf(c),
        enc_conventional_matches(c, r),
    ensures
        dec_conventional(r) == Option::Some(c),
{
    let es = r->Table_0;
    lemma_conv_table_lookups(es@);
    lemma_localized_round_trip(c.name, es@[1].1);
    lemma_localized_round_trip(c.caution, es@[3].1);
    lemma_packages_round_trip(c.packages, es@[4].1);
    assert(ConventionalView {
        name: c.name,
        security: c.security,
        caution: c.caution,
        packages: c.packages,
    } =~= c);
}

/// Round trip for cumulative topics: the encoding never matches the
/// conventional shape — its table has no `security` key — so the decoder
/// falls through to the cumulative shape and rebuilds the topic.
pub proof fn lemma_cumulative_round_trip(c: CumulativeView, r: Raw)
    requires
        cum_wf(c),
        enc_cumulative_matches(c, r),
    ensures
        dec_conventional(r) is None,
        dec_cumulative(r) == Option::Some(c),
{
    let es = r->Table_0;
    lemma_cum_table_lookups(es@);
    lemma_localized_round_trip(c.name, es@[1].1);
    let vs = es@[2].1->Arr_0;
    lemma_dec_topics_prefix(c.topics, vs@, c.topics.len() as int);
    assert(vs@.take(c.topics.len() as int) =~= vs@);
    assert(c.topics.take(c.topics.len() as int) =~= c.topics);
    assert(CumulativeView { name: c.name, topics: c.topics } =~= c);
}

/// Round trip: decoding the tagged encoding of any well-formed manifest
/// yields the manifest itself, though the encoding carries a `type` tag
/// the decoder never requires.
pub proof fn lemma_manifest_round_trip(m: ManifestView, r: Raw)
    requires
        manifest_wf(m),
        enc_manifest_matches(m, r),
    ensures
        dec_manifest(r) == Result::<ManifestView, ManifestError>::Ok(m),
{
    match m {
        ManifestView::Conventional(c) => {
            lemma_conventional_round_trip(c, r);
        },
        ManifestView::Cumulative(c) => {
            lemma_cumulative_round_trip(c, r);
        },
    }
}

/// Tri-state law: decoding `false` always yields no version; an
/// absent-value marker also yields no version; decoding `true` always
/// fails with an invalid package version; decoding a string always yields
/// that string as the version.
pub proof fn lemma_tri_state(v: Raw, s: Seq<char>)
    ensures
        dec_pkg_version(Raw::Bool(false)) == Result::<Option<Seq<char>>, ManifestError>::Ok(
            Option::None,
        ),
        dec_pkg_version(Raw::Null) == Result::<Option<Seq<char>>, ManifestError>::Ok(Option::None),
        dec_pkg_version(Raw::Bool(true)) == Result::<Option<Seq<char>>, ManifestError>::Err(
            ManifestError::InvalidPackageVersion,
        ),
        raw_is_str(v, s) ==> dec_pkg_version(v) == Result::<Option<Seq<char>>, ManifestError>::Ok(
            Option::Some(s),
        ),
{
}

/// Disambiguation law: a value that satisfies the structural requirements
/// of both variants decodes as conventional — the earlier-tried variant
/// wins — never as cumulative, and never fails.
pub proof fn lemma_disambiguation(r: Raw)
    requires
        dec_conventional(r) is Some,
        dec_cumulative(r) is Some,
    ensures
        dec_manifest(r) == Result::<ManifestView, ManifestError>::Ok(
            ManifestView::Conventional(dec_conventional(r).unwrap()),
        ),
{
}

/// No reference of a fully present reference list is missing.
proof fn lemma_missing_refs_all_present(c: Seq<(Seq<char>, Manifest)>, ts: Seq<Seq<char>>)
    requires
        forall|j: int| 0 <= j < ts.len() ==> coll_has_key(c, #[trigger] ts[j]),
    ensures
        missing_refs(c, ts) == Seq::<Seq<char>>::empty(),
    decreases ts.len(),
{
    if ts.len() == 0 {
        assert(missing_refs(c, ts) =~= Seq::<Seq<char>>::empty());
    } else {
        assert(coll_has_key(c, ts[ts.len() - 1]));
        assert forall|j: int| 0 <= j < ts.drop_last().len() implies coll_has_key(
            c,
            #[trigger] ts.drop_last()[j],
        ) by {
            assert(ts.drop_last()[j] == ts[j]);
        }
        lemma_missing_refs_all_present(c, ts.drop_last());
        assert(missing_refs(c, ts) =~= Seq::<Seq<char>>::empty());
    }
}

/// The first `n` report rows of a fully consistent collection are empty.
proof fn lemma_missing_up_to_empty(c: Seq<(Seq<char>, Manifest)>, n: int)
    requires
        n <= c.len(),
        forall|i: int|
            0 <= i < c.len() && (#[trigger] c[i]).1@ is Cumulative ==> (forall|j: int|
                0 <= j < c[i].1@->Cumulative_0.topics.len() ==> coll_has_key(
                    c,
                    #[trigger] c[i].1@->Cumulative_0.topics[j],
                )),
    ensures
        missing_up_to(c, n) == Seq::<(Seq<char>, Seq<Seq<char>>)>::empty(),
    decreases n,
{
    if n > 0 {
        lemma_missing_up_to_empty(c, n - 1);
        match c[n - 1].1@ {
            ManifestView::Cumulative(cu) => {
                lemma_missing_refs_all_present(c, cu.topics);
            },
            _ => {},
        }
        assert(entry_report(c, n - 1) =~= Seq::<(Seq<char>, Seq<Seq<char>>)>::empty());
        assert(missing_up_to(c, n) =~= Seq::<(Seq<char>, Seq<Seq<char>>)>::empty());
    }
}

/// Consistency law: in a collection where every cumulative entry's
/// referenced names are keys of the collection, nothing is missing, so
/// the missing-topics report is empty and the collection is consistent.
pub proof fn lemma_consistency(c: Seq<(Seq<char>, Manifest)>)
    requires
        forall|i: int|
            0 <= i < c.len() && (#[trigger] c[i]).1@ is Cumulative ==> (forall|j: int|
                0 <= j < c[i].1@->Cumulative_0.topics.len() ==> coll_has_key(
                    c,
                    #[trigger] c[i].1@->Cumulative_0.topics[j],
                )),
    ensures
        spec_find_missing(c) == Seq::<(Seq<char>, Seq<Seq<char>>)>::empty(),
{
    lemma_missing_up_to_empty(c, c.len() as int);
}

} // verus!
