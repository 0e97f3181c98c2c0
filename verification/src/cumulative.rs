//! Cumulative topics: aggregations of other topics by name.

use vstd::prelude::*;

use crate::localized::dec_localized;
use crate::localized::enc_localized_matches;
use crate::localized::loc_wf;
use crate::localized::Localized;
use crate::localized::LocalizedView;
use crate::raw::raw_is_str;
use crate::raw::raw_table_get;
use crate::raw::table_get;
use crate::raw::Raw;

verus! {

/// The mathematical content of a cumulative topic.
#[verifier::ext_equal]
pub struct CumulativeView {
    /// Localized display name.
    pub name: LocalizedView,
    /// The names, in order, of the topics this topic aggregates.
    /// Duplicates are permitted and kept.
    pub topics: Seq<Seq<char>>,
}

/// Well-formedness of a cumulative topic's content.
pub open spec fn cum_wf(c: CumulativeView) -> bool {
    loc_wf(c.name)
}

/// The character sequences of a sequence of strings.
pub open spec fn strs_view(s: Seq<String>) -> Seq<Seq<char>> {
    s.map_values(|x: String| x@)
}

/// Decoding of an array of topic names, in order; each element must be a
/// string.
pub open spec fn dec_topic_items(vs: Seq<Raw>) -> Option<Seq<Seq<char>>>
    decreases vs.len(),
{
    if vs.len() == 0 {
        Option::Some(Seq::empty())
    } else {
        match dec_topic_items(vs.drop_last()) {
            Option::None => Option::None,
            Option::Some(acc) => match vs.last() {
                Raw::Str(s) => Option::Some(acc.push(s@)),
                _ => Option::None,
            },
        }
    }
}

/// Structural decoding of a cumulative topic: a table with a localized
/// `name` and a `topics` array of topic names; both are required, other
/// keys are ignored, and no explicit tag is needed.
pub open spec fn dec_cumulative(r: Raw) -> Option<CumulativeView> {
    match r {
        Raw::Table(es) => match table_get(es@, "name"@) {
            Option::None => Option::None,
            Option::Some(nr) => match dec_localized(nr) {
                Option::None => Option::None,
                Option::Some(name) => match table_get(es@, "topics"@) {
                    Option::Some(Raw::Arr(vs)) => match dec_topic_items(vs@) {
                        Option::Some(topics) => Option::Some(CumulativeView { name, topics }),
                        Option::None => Option::None,
                    },
                    _ => Option::None,
                },
            },
        },
        _ => Option::None,
    }
}

/// Whether `r` encodes the topic-name list `ts`, in order.
pub open spec fn enc_topics_matches(ts: Seq<Seq<char>>, r: Raw) -> bool {
    match r {
        Raw::Arr(vs) => vs@.len() == ts.len() && forall|i: int|
            0 <= i < ts.len() ==> raw_is_str(#[trigger] vs@[i], ts[i]),
        _ => false,
    }
}

/// Whether `r` is the tagged encoding of the cumulative topic `c`: a
/// table carrying the explicit `type` tag first, then the topic's own
/// fields in declaration order.
pub open spec fn enc_cumulative_matches(c: CumulativeView, r: Raw) -> bool {
    match r {
        Raw::Table(es) => {
            &&& es@.len() == 3
            &&& es@[0].0@ == "type"@ && raw_is_str(es@[0].1, "cumulative"@)
            &&& es@[1].0@ == "name"@ && enc_localized_matches(c.name, es@[1].1)
            &&& es@[2].0@ == "topics"@ && enc_topics_matches(c.topics, es@[2].1)
        },
        _ => false,
    }
}

/// A cumulative topic: an aggregation of other topics by name.
#[derive(Clone, Debug, PartialEq)]
pub struct Cumulative {
    name: Localized,
    topics: Vec<String>,
}

impl View for Cumulative {
    type V = CumulativeView;

    closed spec fn view(&self) -> CumulativeView {
        CumulativeView { name: self.name@, topics: strs_view(self.topics@) }
    }
}

impl Cumulative {
    /// Assembles a cumulative topic from its parts.
    pub fn new(name: Localized, topics: Vec<String>) -> (r: Cumulative)
        ensures
            r@ == (CumulativeView { name: name@, topics: strs_view(topics@) }),
    {
        Cumulative { name, topics }
    }

    /// Name of the topic.
    pub fn get_name(&self) -> (r: &Localized)
        ensures
            r@ == self@.name,
    {
        &self.name
    }

    /// Names of the topics aggregated by this topic.
    pub fn get_topics(&self) -> (r: &Vec<String>)
        ensures
            strs_view(r@) == self@.topics,
    {
        &self.topics
    }

    /// Decodes a cumulative topic from a structured value, per
    /// [`dec_cumulative`].
    pub fn decode(raw: &Raw) -> (r: Option<Cumulative>)
        ensures
            match r {
                Option::Some(c) => dec_cumulative(*raw) == Option::Some(c@) && cum_wf(c@),
                Option::None => dec_cumulative(*raw) is None,
            },
    {
        match raw {
            Raw::Table(es) => {
                let name = match raw_table_get(es, "name") {
                    Option::Some(nr) => match Localized::decode(nr) {
                        Option::Some(l) => l,
                        Option::None => {
                            return Option::None;
                        },
                    },
                    Option::None => {
                        return Option::None;
                    },
                };
                match raw_table_get(es, "topics") {
                    Option::Some(tr) => match tr {
                        Raw::Arr(vs) => {
                            let ghost nv = name@;
                            let mut topics: Vec<String> = Vec::new();
                            let mut k: usize = 0;
                            proof {
                                assert(vs@.take(0) =~= Seq::<Raw>::empty());
                                assert(strs_view(topics@) =~= Seq::<Seq<char>>::empty());
                            }
                            while k < vs.len()
                                invariant
                                    k <= vs@.len(),
                                    dec_cumulative(*raw) == (match dec_topic_items(vs@) {
                                        Option::Some(ts) => Option::Some(
                                            CumulativeView { name: nv, topics: ts },
                                        ),
                                        Option::None => Option::None::<CumulativeView>,
                                    }),
                                    loc_wf(nv),
                                    dec_topic_items(vs@.take(k as int)) == Option::Some(
                                        strs_view(topics@),
                                    ),
                                decreases vs@.len() - k,
                            {
                                proof {
                                    assert(vs@.take(k + 1).drop_last() =~= vs@.take(k as int));
                                    assert(vs@.take(k + 1).last() == vs@[k as int]);
                                }
                                let item = &vs[k];
                                proof {
                                    assert(*item == vs@[k as int]);
                                }
                                match item {
                                    Raw::Str(s) => {
                                        topics.push(s.clone());
                                        proof {
                                            assert(strs_view(topics@) =~= dec_topic_items(
                                                vs@.take(k as int),
                                            ).unwrap().push(s@));
                                        }
                                    },
                                    _ => {
                                        proof {
                                            lemma_dec_topic_items_prefix_none(vs@, k + 1);
                                        }
                                        return Option::None;
                                    },
                                }
                                k = k + 1;
                            }
                            proof {
                                assert(vs@.take(k as int) =~= vs@);
                            }
                            Option::Some(Cumulative { name, topics })
                        },
                        _ => Option::None,
                    },
                    Option::None => Option::None,
                }
            },
            _ => Option::None,
        }
    }

    /// Encodes a cumulative topic as a tagged table: the explicit `type`
    /// tag first, then the name and the aggregated topic names in order.
    pub fn encode(&self) -> (r: Raw)
        ensures
            enc_cumulative_matches(self@, r),
    {
        let mut items: Vec<Raw> = Vec::new();
        let mut k: usize = 0;
        while k < self.topics.len()
            invariant
                k <= self.topics.len(),
                items@.len() == k,
                forall|i: int| 0 <= i < k ==> raw_is_str(#[trigger] items@[i], self@.topics[i]),
            decreases self.topics.len() - k,
        {
            proof {
                assert(self@.topics[k as int] == self.topics@[k as int]@);
            }
            items.push(Raw::Str(self.topics[k].clone()));
            k = k + 1;
        }
        proof {
            assert(self@.topics.len() == self.topics@.len());
        }
        let mut es: Vec<(String, Raw)> = Vec::new();
        es.push(("type".to_owned(), Raw::Str("cumulative".to_owned())));
        es.push(("name".to_owned(), self.name.encode()));
        es.push(("topics".to_owned(), Raw::Arr(items)));
        Raw::Table(es)
    }
}

/// A failed prefix fails the whole topic-name list.
proof fn lemma_dec_topic_items_prefix_none(vs: Seq<Raw>, n: int)
    requires
        0 <= n <= vs.len(),
        dec_topic_items(vs.take(n)) is None,
    ensures
        dec_topic_items(vs) is None,
    decreases vs.len() - n,
{
    if n < vs.len() {
        assert(vs.take(n + 1).drop_last() =~= vs.take(n));
        lemma_dec_topic_items_prefix_none(vs, n + 1);
    } else {
        assert(vs.take(n) =~= vs);
    }
}

} // verus!
