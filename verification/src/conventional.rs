//! Conventional topics: concrete package version changes with metadata.

use vstd::prelude::*;

use crate::assoc::map_sorted;
use crate::localized::dec_localized;
use crate::localized::enc_localized_matches;
use crate::localized::loc_wf;
use crate::localized::Localized;
use crate::localized::LocalizedView;
use crate::packages::dec_packages;
use crate::packages::enc_packages_matches;
use crate::packages::Packages;
use crate::packages::PackagesView;
use crate::raw::raw_is_bool;
use crate::raw::raw_is_str;
use crate::raw::raw_table_get;
use crate::raw::table_get;
use crate::raw::Raw;

verus! {

/// The mathematical content of a conventional topic.
#[verifier::ext_equal]
pub struct ConventionalView {
    /// Localized display name.
    pub name: LocalizedView,
    /// Whether the topic is a security update.
    pub security: bool,
    /// Localized caution message for users.
    pub caution: LocalizedView,
    /// The package version set of the topic.
    pub packages: PackagesView,
}

/// Well-formedness of a conventional topic's content.
pub open spec fn conv_wf(c: ConventionalView) -> bool {
    &&& loc_wf(c.name)
    &&& loc_wf(c.caution)
    &&& map_sorted(c.packages, false)
}

/// Structural decoding of a conventional topic: a table with a localized
/// `name`, a boolean `security` flag, a localized `caution` message and a
/// `packages` version table; all four are required, other keys are
/// ignored, and no explicit tag is needed.
pub open spec fn dec_conventional(r: Raw) -> Option<ConventionalView> {
    match r {
        Raw::Table(es) => match table_get(es@, "name"@) {
            Option::None => Option::None,
            Option::Some(nr) => match dec_localized(nr) {
                Option::None => Option::None,
                Option::Some(name) => match table_get(es@, "security"@) {
                    Option::Some(Raw::Bool(security)) => match table_get(es@, "caution"@) {
                        Option::None => Option::None,
                        Option::Some(cr) => match dec_localized(cr) {
                            Option::None => Option::None,
                            Option::Some(caution) => match table_get(es@, "packages"@) {
                                Option::None => Option::None,
                                Option::Some(pr) => match dec_packages(pr) {
                                    Result::Ok(packages) => Option::Some(
                                        ConventionalView { name, security, caution, packages },
                                    ),
                                    Result::Err(_) => Option::None,
                                },
                            },
                        },
                    },
                    _ => Option::None,
                },
            },
        },
        _ => Option::None,
    }
}

/// Whether `r` is the tagged encoding of the conventional topic `c`: a
/// table carrying the explicit `type` tag first, then the topic's own
/// fields in declaration order.
pub open spec fn enc_conventional_matches(c: ConventionalView, r: Raw) -> bool {
    match r {
        Raw::Table(es) => {
            &&& es@.len() == 5
            &&& es@[0].0@ == "type"@ && raw_is_str(es@[0].1, "conventional"@)
            &&& es@[1].0@ == "name"@ && enc_localized_matches(c.name, es@[1].1)
            &&& es@[2].0@ == "security"@ && raw_is_bool(es@[2].1, c.security)
            &&& es@[3].0@ == "caution"@ && enc_localized_matches(c.caution, es@[3].1)
            &&& es@[4].0@ == "packages"@ && enc_packages_matches(c.packages, es@[4].1)
        },
        _ => false,
    }
}

/// A conventional topic: a batch of package version changes plus metadata.
#[derive(Clone, Debug, PartialEq)]
pub struct Conventional {
    name: Localized,
    security: bool,
    caution: Localized,
    packages: Packages,
}

impl View for Conventional {
    type V = ConventionalView;

    closed spec fn view(&self) -> ConventionalView {
        ConventionalView {
            name: self.name@,
            security: self.security,
            caution: self.caution@,
            packages: self.packages@,
        }
    }
}

impl Conventional {
    /// Assembles a conventional topic from its parts.
    pub fn new(name: Localized, security: bool, caution: Localized, packages: Packages) -> (r:
        Conventional)
        ensures
            r@ == (ConventionalView {
                name: name@,
                security,
                caution: caution@,
                packages: packages@,
            }),
    {
        Conventional { name, security, caution, packages }
    }

    /// Get name of the topic.
    pub fn get_name(&self) -> (r: &Localized)
        ensures
            r@ == self@.name,
    {
        &self.name
    }

    /// Is this topic a security update.
    pub fn is_security_update(&self) -> (r: bool)
        ensures
            r == self@.security,
    {
        self.security
    }

    /// Get localized caution strings of the topic.
    pub fn get_caution(&self) -> (r: &Localized)
        ensures
            r@ == self@.caution,
    {
        &self.caution
    }

    /// Get package updates in this topic.
    pub fn get_packages(&self) -> (r: &Packages)
        ensures
            r@ == self@.packages,
    {
        &self.packages
    }

    /// Decodes a conventional topic from a structured value, per
    /// [`dec_conventional`].
    pub fn decode(raw: &Raw) -> (r: Option<Conventional>)
        ensures
            match r {
                Option::Some(c) => dec_conventional(*raw) == Option::Some(c@) && conv_wf(c@),
                Option::None => dec_conventional(*raw) is None,
            },
    {
        match raw {
            Raw::Table(es) => {
                let name = match raw_table_get(es, "name") {
                    Option::Some(nr) => match Localized::decode(nr) {
                        Option::Some(l) => l,
                        Option::None => {
                            return Option::None;
                        },
                    },
                    Option::None => {
                        return Option::None;
                    },
                };
                let security = match raw_table_get(es, "security") {
                    Option::Some(sr) => match sr {
                        Raw::Bool(b) => *b,
                        _ => {
                            return Option::None;
                        },
                    },
                    Option::None => {
                        return Option::None;
                    },
                };
                let caution = match raw_table_get(es, "caution") {
                    Option::Some(cr) => match Localized::decode(cr) {
                        Option::Some(l) => l,
                        Option::None => {
                            return Option::None;
                        },
                    },
                    Option::None => {
                        return Option::None;
                    },
                };
                let packages = match raw_table_get(es, "packages") {
                    Option::Some(pr) => match Packages::decode(pr) {
                        Result::Ok(p) => p,
                        Result::Err(_) => {
                            return Option::None;
                        },
                    },
                    Option::None => {
                        return Option::None;
                    },
                };
                Option::Some(Conventional { name, security, caution, packages })
            },
            _ => Option::None,
        }
    }

    /// Encodes a conventional topic as a tagged table: the explicit
    /// `type` tag first, then name, security flag, caution message, and
    /// the package version set.
    pub fn encode(&self) -> (r: Raw)
        ensures
            enc_conventional_matches(self@, r),
    {
        let mut es: Vec<(String, Raw)> = Vec::new();
        es.push(("type".to_owned(), Raw::Str("conventional".to_owned())));
        es.push(("name".to_owned(), self.name.encode()));
        es.push(("security".to_owned(), Raw::Bool(self.security)));
        es.push(("caution".to_owned(), self.caution.encode()));
        es.push(("packages".to_owned(), self.packages.encode()));
        Raw::Table(es)
    }
}

} // verus!
