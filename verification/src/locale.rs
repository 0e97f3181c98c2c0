//! Locale identifiers.

use vstd::prelude::*;

use crate::order::chars_eq;
use crate::order::normal_of;

verus! {

/// An identifier for a language/region, a BCP 47-like tag. The tag is kept
/// as written, and re-emitted as written; equality and ordering go by its
/// canonical form, in which the underscore separator reads as a dash, so
/// `zh_CN` and `zh-CN` name the same locale.
#[derive(Clone, Debug)]
pub struct Locale {
    tag: String,
}

impl View for Locale {
    type V = Seq<char>;

    closed spec fn view(&self) -> Seq<char> {
        self.tag@
    }
}

impl Locale {
    /// Wraps a tag, kept as written.
    pub fn new(tag: &str) -> (r: Locale)
        ensures
            r@ == tag@,
    {
        Locale { tag: tag.to_owned() }
    }

    /// The tag as written.
    pub fn as_str(&self) -> (r: &str)
        ensures
            r@ == self@,
    {
        self.tag.as_str()
    }
}

impl PartialEq for Locale {
    fn eq(&self, other: &Locale) -> (r: bool) {
        chars_eq(self.tag.as_str(), other.tag.as_str(), true)
    }
}

impl vstd::std_specs::cmp::PartialEqSpecImpl for Locale {
    open spec fn obeys_eq_spec() -> bool {
        true
    }

    open spec fn eq_spec(&self, other: &Locale) -> bool {
        normal_of(self@) == normal_of(other@)
    }
}

} // verus!
