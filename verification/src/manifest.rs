//! Topic update manifests: the tagged union over the two topic kinds, with
//! shape-based input disambiguation and tagged output encoding.

use vstd::prelude::*;

use crate::conventional::conv_wf;
use crate::conventional::dec_conventional;
use crate::conventional::enc_conventional_matches;
use crate::conventional::Conventional;
use crate::conventional::ConventionalView;
use crate::cumulative::cum_wf;
use crate::cumulative::dec_cumulative;
use crate::cumulative::enc_cumulative_matches;
use crate::cumulative::Cumulative;
use crate::cumulative::CumulativeView;
use crate::error::ManifestError;
use crate::raw::Raw;

verus! {

/// The mathematical content of a manifest: one of the two topic kinds.
#[verifier::ext_equal]
pub enum ManifestView {
    /// A conventional topic.
    Conventional(ConventionalView),
    /// A cumulative topic.
    Cumulative(CumulativeView),
}

/// Well-formedness of a manifest's content.
pub open spec fn manifest_wf(m: ManifestView) -> bool {
    match m {
        ManifestView::Conventional(c) => conv_wf(c),
        ManifestView::Cumulative(c) => cum_wf(c),
    }
}

/// Decoding of a manifest from an untagged structured value, in a fixed
/// priority order: the conventional shape is tried first, then the
/// cumulative shape; the first that matches wins, so a value satisfying
/// both shapes silently decodes as conventional. A value matching neither
/// shape is an unrecognized manifest shape.
pub open spec fn dec_manifest(r: Raw) -> Result<ManifestView, ManifestError> {
    match dec_conventional(r) {
        Option::Some(c) => Result::Ok(ManifestView::Conventional(c)),
        Option::None => match dec_cumulative(r) {
            Option::Some(c) => Result::Ok(ManifestView::Cumulative(c)),
            Option::None => Result::Err(ManifestError::UnrecognizedManifestShape),
        },
    }
}

/// Whether `r` is the tagged encoding of the manifest `m`. The encoding
/// always carries the explicit `type` tag the decoder never requires, so
/// the two directions are deliberately not mirror images.
pub open spec fn enc_manifest_matches(m: ManifestView, r: Raw) -> bool {
    match m {
        ManifestView::Conventional(c) => enc_conventional_matches(c, r),
        ManifestView::Cumulative(c) => enc_cumulative_matches(c, r),
    }
}

/// Topic update manifest.
#[derive(Clone, Debug, PartialEq)]
pub enum Manifest {
    /// A conventional topic.
    Conventional(Conventional),
    /// A cumulative topic.
    Cumulative(Cumulative),
}

impl View for Manifest {
    type V = ManifestView;

    open spec fn view(&self) -> ManifestView {
        match self {
            Manifest::Conventional(c) => ManifestView::Conventional(c@),
            Manifest::Cumulative(c) => ManifestView::Cumulative(c@),
        }
    }
}

impl Manifest {
    /// Is this a conventional topic.
    pub fn is_conventional(&self) -> (r: bool)
        ensures
            r == self@ is Conventional,
    {
        match self {
            Manifest::Conventional(_) => true,
            _ => false,
        }
    }

    /// Is this a cumulative topic.
    pub fn is_cumulative(&self) -> (r: bool)
        ensures
            r == self@ is Cumulative,
    {
        match self {
            Manifest::Cumulative(_) => true,
            _ => false,
        }
    }

    /// Decodes a manifest from an untagged structured value, trying the
    /// conventional shape first and the cumulative shape second, per
    /// [`dec_manifest`].
    pub fn decode(raw: &Raw) -> (r: Result<Manifest, ManifestError>)
        ensures
            match r {
                Result::Ok(m) => dec_manifest(*raw) == Result::<
                    ManifestView,
                    ManifestError,
                >::Ok(m@) && manifest_wf(m@),
                Result::Err(e) => dec_manifest(*raw) == Result::<
                    ManifestView,
                    ManifestError,
                >::Err(e),
            },
    {
        match Conventional::decode(raw) {
            Option::Some(c) => {
                return Result::Ok(Manifest::Conventional(c));
            },
            Option::None => {},
        }
        match Cumulative::decode(raw) {
            Option::Some(c) => Result::Ok(Manifest::Cumulative(c)),
            Option::None => Result::Err(ManifestError::UnrecognizedManifestShape),
        }
    }

    /// Encodes a manifest as a tagged table carrying the lowercase kind
    /// under the `type` key alongside the topic's own fields.
    pub fn encode(&self) -> (r: Raw)
        ensures
            enc_manifest_matches(self@, r),
    {
        match self {
            Manifest::Conventional(c) => c.encode(),
            Manifest::Cumulative(c) => c.encode(),
        }
    }
}

} // verus!
