//! Error conditions raised while decoding manifest data.

use vstd::prelude::*;

verus! {

/// Why a structured value was rejected by a decoder.
#[derive(Clone, Copy, Debug, PartialEq, Eq, Structural)]
pub enum ManifestError {
    /// A package version was the boolean `true`, which has no defined
    /// meaning; only a version string, `false`, or an absent-value marker
    /// may stand there.
    InvalidPackageVersion,
    /// A value matched neither the conventional nor the cumulative topic
    /// shape.
    UnrecognizedManifestShape,
    /// A localized value held no entry for the requested locale and no
    /// default either.
    MissingLocalization,
    /// A value did not have the structural shape its position calls for.
    InvalidStructure,
}

} // verus!
