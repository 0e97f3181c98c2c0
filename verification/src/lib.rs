//! Types for decoding, validating, and encoding topic update manifests.
//!
//! A topic update manifest describes a batch of package changes (a
//! conventional topic) or an aggregation of other topics (a cumulative
//! topic). Manifests arrive as untagged structured values whose variant is
//! inferred from their shape, and are emitted with an explicit `type` tag.
//! A named collection of manifests can be checked for referential
//! consistency: every topic name referenced by a cumulative topic must be
//! a key of the collection.

pub mod assoc;
pub mod collection;
pub mod conventional;
pub mod cumulative;
pub mod error;
pub mod laws;
pub mod locale;
pub mod localized;
pub mod manifest;
pub mod order;
pub mod packages;
pub mod raw;

pub use collection::ManifestCollection;
pub use conventional::Conventional;
pub use cumulative::Cumulative;
pub use error::ManifestError;
pub use locale::Locale;
pub use localized::Localized;
pub use manifest::Manifest;
pub use packages::Packages;
pub use raw::Raw;
