//! Normalization of a dependency's requested version to a single string.

use vstd::prelude::*;

verus! {

/// The shapes a dependency's requested version can take in a member manifest.
pub enum VersionSpec {
    /// A bare version string: `dep = "1.0"`.
    Bare(String),
    /// A table: `dep = { version = "1.0", ... }`. The payload is the table's
    /// string `version` entry, or `None` when the table has no such entry
    /// (for example a git- or path-only declaration).
    Table(Option<String>),
    /// Any other shape (an array, a boolean, ...): no usable version.
    Other,
}

/// The version string a request resolves to: a bare string is itself, a
/// table contributes its `version` entry, and every other shape resolves to
/// the empty string, which still takes part in duplicate comparison.
pub open spec fn spec_normalize(v: VersionSpec) -> Seq<char> {
    match v {
        VersionSpec::Bare(s) => s@,
        VersionSpec::Table(Some(s)) => s@,
        VersionSpec::Table(None) => Seq::empty(),
        VersionSpec::Other => Seq::empty(),
    }
}

/// Resolves one requested version to the string used for comparison.
pub fn normalize_version(v: &VersionSpec) -> (r: String)
    ensures
        r@ == spec_normalize(*v),
{
    match v {
        VersionSpec::Bare(s) => s.clone(),
        VersionSpec::Table(Some(s)) => s.clone(),
        VersionSpec::Table(None) => String::new(),
        VersionSpec::Other => String::new(),
    }
}

} // verus!
