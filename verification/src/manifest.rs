//! A member manifest's dependency declarations, and their extraction as
//! (name, normalized version) pairs.

use vstd::prelude::*;
use crate::version::VersionSpec;
use crate::version::spec_normalize;
use crate::version::normalize_version;

verus! {

/// One dependency declaration: a name and the requested version.
pub struct Dependency {
    pub name: String,
    pub requested: VersionSpec,
}

/// One workspace member's manifest: the package identification and its
/// dependency table. `dependencies` is `None` when the manifest has no
/// such table at all, which declares nothing and is not an error.
pub struct MemberManifest {
    pub package_name: String,
    pub package_version: String,
    pub dependencies: Option<Vec<Dependency>>,
}

/// The dependencies a manifest declares: an absent table declares none.
pub open spec fn spec_deps(m: MemberManifest) -> Seq<Dependency> {
    match m.dependencies {
        Option::None => Seq::empty(),
        Option::Some(deps) => deps@,
    }
}

/// Produces one (dependency name, resolved version) pair per declared
/// dependency, in declaration order; an absent table yields no pairs.
pub fn extract(manifest: &MemberManifest) -> (r: Vec<(String, String)>)
    ensures
        r@.len() == spec_deps(*manifest).len(),
        forall|i: int|
            0 <= i < r@.len()
                ==> (#[trigger] r@[i]).0@ == spec_deps(*manifest)[i].name@
                    && r@[i].1@ == spec_normalize(spec_deps(*manifest)[i].requested),
{
    let mut out: Vec<(String, String)> = Vec::new();
    match &manifest.dependencies {
        Option::None => out,
        Option::Some(deps) => {
            let n = deps.len();
            let mut i: usize = 0;
            while i < n
                invariant
                    i <= n,
                    n == deps@.len(),
                    deps@ == spec_deps(*manifest),
                    out@.len() == i,
                    forall|k: int|
                        0 <= k < i
                            ==> (#[trigger] out@[k]).0@ == deps@[k].name@
                                && out@[k].1@ == spec_normalize(deps@[k].requested),
                decreases n - i,
            {
                let name = deps[i].name.clone();
                let version = normalize_version(&deps[i].requested);
                out.push((name, version));
                i = i + 1;
            }
            out
        },
    }
}

} // verus!
