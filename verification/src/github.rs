//! The release finder: choosing among the tags a remote release feed offers,
//! by the same rule as local selection. Fetching the tags themselves is the
//! transport collaborator's job; this module only decides.

use vstd::prelude::*;

use crate::version::{find_best_match, spec_selects, Version, VersionReq};

verus! {

/// Errors of the release finder.
#[derive(Clone, Copy, Debug, PartialEq, Eq, Structural)]
pub enum GithubError {
    NoMatchingRemoteRelease,
}

/// The remote release a requirement selects among the offered tags: the exact
/// version when offered, the maximum tag for `Latest`; an error exactly when
/// no tag satisfies the requirement.
pub fn find_matching_release(tags: &Vec<Version>, req: &VersionReq) -> (r: Result<
    Version,
    GithubError,
>)
    ensures
        r is Ok ==> spec_selects(tags@, *req, r->Ok_0),
        r is Ok <==> exists|i: int|
            0 <= i < tags@.len() && req.spec_matches(#[trigger] tags@[i]),
        r is Err ==> r->Err_0 == GithubError::NoMatchingRemoteRelease,
{
    match find_best_match(tags, req) {
        Some(v) => {
            proof {
                crate::release::lemma_selects_gives_match(tags@, *req, v);
            }
            Ok(v)
        },
        None => Err(GithubError::NoMatchingRemoteRelease),
    }
}

} // verus!
