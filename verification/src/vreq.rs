//! The one question the reconciler asks an outside library: does a
//! version satisfy a declared version requirement?

use vstd::prelude::*;

verus! {

/// What the semver library answers for a requirement string and a version
/// string: `Some(m)` where both parse and `m` says whether the version
/// satisfies the requirement, `None` where either fails to parse. The
/// answer depends on the two strings alone.
pub uninterp spec fn req_match_of(req: Seq<u8>, version: Seq<u8>) -> Option<bool>;

/// Relies on `semver::VersionReq::parse`, `semver::Version::parse` and
/// `semver::VersionReq::matches`: evaluates whether `version` satisfies
/// `req`, with `None` where either string is not well-formed. None of the
/// three calls panics or reads anything but its arguments.
#[verifier::external_body]
pub(crate) fn version_req_matches(req: &[u8], version: &[u8]) -> (r: Option<bool>)
    ensures
        r == req_match_of(req@, version@),
{
    let req_s = core::str::from_utf8(req).ok()?;
    let ver_s = core::str::from_utf8(version).ok()?;
    let vr = semver::VersionReq::parse(req_s).ok()?;
    let v = semver::Version::parse(ver_s).ok()?;
    Some(vr.matches(&v))
}

} // verus!
