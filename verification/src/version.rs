//! Tool versions: an exact (major, minor, patch) triple, ordered
//! lexicographically, plus parsing of version text.

use vstd::prelude::*;

verus! {

/// Version of a tool, compared lexicographically by (major, minor, patch).
#[derive(Clone, Copy, Debug, PartialEq, Eq, Structural)]
pub struct Version {
    pub major: u64,
    pub minor: u64,
    pub patch: u64,
}

/// Strict lexicographic order on versions.
pub open spec fn version_lt(a: Version, b: Version) -> bool {
    ||| a.major < b.major
    ||| (a.major == b.major && a.minor < b.minor)
    ||| (a.major == b.major && a.minor == b.minor && a.patch < b.patch)
}

impl Version {
    /// True when `self` is strictly older than `other`.
    pub fn is_older_than(&self, other: &Version) -> (r: bool)
        ensures
            r == version_lt(*self, *other),
    {
        if self.major != other.major {
            self.major < other.major
        } else if self.minor != other.minor {
            self.minor < other.minor
        } else {
            self.patch < other.patch
        }
    }
}

/// Versions are totally ordered: of two versions exactly one of
/// older-than, equal, and newer-than holds, and the order is transitive.
/// This is what makes spec iteration and deduplication deterministic.
pub proof fn lemma_version_order_total(a: Version, b: Version, c: Version)
    ensures
        version_lt(a, b) || version_lt(b, a) || a == b,
        version_lt(a, b) ==> !version_lt(b, a) && a != b,
        version_lt(a, b) && version_lt(b, c) ==> version_lt(a, c),
{
}

/// The version that standard semantic-version parsing reads out of `s`:
/// its numeric (major, minor, patch) triple, or `None` where `s` is not a
/// well-formed semantic version.
pub uninterp spec fn parsed_version(s: Seq<char>) -> Option<Version>;

/// Relies on semver's `Version::parse`: the numeric triple it returns is a
/// function of the text alone; parse failure is reported as an error value.
#[verifier::external_body]
pub(crate) fn semver_parse(s: &str) -> (r: Option<Version>)
    ensures
        r == parsed_version(s@),
{
    match semver::Version::parse(s) {
        Ok(v) => Some(Version { major: v.major, minor: v.minor, patch: v.patch }),
        Err(_) => None,
    }
}

} // verus!
