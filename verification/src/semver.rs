//! A basic semantic-version parser: the components are split out so that a
//! build script can be handed the major, minor and patch parts.
//!
//! The pre-release and build segments are not validated against the full
//! grammar, only split off.

use vstd::prelude::*;

use crate::bytes;
use crate::error::{Error, ErrorKind};

verus! {

/// A parsed version: the original text plus its components.
#[derive(Clone, Debug, PartialEq, Eq)]
pub struct Version {
    pub original: Vec<u8>,
    pub major: Vec<u8>,
    pub minor: Vec<u8>,
    pub patch: Vec<u8>,
    pub pre: Option<Vec<u8>>,
    pub build: Option<Vec<u8>>,
}

/// All bytes are ASCII digits, and there is at least one.
pub open spec fn is_digits(s: Seq<u8>) -> bool {
    s.len() > 0 && forall|i: int| 0 <= i < s.len() ==> '0' as u8 <= #[trigger] s[i] <= '9' as u8
}

/// The number the digit string denotes.
pub open spec fn digits_val(s: Seq<u8>) -> int
    decreases s.len(),
{
    if s.len() == 0 {
        0
    } else {
        digits_val(s.take(s.len() - 1)) * 10 + (s[s.len() - 1] - ('0' as u8))
    }
}

/// A valid numeric component: digits only, fits in 64 bits, and no leading
/// zero unless the value is zero.
pub open spec fn spec_numeric_ok(s: Seq<u8>) -> bool {
    &&& is_digits(s)
    &&& digits_val(s) <= u64::MAX
    &&& !(digits_val(s) != 0 && s[0] == '0' as u8)
}

proof fn lemma_digits_val_nonneg(s: Seq<u8>)
    requires
        forall|i: int| 0 <= i < s.len() ==> '0' as u8 <= #[trigger] s[i] <= '9' as u8,
    ensures
        digits_val(s) >= 0,
    decreases s.len(),
{
    if s.len() > 0 {
        let t = s.take(s.len() - 1);
        assert forall|i: int| 0 <= i < t.len() implies '0' as u8 <= #[trigger] t[i] <= '9' as u8 by {
            assert(t[i] == s[i]);
        }
        lemma_digits_val_nonneg(t);
    }
}

/// Appending digits can only increase the value.
proof fn lemma_digits_val_prefix_le(s: Seq<u8>, k: int)
    requires
        0 <= k <= s.len(),
        forall|i: int| 0 <= i < s.len() ==> '0' as u8 <= #[trigger] s[i] <= '9' as u8,
    ensures
        digits_val(s.take(k)) <= digits_val(s),
    decreases s.len() - k,
{
    if k < s.len() {
        let t = s.take(k + 1);
        assert(t.take(k) =~= s.take(k));
        assert(digits_val(t) == digits_val(s.take(k)) * 10 + (s[k] - ('0' as u8)));
        assert forall|i: int| 0 <= i < s.take(k).len() implies '0' as u8 <= #[trigger] s.take(k)[i]
            <= '9' as u8 by {
            assert(s.take(k)[i] == s[i]);
        }
        lemma_digits_val_nonneg(s.take(k));
        assert(digits_val(s.take(k)) <= digits_val(t));
        lemma_digits_val_prefix_le(s, k + 1);
    } else {
        assert(s.take(k) =~= s);
    }
}

/// Parse a numeric version component. Returns its value exactly on the
/// valid components.
pub fn parse_numeric(s: &[u8]) -> (r: Option<u64>)
    ensures
        match r {
            Some(n) => spec_numeric_ok(s@) && n == digits_val(s@),
            None => !spec_numeric_ok(s@),
        },
{
    if s.len() == 0 {
        return None;
    }
    let mut acc: u64 = 0;
    let mut i: usize = 0;
    while i < s.len()
        invariant
            i <= s@.len(),
            forall|j: int| 0 <= j < i ==> '0' as u8 <= #[trigger] s@[j] <= '9' as u8,
            acc == digits_val(s@.take(i as int)),
        decreases s.len() - i,
    {
        let c = s[i];
        if c < '0' as u8 || c > '9' as u8 {
            return None;
        }
        let d: u64 = (c - '0' as u8) as u64;
        proof {
            assert(s@.take(i + 1 as int).take(i as int) =~= s@.take(i as int));
            assert(digits_val(s@.take(i + 1 as int)) == digits_val(s@.take(i as int)) * 10 + (
            s@[i as int] - ('0' as u8)));
        }
        if acc > 1844674407370955161u64 || (acc == 1844674407370955161u64 && d > 5) {
            proof {
                if is_digits(s@) {
                    lemma_digits_val_prefix_le(s@, i + 1);
                }
            }
            return None;
        }
        acc = acc * 10 + d;
        i += 1;
    }
    proof {
        assert(s@.take(s@.len() as int) =~= s@);
    }
    if acc != 0 && s[0] == '0' as u8 {
        return None;
    }
    Some(acc)
}

/// The parsed components of a version string, or `None` where the string is
/// not a valid version: splits on the first two `.`, the last `+` (build
/// metadata, kept only when nonempty), the first `-` of the remainder
/// (pre-release, kept only when nonempty), and requires the three numeric
/// components to be valid.
pub open spec fn spec_parse_version(s: Seq<u8>) -> Option<
    (Seq<u8>, Seq<u8>, Seq<u8>, Option<Seq<u8>>, Option<Seq<u8>>),
> {
    if s.len() == 0 {
        None
    } else {
        match bytes::find_first(s, '.' as u8) {
            None => None,
            Some(d1) => {
                let major = s.take(d1);
                let s1 = s.skip(d1 + 1);
                match bytes::find_first(s1, '.' as u8) {
                    None => None,
                    Some(d2) => {
                        let minor = s1.take(d2);
                        let s2 = s1.skip(d2 + 1);
                        let bsplit = bytes::find_last(s2, '+' as u8);
                        let has_build = bsplit is Some && bsplit->0 + 1 < s2.len();
                        let s3 = if has_build {
                            s2.take(bsplit->0)
                        } else {
                            s2
                        };
                        let build = if has_build {
                            Some(s2.skip(bsplit->0 + 1))
                        } else {
                            None
                        };
                        let psplit = bytes::find_first(s3, '-' as u8);
                        let has_pre = psplit is Some && psplit->0 + 1 < s3.len();
                        let patch = if has_pre {
                            s3.take(psplit->0)
                        } else {
                            s3
                        };
                        let pre = if has_pre {
                            Some(s3.skip(psplit->0 + 1))
                        } else {
                            None
                        };
                        if spec_numeric_ok(major) && spec_numeric_ok(minor) && spec_numeric_ok(
                            patch,
                        ) {
                            Some((major, minor, patch, pre, build))
                        } else {
                            None
                        }
                    },
                }
            },
        }
    }
}

impl Version {
    pub fn as_str(&self) -> (r: &Vec<u8>)
        ensures
            r@ == self.original@,
    {
        &self.original
    }

    pub fn major(&self) -> (r: &Vec<u8>)
        ensures
            r@ == self.major@,
    {
        &self.major
    }

    pub fn minor(&self) -> (r: &Vec<u8>)
        ensures
            r@ == self.minor@,
    {
        &self.minor
    }

    pub fn patch(&self) -> (r: &Vec<u8>)
        ensures
            r@ == self.patch@,
    {
        &self.patch
    }

    pub fn pre(&self) -> (r: &Option<Vec<u8>>)
        ensures
            r == &self.pre,
    {
        &self.pre
    }

    pub fn build(&self) -> (r: &Option<Vec<u8>>)
        ensures
            r == &self.build,
    {
        &self.build
    }

    /// Parse a version string. Succeeds exactly on the valid versions and
    /// returns exactly their components.
    pub fn from_str(s: &[u8]) -> (r: Result<Version, Error>)
        ensures
            match r {
                Ok(v) => spec_parse_version(s@) == Some(
                    (v.major@, v.minor@, v.patch@, v.pre.deep_view(), v.build.deep_view()),
                ) && v.original@ == s@,
                Err(e) => spec_parse_version(s@) is None && e.kind == ErrorKind::Parse,
            },
    {
        match Self::parse(s) {
            Some(v) => Ok(v),
            None => Err(
                Error::from_display("not a valid semver version").with_kind(ErrorKind::Parse),
            ),
        }
    }

    #[verifier::rlimit(100)]
    fn parse(s: &[u8]) -> (r: Option<Version>)
        ensures
            match r {
                Some(v) => spec_parse_version(s@) == Some(
                    (v.major@, v.minor@, v.patch@, v.pre.deep_view(), v.build.deep_view()),
                ) && v.original@ == s@,
                None => spec_parse_version(s@) is None,
            },
    {
        if s.len() == 0 {
            return None;
        }
        let d1 = match bytes::find_byte(s, '.' as u8) {
            Some(d1) => {
                proof {
                    bytes::lemma_find_first_unique(s@, '.' as u8, d1 as int);
                }
                d1
            },
            None => {
                proof {
                    bytes::lemma_find_first_none(s@, '.' as u8);
                }
                return None;
            },
        };
        let major = bytes::copy_range(s, 0, d1);
        let s1 = bytes::copy_range(s, d1 + 1, s.len());
        proof {
            assert(major@ =~= s@.take(d1 as int));
            assert(s1@ =~= s@.skip(d1 + 1 as int));
        }
        let d2 = match bytes::find_byte(s1.as_slice(), '.' as u8) {
            Some(d2) => {
                proof {
                    bytes::lemma_find_first_unique(s1@, '.' as u8, d2 as int);
                }
                d2
            },
            None => {
                proof {
                    bytes::lemma_find_first_none(s1@, '.' as u8);
                }
                return None;
            },
        };
        let minor = bytes::copy_range(s1.as_slice(), 0, d2);
        let s2 = bytes::copy_range(s1.as_slice(), d2 + 1, s1.len());
        proof {
            assert(minor@ =~= s1@.take(d2 as int));
            assert(s2@ =~= s1@.skip(d2 + 1 as int));
        }

        let bsplit = bytes::rfind_byte(s2.as_slice(), '+' as u8);
        proof {
            match bsplit {
                Some(p) => bytes::lemma_find_last_unique(s2@, '+' as u8, p as int),
                None => bytes::lemma_find_last_none(s2@, '+' as u8),
            }
        }
        let (s3, build): (Vec<u8>, Option<Vec<u8>>) = match bsplit {
            Some(p) if p + 1 < s2.len() => {
                let s3 = bytes::copy_range(s2.as_slice(), 0, p);
                let b = bytes::copy_range(s2.as_slice(), p + 1, s2.len());
                proof {
                    assert(s3@ =~= s2@.take(p as int));
                    assert(b@ =~= s2@.skip(p + 1 as int));
                }
                (s3, Some(b))
            },
            _ => {
                let s3 = bytes::copy_range(s2.as_slice(), 0, s2.len());
                proof {
                    assert(s3@ =~= s2@);
                }
                (s3, None)
            },
        };

        let psplit = bytes::find_byte(s3.as_slice(), '-' as u8);
        proof {
            match psplit {
                Some(q) => bytes::lemma_find_first_unique(s3@, '-' as u8, q as int),
                None => bytes::lemma_find_first_none(s3@, '-' as u8),
            }
        }
        let (patch, pre): (Vec<u8>, Option<Vec<u8>>) = match psplit {
            Some(q) if q + 1 < s3.len() => {
                let patch = bytes::copy_range(s3.as_slice(), 0, q);
                let p = bytes::copy_range(s3.as_slice(), q + 1, s3.len());
                proof {
                    assert(patch@ =~= s3@.take(q as int));
                    assert(p@ =~= s3@.skip(q + 1 as int));
                }
                (patch, Some(p))
            },
            _ => {
                let patch = bytes::copy_range(s3.as_slice(), 0, s3.len());
                proof {
                    assert(patch@ =~= s3@);
                }
                (patch, None)
            },
        };

        if parse_numeric(major.as_slice()).is_none() {
            return None;
        }
        if parse_numeric(minor.as_slice()).is_none() {
            return None;
        }
        if parse_numeric(patch.as_slice()).is_none() {
            return None;
        }

        let original = bytes::copy_range(s, 0, s.len());
        proof {
            assert(original@ =~= s@);
        }
        Some(Version { original, major, minor, patch, pre, build })
    }
}

} // verus!
