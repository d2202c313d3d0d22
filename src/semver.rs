use crate::parse::{parse_accepts, parse_fails_with, parsed_key, ParseError};
use crate::pattern::{check_outcome, version_start, PatternError};
use crate::version::{compatible_key, featureless_key, lex_cmp, Version};
use std::cmp::Ordering;
use vstd::prelude::*;

verus! {

/// A semantic version number `major.minor.patch`, with the same rules as
/// [`Version`].
#[derive(Clone, Copy, Debug, PartialEq, Eq, Structural, Ord, Hash)]
pub struct SemVer {
    /// Represents incompatible API changes.
    pub major: u32,
    /// Represents functionality additions in a backwards compatible manner.
    pub minor: u32,
    /// Represents bug fixes in a backwards compatible manner.
    pub patch: u32,
}

impl SemVer {
    /// The three numbers, most significant first.
    pub open spec fn key(self) -> (int, int, int) {
        (self.major as int, self.minor as int, self.patch as int)
    }

    /// The same number as a [`Version`].
    fn to_version(&self) -> (r: Version)
        ensures
            r.key() == self.key(),
    {
        Version::new(self.major, self.minor, self.patch)
    }

    /// Creates a version from its three numbers.
    pub fn new(major: u32, minor: u32, patch: u32) -> (r: Self)
        ensures
            r.major == major,
            r.minor == minor,
            r.patch == patch,
    {
        SemVer { major, minor, patch }
    }

    /// Parses `major[.minor[.patch]]` as [`Version::parse`] does.
    pub fn from(s: &str) -> (r: Result<Self, ParseError>)
        ensures
            r is Ok <==> parse_accepts(s@),
            r matches Ok(v) ==> v.key() == parsed_key(s@),
            r matches Err(e) ==> parse_fails_with(s@, e),
    {
        match Version::parse(s) {
            Ok(v) => Ok(SemVer::new(v.major, v.minor, v.patch)),
            Err(e) => Err(e),
        }
    }

    /// Three-way comparison: major first, then minor, then patch.
    pub fn compare(&self, other: &Self) -> (r: Ordering)
        ensures
            r == lex_cmp(self.key(), other.key()),
    {
        self.to_version().compare(&other.to_version())
    }

    /// No breaking change since `other`: see [`compatible_key`].
    pub fn is_compatible(&self, other: &Self) -> (r: bool)
        ensures
            r == compatible_key(self.key(), other.key()),
    {
        self.to_version().is_compatible(&other.to_version())
    }

    /// No new feature since `other`: see [`featureless_key`].
    pub fn is_featureless(&self, other: &Self) -> (r: bool)
        ensures
            r == featureless_key(self.key(), other.key()),
    {
        self.to_version().is_featureless(&other.to_version())
    }

    /// Checks this version against a range pattern, as [`Version::check`] does.
    pub fn check(&self, pattern: &str) -> (r: Result<bool, PatternError>)
        ensures
            match version_start(pattern@) {
                None => r == Err::<bool, PatternError>(PatternError::NoVersionFound),
                Some(d) => check_outcome(
                    self.key(),
                    pattern@.subrange(0, d),
                    pattern@.subrange(d, pattern@.len() as int),
                    r,
                ),
            },
    {
        self.to_version().check(pattern)
    }
}

impl PartialOrd for SemVer {
    fn partial_cmp(&self, other: &Self) -> (r: Option<Ordering>) {
        Some(self.compare(other))
    }
}

impl vstd::std_specs::cmp::PartialOrdSpecImpl for SemVer {
    open spec fn obeys_partial_cmp_spec() -> bool {
        true
    }

    open spec fn partial_cmp_spec(&self, other: &Self) -> Option<Ordering> {
        Some(lex_cmp(self.key(), other.key()))
    }
}

} // verus!
