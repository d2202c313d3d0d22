use crate::parse::{
    chars_of, is_digit, lemma_first_index, parse_accepts, parse_fails_with, parse_range, parsed_key,
    ParseError,
};
use crate::pattern::{
    check_outcome, operator_in, satisfies_key, version_start, Operator, PatternError,
};
use std::cmp::Ordering;
use vstd::prelude::*;

verus! {

/// Orders integer triples lexicographically.
pub open spec fn lex_cmp(a: (int, int, int), b: (int, int, int)) -> Ordering {
    if a.0 < b.0 {
        Ordering::Less
    } else if a.0 > b.0 {
        Ordering::Greater
    } else if a.1 < b.1 {
        Ordering::Less
    } else if a.1 > b.1 {
        Ordering::Greater
    } else if a.2 < b.2 {
        Ordering::Less
    } else if a.2 > b.2 {
        Ordering::Greater
    } else {
        Ordering::Equal
    }
}

/// `a` comes strictly before `b`.
pub open spec fn lex_lt(a: (int, int, int), b: (int, int, int)) -> bool {
    lex_cmp(a, b) == Ordering::Less
}

/// No new feature from `b` up to `a`: `b <= a < b.major.(b.minor + 1).0`.
pub open spec fn featureless_key(a: (int, int, int), b: (int, int, int)) -> bool {
    !lex_lt(a, b) && lex_lt(a, (b.0, b.1 + 1, 0))
}

/// No breaking change from `b` up to `a`: `b <= a < (b.major + 1).0.0`, or
/// where `a`'s major is 0, no new feature.
pub open spec fn compatible_key(a: (int, int, int), b: (int, int, int)) -> bool {
    if a.0 == 0 {
        featureless_key(a, b)
    } else {
        !lex_lt(a, b) && lex_lt(a, (b.0 + 1, 0, 0))
    }
}

/// A semantic version number `major.minor.patch`.
#[derive(Clone, Copy, Debug, PartialEq, Eq, Structural, Ord, Hash)]
pub struct Version {
    /// Represents incompatible API changes.
    pub major: u32,
    /// Represents functionality additions in a backwards compatible manner.
    pub minor: u32,
    /// Represents bug fixes in a backwards compatible manner.
    pub patch: u32,
}

impl Version {
    /// The three numbers, most significant first.
    pub open spec fn key(self) -> (int, int, int) {
        (self.major as int, self.minor as int, self.patch as int)
    }

    /// Creates a version from its three numbers.
    pub fn new(major: u32, minor: u32, patch: u32) -> (r: Self)
        ensures
            r.major == major,
            r.minor == minor,
            r.patch == patch,
    {
        Version { major, minor, patch }
    }

    /// Three-way comparison: major first, then minor, then patch.
    pub fn compare(&self, other: &Self) -> (r: Ordering)
        ensures
            r == lex_cmp(self.key(), other.key()),
    {
        if self.major != other.major {
            if self.major < other.major { Ordering::Less } else { Ordering::Greater }
        } else if self.minor != other.minor {
            if self.minor < other.minor { Ordering::Less } else { Ordering::Greater }
        } else if self.patch != other.patch {
            if self.patch < other.patch { Ordering::Less } else { Ordering::Greater }
        } else {
            Ordering::Equal
        }
    }

    /// Parses `major[.minor[.patch]]`: one to three dot-separated decimal
    /// numbers, missing ones taken as 0.
    pub fn parse(s: &str) -> (r: Result<Self, ParseError>)
        ensures
            r is Ok <==> parse_accepts(s@),
            r matches Ok(v) ==> v.key() == parsed_key(s@),
            r matches Err(e) ==> parse_fails_with(s@, e),
    {
        let cs = chars_of(s);
        let r = parse_range(s, &cs, 0, cs.len());
        assert(cs@.subrange(0, cs@.len() as int) =~= s@);
        r
    }

    /// No breaking change since `other`: see [`compatible_key`].
    pub fn is_compatible(&self, other: &Self) -> (r: bool)
        ensures
            r == compatible_key(self.key(), other.key()),
    {
        if self.major == 0 {
            return self.is_featureless(other);
        }
        !matches!(self.compare(other), Ordering::Less) && self.major == other.major
    }

    /// No new feature since `other`: see [`featureless_key`].
    pub fn is_featureless(&self, other: &Self) -> (r: bool)
        ensures
            r == featureless_key(self.key(), other.key()),
    {
        !matches!(self.compare(other), Ordering::Less) && self.major == other.major && self.minor
            == other.minor
    }

    /// Whether this version stands in relation `op` to `other`.
    pub fn satisfies(&self, op: Operator, other: &Self) -> (r: bool)
        ensures
            r == satisfies_key(op, self.key(), other.key()),
    {
        let c = self.compare(other);
        match op {
            Operator::Exact => matches!(c, Ordering::Equal),
            Operator::Less => matches!(c, Ordering::Less),
            Operator::Greater => matches!(c, Ordering::Greater),
            Operator::LessOrEqual => !matches!(c, Ordering::Greater),
            Operator::GreaterOrEqual => !matches!(c, Ordering::Less),
            Operator::Compatible => self.is_compatible(other),
            Operator::Featureless => self.is_featureless(other),
        }
    }

    /// Checks this version against a range pattern: an operator (`=`, `<`,
    /// `>`, `<=`, `>=`, `^` or `~`) directly followed by a version. The
    /// version starts at the pattern's first decimal digit.
    pub fn check(&self, pattern: &str) -> (r: Result<bool, PatternError>)
        ensures
            match version_start(pattern@) {
                None => r == Err::<bool, PatternError>(PatternError::NoVersionFound),
                Some(d) => check_outcome(
                    self.key(),
                    pattern@.subrange(0, d),
                    pattern@.subrange(d, pattern@.len() as int),
                    r,
                ),
            },
    {
        let cs = chars_of(pattern);
        let n = cs.len();
        let mut d: usize = 0;
        while d < n && !('0' <= cs[d] && cs[d] <= '9')
            invariant
                n == cs.len(),
                d <= n,
                forall|j: int| 0 <= j < d ==> !is_digit(#[trigger] cs@[j]),
            decreases n - d,
        {
            d = d + 1;
        }
        proof {
            lemma_first_index(cs@, |c: char| is_digit(c));
        }
        if d == n {
            return Err(PatternError::NoVersionFound);
        }
        let other = match parse_range(pattern, &cs, d, n) {
            Ok(v) => v,
            Err(e) => return Err(PatternError::Parse(e)),
        };
        match operator_in(&cs, d) {
            Some(op) => Ok(self.satisfies(op, &other)),
            None => Err(
                PatternError::UnknownOperator(pattern.substring_char(0, d).to_owned()),
            ),
        }
    }
}

impl std::str::FromStr for Version {
    type Err = ParseError;

    fn from_str(s: &str) -> (r: Result<Self, Self::Err>)
        ensures
            r is Ok <==> parse_accepts(s@),
            r matches Ok(v) ==> v.key() == parsed_key(s@),
            r matches Err(e) ==> parse_fails_with(s@, e),
    {
        Version::parse(s)
    }
}

impl PartialOrd for Version {
    fn partial_cmp(&self, other: &Self) -> (r: Option<Ordering>) {
        Some(self.compare(other))
    }
}

impl vstd::std_specs::cmp::PartialOrdSpecImpl for Version {
    open spec fn obeys_partial_cmp_spec() -> bool {
        true
    }

    open spec fn partial_cmp_spec(&self, other: &Self) -> Option<Ordering> {
        Some(lex_cmp(self.key(), other.key()))
    }
}


} // verus!
