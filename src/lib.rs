//! Semantic version numbers: parsing `major.minor.patch` text, ordering
//! versions, and checking a version against range patterns such as `^1.2.0`.

pub mod laws;
pub mod parse;
pub mod pattern;
pub mod semver;
pub mod version;

pub use crate::parse::ParseError;
pub use crate::pattern::{Operator, PatternError};
pub use crate::semver::SemVer;
pub use crate::version::Version;
