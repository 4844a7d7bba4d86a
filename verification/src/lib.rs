//! Parsing, ordering and rendering of free-form version identifiers.
//!
//! A version string such as `"1:2.3.4-alpha+001"` is parsed into a
//! [`Version`] record holding an optional epoch, the dot/hyphen separated
//! components of the main body, an optional pre-release tag and optional
//! build metadata.  Records are ranked by epoch, then component by
//! component, then by pre-release tag; build metadata never affects rank.

pub mod text;
pub mod version;
pub mod parse;
pub mod order;
pub mod render;

pub use version::Version;
