//! Snapshot-based regression testing.
//!
//! A test produces a value; its textual representation is compared against a
//! previously recorded golden value. The test passes if the two match, or if
//! no golden value exists yet, in which case the new value becomes the golden
//! value. The pieces: a snapshot store keyed by stable test identity, a
//! line-oriented diff engine that explains mismatches, a test runner that
//! decides whether to record, compare, or fail, and a report renderer.

pub mod diff;
pub mod error;
pub mod report;
pub mod store;

pub use diff::Diff;
pub use diff::Line;
pub use error::Error;
pub use report::Palette;
pub use report::Report;
pub use report::Style;
pub use store::Store;
pub use test::Builder;
pub use test::Outcome;
pub use test::Test;
