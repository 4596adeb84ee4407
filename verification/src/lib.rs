//! A verified core for a visual regression test runner for typesetter
//! projects.
//!
//! The library models a test suite laid out on disk: every test lives in its
//! own directory under the test root, carries a script and optionally a set
//! of reference artefacts, and is addressed by a slash-separated identifier.
//! On top of that model it provides the suite lifecycle (create, convert,
//! delete), an ignore-file gate for version control, a document model with a
//! pixel comparator, a filter expression language, and the per-test run state
//! machine with fail-fast and cancellation semantics.
//!
//! All filesystem effects are expressed against an in-memory tree ([`vfs`]);
//! a thin unverified shell replays them onto the real disk.

use vstd::prelude::*;

mod exit;
pub mod id;
pub mod paths;
pub mod document;
pub mod vfs;
pub mod vcs;
pub mod test;
pub mod compare;
pub mod runner;
pub mod test_set;
pub mod suite;
pub mod report;
pub mod cli;
pub mod download;
pub mod xml;
pub mod util;

pub use exit::EXIT_OK;
pub use exit::EXIT_TEST_FAILURE;
pub use exit::EXIT_OPERATION_FAILURE;
pub use exit::EXIT_ERROR;

verus! {

} // verus!
