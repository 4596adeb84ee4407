//! The data the command line surface hands to the core: commands, option
//! groups, switches and the outcome of a run.

use vstd::prelude::*;

use crate::compare::Direction;
use crate::exit::EXIT_OK;
use crate::exit::EXIT_OPERATION_FAILURE;
use crate::exit::EXIT_TEST_FAILURE;

verus! {

/// How a run of the program ended.
#[derive(Debug)]
pub enum CliResult {
    /// The run finished and every selected test passed.
    Success,
    /// At least one test failed.
    TestFailure,
    /// The requested operation failed gracefully, with a message and an
    /// optional hint.
    OperationFailure { message: String, hint: Option<String> },
}

impl CliResult {
    /// A graceful operation failure with a message.
    pub fn operation_failure(message: String) -> (r: CliResult)
        ensures
            r matches CliResult::OperationFailure { message: m, hint } ==> m == message
                && hint is None,
            r is OperationFailure,
    {
        CliResult::OperationFailure { message, hint: None }
    }

    /// A graceful operation failure with a message and a hint.
    pub fn hinted_operation_failure(message: String, hint: String) -> (r: CliResult)
        ensures
            r matches CliResult::OperationFailure { message: m, hint: h } ==> m == message && h
                == Some(hint),
            r is OperationFailure,
    {
        CliResult::OperationFailure { message, hint: Some(hint) }
    }

    /// The process exit code this outcome maps to.
    pub fn exit_code(&self) -> (r: u8)
        ensures
            self is Success ==> r == EXIT_OK,
            self is TestFailure ==> r == EXIT_TEST_FAILURE,
            self is OperationFailure ==> r == EXIT_OPERATION_FAILURE,
    {
        match self {
            CliResult::Success => EXIT_OK,
            CliResult::TestFailure => EXIT_TEST_FAILURE,
            CliResult::OperationFailure { .. } => EXIT_OPERATION_FAILURE,
        }
    }
}

/// The output format of the reporter.
#[derive(Debug, Clone, Copy, PartialEq, Eq, Structural)]
pub enum OutputFormat {
    /// Human-readable colored output.
    Pretty,
    /// One line per event, for piping.
    Plain,
}

impl OutputFormat {
    /// Whether this is the human-readable format.
    pub fn is_pretty(&self) -> (r: bool)
        ensures
            r == (*self == OutputFormat::Pretty),
    {
        matches!(self, OutputFormat::Pretty)
    }
}

/// An option that comes as a pair of a flag and an inverse flag.
pub trait Switch: Sized {
    /// The value when neither flag was used.
    fn default_value() -> bool;

    /// The flag that was set, if any.
    fn get(self) -> Option<bool>;

    /// The flag that was set, or the default.
    fn get_or_default(self) -> bool;
}

/// The pair behind `--compare` and `--no-compare`.
#[derive(Debug, Clone, Copy, PartialEq, Eq, Structural)]
pub struct CompareSwitch {
    /// Compare tests if they have references.
    pub compare: bool,
    /// Do not compare tests.
    pub no_compare: bool,
}

impl Switch for CompareSwitch {
    fn default_value() -> bool {
        true
    }

    fn get(self) -> Option<bool> {
        if self.compare {
            Some(true)
        } else if self.no_compare {
            Some(false)
        } else {
            None
        }
    }

    fn get_or_default(self) -> bool {
        match self.get() {
            Some(v) => v,
            None => Self::default_value(),
        }
    }
}

/// The pair behind `--fail-fast` and `--no-fail-fast`.
#[derive(Debug, Clone, Copy, PartialEq, Eq, Structural)]
pub struct FailFastSwitch {
    /// Abort after the first test failure.
    pub fail_fast: bool,
    /// Do not abort after the first test failure.
    pub no_fail_fast: bool,
}

impl Switch for FailFastSwitch {
    fn default_value() -> bool {
        true
    }

    fn get(self) -> Option<bool> {
        if self.fail_fast {
            Some(true)
        } else if self.no_fail_fast {
            Some(false)
        } else {
            None
        }
    }

    fn get_or_default(self) -> bool {
        match self.get() {
            Some(v) => v,
            None => Self::default_value(),
        }
    }
}

/// The pair behind `--skip` and `--no-skip`.
#[derive(Debug, Clone, Copy, PartialEq, Eq, Structural)]
pub struct SkipSwitch {
    /// Automatically remove skipped tests.
    pub skip: bool,
    /// Keep skipped tests in the selection.
    pub no_skip: bool,
}

impl Switch for SkipSwitch {
    fn default_value() -> bool {
        true
    }

    fn get(self) -> Option<bool> {
        if self.skip {
            Some(true)
        } else if self.no_skip {
            Some(false)
        } else {
            None
        }
    }

    fn get_or_default(self) -> bool {
        match self.get() {
            Some(v) => v,
            None => Self::default_value(),
        }
    }
}

/// The pair behind `--optimize-refs` and `--no-optimize-refs`.
#[derive(Debug, Clone, Copy, PartialEq, Eq, Structural)]
pub struct OptimizeRefsSwitch {
    /// Optimise persistent references when writing them.
    pub optimize_refs: bool,
    /// Write persistent references unoptimised.
    pub no_optimize_refs: bool,
}

impl Switch for OptimizeRefsSwitch {
    fn default_value() -> bool {
        true
    }

    fn get(self) -> Option<bool> {
        if self.optimize_refs {
            Some(true)
        } else if self.no_optimize_refs {
            Some(false)
        } else {
            None
        }
    }

    fn get_or_default(self) -> bool {
        match self.get() {
            Some(v) => v,
            None => Self::default_value(),
        }
    }
}

/// Options for loading fonts.
#[derive(Debug, Clone, PartialEq, Eq)]
pub struct FontOptions {
    /// Do not read system fonts.
    pub ignore_system_fonts: bool,
    /// Extra directories to read fonts from.
    pub font_paths: Vec<String>,
}

/// Options for storing and loading packages.
#[derive(Debug, Clone, PartialEq, Eq)]
pub struct PackageOptions {
    /// A custom path to local packages.
    pub package_path: Option<String>,
    /// A custom path to the package cache.
    pub package_cache_path: Option<String>,
    /// A custom CA certificate for network requests.
    pub certificate: Option<String>,
}

/// Options for selecting tests.
#[derive(Debug, Clone, PartialEq, Eq)]
pub struct FilterOptions {
    /// A test-set expression selecting the tests to operate on.
    pub expression: String,
    /// Whether skipped tests leave the selection automatically.
    pub skip: SkipSwitch,
    /// Exact test identifiers to operate on instead of an expression.
    pub tests: Vec<String>,
}

/// Options for compiling documents.
#[derive(Debug, Clone, PartialEq, Eq)]
pub struct CompileOptions {
    /// How warnings are handled.
    pub warnings: Warnings,
}

/// How compiler warnings are handled.
#[derive(Debug, Clone, Copy, PartialEq, Eq, Structural)]
pub enum Warnings {
    /// Drop warnings.
    Ignore,
    /// Report warnings.
    Emit,
    /// Treat warnings as errors.
    Promote,
}

/// Options for comparing output against references.
#[derive(Debug, Clone, Copy, PartialEq, Eq)]
pub struct CompareOptions {
    /// Whether to compare at all.
    pub compare: CompareSwitch,
    /// The largest accepted per-channel difference of a pixel.
    pub max_delta: u8,
    /// The largest accepted number of deviating pixels per page.
    pub max_deviations: usize,
    /// The document direction, for difference images.
    pub direction: Direction,
}

/// Options for the runner.
#[derive(Debug, Clone, Copy, PartialEq, Eq)]
pub struct RunnerOptions {
    /// Whether to stop scheduling after the first failure.
    pub fail_fast: FailFastSwitch,
}

/// Arguments of the run and update commands.
#[derive(Debug, Clone, PartialEq, Eq)]
pub struct RunnerArgs {
    /// Show a summary instead of individual test results.
    pub summary: bool,
}

/// The test selection arguments.
#[derive(Debug, Clone, PartialEq, Eq)]
pub struct TestFilter {
    /// A filter for which tests to run.
    pub filter: Option<String>,
    /// Whether the filter must match exactly.
    pub exact: bool,
    /// Allow operating on more than one test.
    pub all: bool,
}

/// Arguments of a test run.
#[derive(Debug, Clone, PartialEq, Eq)]
pub struct TestArgs {
    /// Whether to abort after the first test failure.
    pub fail_fast: bool,
    /// Whether the test filter must match exactly.
    pub exact: bool,
    /// A filter for which tests to run.
    pub test_filter: Option<String>,
}

/// The commands of the program.
#[derive(Debug, Clone, PartialEq, Eq)]
pub enum Command {
    /// Initialise the project with a test directory.
    Init {
        /// Do not create a default example test.
        no_example: bool,
    },
    /// Remove the test directory from the project.
    Uninit,
    /// Remove test output artefacts.
    Clean,
    /// Show information about the project.
    Status,
    /// List the tests in the project.
    List,
    /// Compile and compare tests.
    Run(RunnerArgs),
    /// Compile tests without comparing.
    Compile(RunnerArgs),
    /// Compile tests and overwrite their references.
    Update {
        /// The runner arguments.
        runner_args: RunnerArgs,
        /// Allow updating more than one test.
        all: bool,
    },
    /// Add a new test.
    Add {
        /// Create the references on the fly from a reference script.
        ephemeral: bool,
        /// Create no references at all.
        compile_only: bool,
        /// Ignore the test template.
        no_template: bool,
        /// The name of the test to add.
        test: String,
    },
    /// Edit existing tests.
    Edit,
    /// Remove tests.
    Remove,
}

/// A marker for a failed operation, carried through error returns.
#[derive(Debug, Clone, Copy, PartialEq, Eq, Structural)]
pub struct OperationFailure;

/// A marker for a failed test run, carried through error returns.
#[derive(Debug, Clone, Copy, PartialEq, Eq, Structural)]
pub struct TestFailure;

} // verus!
