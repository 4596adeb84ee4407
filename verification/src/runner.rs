//! The run pipeline: the per-test state machine (load, compile, render,
//! compare or update), fail-fast and cancellation semantics, and result
//! aggregation.
//!
//! Compilation and rendering are outside work: the shell compiles the
//! scripts and hands the rendered pages in; everything that is decided from
//! them is decided here.

use vstd::prelude::*;

use crate::compare::CompareError;
use crate::compare::Strategy;
use crate::compare::compare_pages;
use crate::compare::diff_page;
use crate::compare::spec_page_passes_v;
use crate::document::Document;
use crate::document::LoadError;
use crate::paths::Paths;
use crate::test::ReferenceKind;
use crate::test::Test;
use crate::test::spec_diff_dir;
use crate::test::spec_make_persistent;
use crate::test::spec_ref_dir;
use crate::test::vk_of;
use crate::vcs::Vcs;
use crate::vfs::FsError;
use crate::vfs::Vfs;

verus! {

/// How serious a compiler diagnostic is.
#[derive(Debug, Clone, Copy, PartialEq, Eq, Hash, Structural)]
pub enum Severity {
    /// The compilation failed.
    Error,
    /// The compilation went through with a warning.
    Warning,
}

/// A structured compiler diagnostic, passed through unchanged to reporting:
/// severity, message, hints, and the source position it points at.
#[derive(Debug, Clone, PartialEq, Eq)]
pub struct Diagnostic {
    /// How serious the diagnostic is.
    pub severity: Severity,
    /// The diagnostic message.
    pub message: String,
    /// Additional hints.
    pub hints: Vec<String>,
    /// The file the span points into, if resolved.
    pub file: Option<String>,
    /// The start of the span, as a byte offset.
    pub span_start: u64,
    /// The end of the span, as a byte offset.
    pub span_end: u64,
}

/// A failed compilation: its error diagnostics.
#[derive(Debug, Clone, PartialEq, Eq)]
pub struct CompileError {
    /// The errors the compiler reported.
    pub diagnostics: Vec<Diagnostic>,
}

/// What the outside compiler produced for one test: the rendered output
/// document, the warnings, and for an ephemeral test the rendered reference
/// document.
pub struct CompiledTest {
    /// The compiled and rendered test script.
    pub output: Result<Document, CompileError>,
    /// The warnings of the run, kept even on failure.
    pub warnings: Vec<Diagnostic>,
    /// The compiled and rendered reference script of an ephemeral test.
    pub reference: Option<Result<Document, CompileError>>,
}

/// How the runner treats each test.
#[derive(Debug, Clone, Copy, PartialEq, Eq)]
pub struct RunnerPolicy {
    /// Compare rendered output against references.
    pub compare: bool,
    /// Write rendered output over the stored references instead of
    /// comparing.
    pub update: bool,
    /// Whether updated references are optimised when written to disk.
    pub optimize: bool,
    /// Stop scheduling new tests after the first failure.
    pub fail_fast: bool,
    /// Write difference images for failing pages.
    pub export_diff: bool,
    /// The comparison tolerances.
    pub strategy: Strategy,
}

/// The stage a finished test reached.
#[derive(Debug, Clone, PartialEq, Eq)]
pub enum Stage {
    /// The test was never started: the run was cancelled or stopped early.
    Skipped,
    /// The test did not match the filter.
    Filtered,
    /// Compiling the test script, or with `is_reference` the reference
    /// script, failed.
    FailedCompilation { error: CompileError, is_reference: bool },
    /// The rendered output did not match the references.
    FailedComparison(CompareError),
    /// The test compiled; nothing was compared.
    PassedCompilation,
    /// The rendered output matched the references.
    PassedComparison,
    /// The references were overwritten with the rendered output.
    Updated { optimized: bool },
}

/// Whether a stage counts as a failure.
pub open spec fn spec_is_fail(stage: Stage) -> bool {
    stage is FailedCompilation || stage is FailedComparison
}

/// The result of one test.
#[derive(Debug, Clone, PartialEq, Eq)]
pub struct TestResult {
    /// The test this result belongs to.
    pub id: crate::id::Id,
    /// The stage the test reached.
    pub stage: Stage,
    /// The compiler warnings, kept even on failure.
    pub warnings: Vec<Diagnostic>,
    /// How long the test took, in milliseconds.
    pub duration_ms: u64,
}

impl TestResult {
    /// Whether this result is a failure.
    pub fn is_fail(&self) -> (r: bool)
        ensures
            r == spec_is_fail(self.stage),
    {
        matches!(self.stage, Stage::FailedCompilation { .. } | Stage::FailedComparison(_))
    }
}

/// An error that aborts the run as a whole rather than failing one test.
#[derive(Debug, Clone, PartialEq, Eq)]
pub enum RunError {
    /// Stored references could not be loaded.
    Load(LoadError),
    /// The tree could not be changed as the update asked.
    Fs(FsError),
}

/// Whether a page pair fits within the renderable bounds of a difference
/// image.
pub open spec fn spec_pair_bounds_ok(o: crate::document::PageV, rf: crate::document::PageV) -> bool {
    &&& o.width * o.height <= u32::MAX
    &&& rf.width * rf.height <= u32::MAX
    &&& (if o.width >= rf.width {
        o.width
    } else {
        rf.width
    }) * (if o.height >= rf.height {
        o.height
    } else {
        rf.height
    }) * 4 <= u32::MAX
}

/// Checks the difference-image bounds of a page pair.
fn pair_bounds_ok(o: &crate::document::Page, rf: &crate::document::Page) -> (r: bool)
    ensures
        r == spec_pair_bounds_ok(o@, rf@),
{
    let ow = o.width as u64;
    let oh = o.height as u64;
    let rw = rf.width as u64;
    let rh = rf.height as u64;
    let mw = if ow >= rw {
        ow
    } else {
        rw
    };
    let mh = if oh >= rh {
        oh
    } else {
        rh
    };
    proof {
        assert(ow * oh <= u64::MAX && rw * rh <= u64::MAX) by (nonlinear_arith)
            requires
                ow <= u32::MAX && oh <= u32::MAX && rw <= u32::MAX && rh <= u32::MAX,
        ;
        assert((mw as u128) * (mh as u128) * 4 <= u128::MAX) by (nonlinear_arith)
            requires
                mw <= u32::MAX && mh <= u32::MAX,
        ;
    }
    ow * oh <= u32::MAX as u64 && rw * rh <= u32::MAX as u64 && (mw as u128) * (mh as u128) * 4
        <= u32::MAX as u128
}

/// Runs one test through its state machine.
///
/// The order of stages is fixed: a failed compilation of the test script
/// ends the test; a compile-only test or a run without comparison passes by
/// compiling; in update mode the rendered output replaces the stored
/// references; otherwise the output is compared against the rendered
/// reference of an ephemeral test or the stored reference of a persistent
/// one. An ephemeral test whose reference script failed to compile fails
/// with `is_reference` set.
pub fn run_test(
    test: &mut Test,
    vfs: &mut Vfs,
    paths: &Paths,
    vcs: Option<&Vcs>,
    policy: &RunnerPolicy,
    compiled: CompiledTest,
    duration_ms: u64,
) -> (r: Result<TestResult, RunError>)
    requires
        old(test).wf(),
        old(vfs).wf(),
        old(test).spec_ref_kind() == Some(ReferenceKind::Ephemeral) ==> compiled.reference is Some,
        compiled.output matches Ok(d) ==> d.wf(),
        compiled.reference matches Some(Ok(d)) ==> d.wf(),
    ensures
        final(vfs).wf(),
        final(test).wf(),
        final(test).spec_id() == old(test).spec_id(),
        match r {
            Ok(res) => {
                &&& res.id@ == old(test).spec_id()@
                &&& res.warnings == compiled.warnings
                &&& res.duration_ms == duration_ms
                &&& !(res.stage is Skipped) && !(res.stage is Filtered)
                &&& (compiled.output matches Err(e) ==> res.stage == Stage::FailedCompilation {
                    error: e,
                    is_reference: false,
                })
                &&& (compiled.output is Ok && (old(test).spec_ref_kind() is None || (!policy.compare
                    && !policy.update)) ==> res.stage == Stage::PassedCompilation)
                &&& (compiled.output is Ok && old(test).spec_ref_kind() is Some && policy.update
                    ==> res.stage == Stage::Updated { optimized: policy.optimize }
                        && final(test).spec_ref_kind() == Some(ReferenceKind::Persistent)
                        && final(vfs)@ == spec_make_persistent(
                        old(vfs)@,
                        paths,
                        &old(test).spec_id(),
                        compiled.output->Ok_0@,
                        vk_of(vcs),
                    ))
                &&& (compiled.reference matches Some(Err(e)) ==> ((compiled.output is Ok && old(
                    test,
                ).spec_ref_kind() == Some(ReferenceKind::Ephemeral) && policy.compare
                    && !policy.update) ==> res.stage == Stage::FailedCompilation {
                    error: e,
                    is_reference: true,
                }))
                &&& (compiled.reference matches Some(Ok(refdoc)) ==> ((compiled.output is Ok && old(
                    test,
                ).spec_ref_kind() == Some(ReferenceKind::Ephemeral) && policy.compare
                    && !policy.update) ==> ((res.stage is PassedComparison <==> (
                compiled.output->Ok_0@.len() == refdoc@.len() && (forall|i: int|
                    0 <= i < compiled.output->Ok_0@.len() ==> spec_page_passes_v(
                        #[trigger] compiled.output->Ok_0@[i],
                        refdoc@[i],
                        policy.strategy,
                    )))) && (res.stage is PassedComparison || res.stage is FailedComparison))))
                &&& (compiled.reference matches Some(Ok(refdoc)) ==> (res.stage matches
                Stage::FailedComparison(ce) ==> ((old(test).spec_ref_kind() == Some(
                    ReferenceKind::Ephemeral,
                ) && policy.export_diff) ==> (forall|a: int|
                    0 <= a < ce.pages@.len() && (#[trigger] ce.pages@[a]).0
                        < compiled.output->Ok_0@.len() && ce.pages@[a].0 < refdoc@.len()
                        && spec_pair_bounds_ok(
                        compiled.output->Ok_0@[ce.pages@[a].0 as int],
                        refdoc@[ce.pages@[a].0 as int],
                    ) ==> final(vfs)@.dom().contains(
                        spec_diff_dir(paths, &old(test).spec_id()).push(
                            crate::document::page_file_name((ce.pages@[a].0 + 1) as nat),
                        ),
                    ) && final(vfs)@[spec_diff_dir(paths, &old(test).spec_id()).push(
                        crate::document::page_file_name((ce.pages@[a].0 + 1) as nat),
                    )] is File))))
            },
            Err(_) => true,
        },
        r matches Err(RunError::Load(_)) ==> compiled.output is Ok && old(test).spec_ref_kind()
            == Some(ReferenceKind::Persistent) && policy.compare && !policy.update,
        r matches Err(RunError::Fs(_)) ==> compiled.output is Ok && old(test).spec_ref_kind()
            is Some && (policy.update || (policy.compare && policy.export_diff)),
        (compiled.output is Ok && old(test).spec_ref_kind() is Some && policy.update
            && crate::test::spec_can_make_persistent(
            old(vfs)@,
            paths,
            &old(test).spec_id(),
            vk_of(vcs),
        )) ==> r is Ok,
        (compiled.output is Ok && old(test).spec_ref_kind() == Some(ReferenceKind::Ephemeral)
            && !policy.update && !policy.export_diff) ==> r is Ok,
        (compiled.output is Ok && old(test).spec_ref_kind() == Some(ReferenceKind::Persistent)
            && policy.compare && !policy.update && !policy.export_diff && (exists|n: u64|
            #[trigger] crate::document::spec_pages_exact(
                old(vfs)@,
                spec_ref_dir(paths, &old(test).spec_id()),
                n,
            ))) ==> r is Ok,
        (!policy.update && !policy.export_diff) ==> final(vfs)@ == old(vfs)@,
{
    let ghost id0 = test.spec_id();
    let doc = match compiled.output {
        Ok(doc) => doc,
        Err(error) => {
            return Ok(
                TestResult {
                    id: test.id().duplicate(),
                    stage: Stage::FailedCompilation { error, is_reference: false },
                    warnings: compiled.warnings,
                    duration_ms,
                },
            );
        },
    };
    if test.is_compile_only() || (!policy.compare && !policy.update) {
        return Ok(
            TestResult {
                id: test.id().duplicate(),
                stage: Stage::PassedCompilation,
                warnings: compiled.warnings,
                duration_ms,
            },
        );
    }
    if policy.update {
        match test.make_persistent(vfs, paths, vcs, &doc) {
            Ok(()) => {},
            Err(e) => {
                proof {
                    if crate::test::spec_can_make_persistent(
                        old(vfs)@,
                        paths,
                        &old(test).spec_id(),
                        vk_of(vcs),
                    ) {
                        assert(false);
                    }
                }
                return Err(RunError::Fs(e));
            },
        }
        return Ok(
            TestResult {
                id: test.id().duplicate(),
                stage: Stage::Updated { optimized: policy.optimize },
                warnings: compiled.warnings,
                duration_ms,
            },
        );
    }
    // comparison: pick the reference document
    let reference: Document;
    if test.is_ephemeral() {
        reference = match compiled.reference {
            Some(Ok(d)) => d,
            Some(Err(error)) => {
                return Ok(
                    TestResult {
                        id: test.id().duplicate(),
                        stage: Stage::FailedCompilation { error, is_reference: true },
                        warnings: compiled.warnings,
                        duration_ms,
                    },
                );
            },
            None => unreached(),
        };
    } else {
        reference = match test.load_reference_document(vfs, paths) {
            Ok(Some(d)) => d,
            Ok(None) => {
                proof {
                    assert(test.spec_ref_kind() == Some(ReferenceKind::Persistent));
                }
                unreached()
            },
            Err(e) => {
                return Err(RunError::Load(e));
            },
        };
    }
    let out_pages = doc.pages();
    let ref_pages = reference.pages();
    proof {
        assert(forall|i: int|
            0 <= i < out_pages@.len() ==> (#[trigger] out_pages@[i])@ == out_pages.deep_view()[i]);
        assert(forall|i: int|
            0 <= i < ref_pages@.len() ==> (#[trigger] ref_pages@[i])@ == ref_pages.deep_view()[i]);
    }
    let stage = match compare_pages(out_pages, ref_pages, &policy.strategy) {
        Ok(()) => Stage::PassedComparison,
        Err(e) => Stage::FailedComparison(e),
    };
    if policy.export_diff {
        if let Stage::FailedComparison(ce) = &stage {
            let diff_dir = paths.unit_test_diff_dir(test.id());
            match vfs.create_dir(&diff_dir, true) {
                Ok(()) => {},
                Err(e) => {
                    return Err(RunError::Fs(e));
                },
            }
            let n_fail = ce.pages.len();
            let mut a: usize = 0;
            while a < n_fail
                invariant
                    vfs.wf(),
                    n_fail == ce.pages@.len(),
                    0 <= a <= n_fail,
                    *test == *old(test),
                    old(test).wf(),
                    compiled.output is Ok,
                    old(test).spec_ref_kind() is Some,
                    policy.compare && !policy.update && policy.export_diff,
                    diff_dir@ == spec_diff_dir(paths, &test.spec_id()),
                    out_pages.deep_view() == doc@,
                    ref_pages.deep_view() == reference@,
                    out_pages@.len() == doc@.len(),
                    ref_pages@.len() == reference@.len(),
                    forall|i: int| 0 <= i < out_pages@.len() ==> (#[trigger] out_pages@[i]).wf(),
                    forall|i: int| 0 <= i < ref_pages@.len() ==> (#[trigger] ref_pages@[i]).wf(),
                    forall|i: int|
                        0 <= i < out_pages@.len() ==> (#[trigger] out_pages@[i])@ == doc@[i],
                    forall|i: int|
                        0 <= i < ref_pages@.len() ==> (#[trigger] ref_pages@[i])@ == reference@[i],
                    forall|k: int|
                        0 <= k < a && (#[trigger] ce.pages@[k]).0 < doc@.len() && ce.pages@[k].0
                            < reference@.len() && spec_pair_bounds_ok(
                            doc@[ce.pages@[k].0 as int],
                            reference@[ce.pages@[k].0 as int],
                        ) ==> vfs@.dom().contains(
                            spec_diff_dir(paths, &test.spec_id()).push(
                                crate::document::page_file_name((ce.pages@[k].0 + 1) as nat),
                            ),
                        ) && vfs@[spec_diff_dir(paths, &test.spec_id()).push(
                            crate::document::page_file_name((ce.pages@[k].0 + 1) as nat),
                        )] is File,
                decreases n_fail - a,
            {
                let (idx, _) = &ce.pages[a];
                if *idx < out_pages.len() && *idx < ref_pages.len() {
                    let o = &out_pages[*idx];
                    let rf = &ref_pages[*idx];
                    if pair_bounds_ok(o, rf) {
                        let d = diff_page(o, rf, &policy.strategy);
                        let mut name = crate::util::u64_to_string((*idx + 1) as u64);
                        name.append(".png");
                        let file = diff_dir.join(name.as_str());
                        proof {
                            assert(file@ == spec_diff_dir(paths, &test.spec_id()).push(
                                crate::document::page_file_name((*idx + 1) as nat),
                            ));
                        }
                        match vfs.write_file(&file, crate::vfs::FileData::Page(d)) {
                            Ok(()) => {},
                            Err(e) => {
                                return Err(RunError::Fs(e));
                            },
                        }
                    }
                }
                a += 1;
            }
        }
    }
    Ok(
        TestResult {
            id: test.id().duplicate(),
            stage,
            warnings: compiled.warnings,
            duration_ms,
        },
    )
}

/// Runs the matched tests in order, with fail-fast and cancellation.
///
/// `cancelled[i]` is the value the process-wide cancellation flag had when
/// test `i` came up. A test is skipped exactly when the flag was set or, with
/// fail-fast on, an earlier test had failed; every other test runs through
/// the state machine. In-flight work is never discarded: a test that started
/// keeps its result.
pub fn run_suite(
    tests: &mut Vec<Test>,
    vfs: &mut Vfs,
    paths: &Paths,
    vcs: Option<&Vcs>,
    policy: &RunnerPolicy,
    compiled: Vec<CompiledTest>,
    durations: &Vec<u64>,
    cancelled: &Vec<bool>,
) -> (r: Result<Vec<TestResult>, RunError>)
    requires
        old(vfs).wf(),
        compiled@.len() == old(tests)@.len(),
        durations@.len() == old(tests)@.len(),
        cancelled@.len() == old(tests)@.len(),
        forall|i: int| 0 <= i < old(tests)@.len() ==> (#[trigger] old(tests)@[i]).wf(),
        forall|i: int|
            0 <= i < old(tests)@.len() && (#[trigger] old(tests)@[i]).spec_ref_kind() == Some(
                ReferenceKind::Ephemeral,
            ) ==> compiled@[i].reference is Some,
        forall|i: int|
            0 <= i < old(tests)@.len() ==> ((#[trigger] compiled@[i]).output matches Ok(d)
                ==> d.wf()),
        forall|i: int|
            0 <= i < old(tests)@.len() ==> ((#[trigger] compiled@[i]).reference matches Some(
                Ok(d),
            ) ==> d.wf()),
    ensures
        final(vfs).wf(),
        match r {
            Ok(results) => {
                &&& results@.len() == old(tests)@.len()
                &&& (forall|i: int|
                    0 <= i < results@.len() ==> (#[trigger] results@[i]).id@ == old(
                        tests,
                    )@[i].spec_id()@)
                &&& (forall|i: int|
                    0 <= i < results@.len() ==> ((#[trigger] results@[i]).stage is Skipped <==> (
                    cancelled@[i] || (policy.fail_fast && exists|j: int|
                        0 <= j < i && spec_is_fail((#[trigger] results@[j]).stage)))))
                &&& (forall|i: int|
                    0 <= i < results@.len() && !((#[trigger] results@[i]).stage is Skipped) ==> (
                    results@[i].warnings == compiled@[i].warnings && results@[i].duration_ms
                        == durations@[i] && !(results@[i].stage is Filtered)))
                &&& (forall|i: int|
                    0 <= i < results@.len() && !((#[trigger] results@[i]).stage is Skipped) ==> (
                    compiled@[i].output matches Err(e) ==> results@[i].stage
                        == Stage::FailedCompilation { error: e, is_reference: false }))
                &&& (forall|i: int|
                    0 <= i < results@.len() && !((#[trigger] results@[i]).stage is Skipped)
                        && compiled@[i].output is Ok && (old(tests)@[i].spec_ref_kind() is None || (
                    !policy.compare && !policy.update)) ==> results@[i].stage
                        == Stage::PassedCompilation)
                &&& (forall|i: int|
                    0 <= i < results@.len() && !((#[trigger] results@[i]).stage is Skipped)
                        && compiled@[i].output is Ok && old(tests)@[i].spec_ref_kind() is Some
                        && policy.update ==> results@[i].stage == Stage::Updated {
                        optimized: policy.optimize,
                    })
                &&& (forall|i: int|
                    0 <= i < results@.len() && !((#[trigger] results@[i]).stage is Skipped) ==> (
                    compiled@[i].reference matches Some(Err(e)) ==> ((compiled@[i].output is Ok
                        && old(tests)@[i].spec_ref_kind() == Some(ReferenceKind::Ephemeral)
                        && policy.compare && !policy.update) ==> results@[i].stage
                        == Stage::FailedCompilation { error: e, is_reference: true })))
            },
            Err(_) => policy.update || policy.compare,
        },
{
    let n = tests.len();
    let ghost inputs = compiled@;
    let mut results: Vec<TestResult> = Vec::new();
    let mut compiled = compiled;
    // consume the compiled outcomes front to back
    let mut stop = false;
    let mut i: usize = 0;
    while i < n
        invariant
            vfs.wf(),
            n == old(tests)@.len(),
            tests@.len() == n,
            compiled@ =~= inputs.skip(i as int),
            compiled@.len() == n - i,
            inputs.len() == n,
            durations@.len() == n,
            cancelled@.len() == n,
            0 <= i <= n,
            results@.len() == i,
            forall|k: int| 0 <= k < n ==> (#[trigger] tests@[k]).wf(),
            forall|k: int|
                0 <= k < n ==> (#[trigger] tests@[k]).spec_id() == old(tests)@[k].spec_id(),
            forall|k: int|
                i <= k < n ==> (#[trigger] tests@[k]).spec_ref_kind() == old(
                    tests,
                )@[k].spec_ref_kind(),
            forall|k: int|
                i <= k < n && (#[trigger] tests@[k]).spec_ref_kind() == Some(
                    ReferenceKind::Ephemeral,
                ) ==> compiled@[k - i].reference is Some,
            forall|k: int|
                0 <= k < n - i ==> ((#[trigger] compiled@[k]).output matches Ok(d) ==> d.wf()),
            forall|k: int|
                0 <= k < n - i ==> ((#[trigger] compiled@[k]).reference matches Some(Ok(d))
                    ==> d.wf()),
            forall|k: int|
                0 <= k < i ==> (#[trigger] results@[k]).id@ == old(tests)@[k].spec_id()@,
            forall|k: int|
                0 <= k < i ==> ((#[trigger] results@[k]).stage is Skipped <==> (cancelled@[k] || (
                policy.fail_fast && exists|j: int|
                    0 <= j < k && spec_is_fail((#[trigger] results@[j]).stage)))),
            forall|k: int|
                0 <= k < i && !((#[trigger] results@[k]).stage is Skipped) ==> (
                results@[k].warnings == inputs[k].warnings && results@[k].duration_ms
                    == durations@[k] && !(results@[k].stage is Filtered)),
            forall|k: int|
                0 <= k < i && !((#[trigger] results@[k]).stage is Skipped) ==> (
                inputs[k].output matches Err(e) ==> results@[k].stage
                    == Stage::FailedCompilation { error: e, is_reference: false }),
            forall|k: int|
                0 <= k < i && !((#[trigger] results@[k]).stage is Skipped) && inputs[k].output
                    is Ok && (old(tests)@[k].spec_ref_kind() is None || (!policy.compare
                    && !policy.update)) ==> results@[k].stage == Stage::PassedCompilation,
            forall|k: int|
                0 <= k < i && !((#[trigger] results@[k]).stage is Skipped) && inputs[k].output
                    is Ok && old(tests)@[k].spec_ref_kind() is Some && policy.update
                    ==> results@[k].stage == (Stage::Updated { optimized: policy.optimize }),
            forall|k: int|
                0 <= k < i && !((#[trigger] results@[k]).stage is Skipped) ==> (
                inputs[k].reference matches Some(Err(e)) ==> ((inputs[k].output is Ok && old(
                    tests,
                )@[k].spec_ref_kind() == Some(ReferenceKind::Ephemeral) && policy.compare
                    && !policy.update) ==> results@[k].stage == Stage::FailedCompilation {
                    error: e,
                    is_reference: true,
                })),
            stop == (policy.fail_fast && exists|j: int|
                0 <= j < i && spec_is_fail((#[trigger] results@[j]).stage)),
        decreases n - i,
    {
        let outcome = compiled.remove(0);
        let skip = cancelled[i] || stop;
        if skip {
            let t = &tests[i];
            let res = TestResult {
                id: t.id().duplicate(),
                stage: Stage::Skipped,
                warnings: Vec::new(),
                duration_ms: 0,
            };
            let ghost before = results@;
            results.push(res);
            proof {
                assert(forall|k: int| 0 <= k < before.len() ==> results@[k] == before[k]);
                assert(results@[i as int].stage is Skipped);
            }
        } else {
            let mut t = tests.remove(i);
            proof {
                assert(outcome == inputs[i as int]);
            }
            let res = match run_test(&mut t, vfs, paths, vcs, policy, outcome, durations[i]) {
                Ok(res) => res,
                Err(e) => {
                    proof {
                        if !(policy.update || policy.compare) {
                            assert(false);
                        }
                    }
                    return Err(e);
                },
            };
            tests.insert(i, t);
            let failed = res.is_fail();
            let ghost before = results@;
            results.push(res);
            if policy.fail_fast && failed {
                stop = true;
            }
            proof {
                assert(forall|k: int| 0 <= k < before.len() ==> results@[k] == before[k]);
                assert(!(results@[i as int].stage is Skipped));
                if policy.fail_fast && failed {
                    assert(spec_is_fail(results@[i as int].stage));
                }
                assert(forall|k: int|
                    0 <= k < n ==> (#[trigger] tests@[k]).spec_id() == old(
                        tests,
                    )@[k].spec_id());
            }
        }
        proof {
            assert forall|k: int|
                0 <= k < i + 1 implies ((#[trigger] results@[k]).stage is Skipped <==> (
            cancelled@[k] || (policy.fail_fast && exists|j: int|
                0 <= j < k && spec_is_fail((#[trigger] results@[j]).stage)))) by {
                if k < i {
                    assert(results@[k].stage is Skipped <==> (cancelled@[k] || (policy.fail_fast
                        && exists|j: int|
                        0 <= j < k && spec_is_fail((#[trigger] results@[j]).stage))));
                }
            }
        }
        i += 1;
    }
    Ok(results)
}

/// The tally of a finished run.
pub struct Summary {
    /// How many tests the suite holds.
    pub total: usize,
    /// How many were filtered out.
    pub filtered: usize,
    /// How many failed to compile.
    pub failed_compilation: usize,
    /// How many failed the comparison.
    pub failed_comparison: usize,
    /// How many failed in another way.
    pub failed_otherwise: usize,
    /// How many passed.
    pub passed: usize,
    /// How long the run took, in milliseconds.
    pub time_ms: u64,
}

/// The tallies of the first `n` results: filtered, failed compilations,
/// failed comparisons, passed. A skipped test counts toward none of them.
pub open spec fn spec_result_tally(results: Seq<TestResult>, n: int) -> (int, int, int, int)
    decreases n,
{
    if n <= 0 {
        (0, 0, 0, 0)
    } else {
        let prev = spec_result_tally(results, n - 1);
        match results[n - 1].stage {
            Stage::Filtered => (prev.0 + 1, prev.1, prev.2, prev.3),
            Stage::FailedCompilation { .. } => (prev.0, prev.1 + 1, prev.2, prev.3),
            Stage::FailedComparison(_) => (prev.0, prev.1, prev.2 + 1, prev.3),
            Stage::PassedCompilation => (prev.0, prev.1, prev.2, prev.3 + 1),
            Stage::PassedComparison => (prev.0, prev.1, prev.2, prev.3 + 1),
            Stage::Updated { .. } => (prev.0, prev.1, prev.2, prev.3 + 1),
            Stage::Skipped => prev,
        }
    }
}

/// Tallies a run's results into its summary; a skipped test counts toward
/// the total alone.
pub fn summarize(results: &Vec<TestResult>, time_ms: u64) -> (r: Summary)
    ensures
        r.total == results@.len(),
        r.filtered as int == spec_result_tally(results@, results@.len() as int).0,
        r.failed_compilation as int == spec_result_tally(results@, results@.len() as int).1,
        r.failed_comparison as int == spec_result_tally(results@, results@.len() as int).2,
        r.passed as int == spec_result_tally(results@, results@.len() as int).3,
        r.failed_otherwise == 0,
        r.time_ms == time_ms,
        r.filtered <= r.total,
{
    let n = results.len();
    let mut filtered: usize = 0;
    let mut failed_compilation: usize = 0;
    let mut failed_comparison: usize = 0;
    let mut passed: usize = 0;
    let mut i: usize = 0;
    while i < n
        invariant
            n == results@.len(),
            0 <= i <= n,
            filtered + failed_compilation + failed_comparison + passed <= i,
            (filtered as int, failed_compilation as int, failed_comparison as int, passed as int)
                == spec_result_tally(results@, i as int),
        decreases n - i,
    {
        match &results[i].stage {
            Stage::Filtered => {
                filtered += 1;
            },
            Stage::FailedCompilation { .. } => {
                failed_compilation += 1;
            },
            Stage::FailedComparison(_) => {
                failed_comparison += 1;
            },
            Stage::PassedCompilation => {
                passed += 1;
            },
            Stage::PassedComparison => {
                passed += 1;
            },
            Stage::Updated { .. } => {
                passed += 1;
            },
            Stage::Skipped => {
            },
        }
        i += 1;
    }
    Summary {
        total: n,
        filtered,
        failed_compilation,
        failed_comparison,
        failed_otherwise: 0,
        passed,
        time_ms,
    }
}

impl Summary {
    /// The number of tests that actually ran.
    pub fn run(&self) -> (r: usize)
        requires
            self.filtered <= self.total,
        ensures
            r == self.total - self.filtered,
    {
        self.total - self.filtered
    }

    /// Whether every test that ran passed.
    pub fn is_ok(&self) -> (r: bool)
        requires
            self.filtered <= self.total,
        ensures
            r == (self.passed == self.total - self.filtered),
    {
        self.passed == self.run()
    }

    /// Whether at least one test that ran did not pass.
    pub fn is_partial_fail(&self) -> (r: bool)
        requires
            self.filtered <= self.total,
        ensures
            r == (self.passed < self.total - self.filtered),
    {
        self.passed < self.run()
    }

    /// Whether nothing passed at all.
    pub fn is_total_fail(&self) -> (r: bool)
        ensures
            r == (self.passed == 0),
    {
        self.passed == 0
    }
}

} // verus!
