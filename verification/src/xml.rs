//! Rendering a finished run as a jUnit XML test suite.

use vstd::prelude::*;

use crate::runner::Stage;
use crate::runner::TestResult;
use crate::runner::spec_is_fail;
use crate::util::push_char;
use crate::util::spec_decimal;
use crate::util::str_chars;
use crate::util::u64_to_string;

verus! {

/// The outcome of a whole run, ready for reporting.
pub struct SuiteResult {
    /// The identifier of the run.
    pub id: String,
    /// When the run started, already rendered as a timestamp.
    pub timestamp: String,
    /// How long the run took, in milliseconds.
    pub duration_ms: u64,
    /// The per-test results.
    pub results: Vec<TestResult>,
}

/// The number of failed results among the first `n`.
pub open spec fn spec_failed_count(results: Seq<TestResult>, n: int) -> nat
    decreases n,
{
    if n <= 0 {
        0
    } else {
        spec_failed_count(results, n - 1) + if spec_is_fail(results[n - 1].stage) {
            1nat
        } else {
            0nat
        }
    }
}

/// The number of skipped or filtered results among the first `n`.
pub open spec fn spec_skipped_count(results: Seq<TestResult>, n: int) -> nat
    decreases n,
{
    if n <= 0 {
        0
    } else {
        spec_skipped_count(results, n - 1) + if results[n - 1].stage is Skipped || results[n
            - 1].stage is Filtered {
            1nat
        } else {
            0nat
        }
    }
}

impl SuiteResult {
    /// The number of tests in this run.
    pub fn total(&self) -> (r: usize)
        ensures
            r == self.results@.len(),
    {
        self.results.len()
    }

    /// The number of failed tests.
    pub fn failed(&self) -> (r: usize)
        ensures
            r == spec_failed_count(self.results@, self.results@.len() as int),
    {
        let n = self.results.len();
        let mut count: usize = 0;
        let mut i: usize = 0;
        while i < n
            invariant
                n == self.results@.len(),
                0 <= i <= n,
                count == spec_failed_count(self.results@, i as int),
                count <= i,
            decreases n - i,
        {
            if self.results[i].is_fail() {
                count += 1;
            }
            i += 1;
        }
        count
    }

    /// The number of skipped or filtered tests.
    pub fn skipped(&self) -> (r: usize)
        ensures
            r == spec_skipped_count(self.results@, self.results@.len() as int),
    {
        let n = self.results.len();
        let mut count: usize = 0;
        let mut i: usize = 0;
        while i < n
            invariant
                n == self.results@.len(),
                0 <= i <= n,
                count == spec_skipped_count(self.results@, i as int),
                count <= i,
            decreases n - i,
        {
            if matches!(&self.results[i].stage, Stage::Skipped | Stage::Filtered) {
                count += 1;
            }
            i += 1;
        }
        count
    }
}

/// The XML-escaped form of a text: the five characters with a meaning in
/// markup are replaced by their entities.
pub open spec fn spec_xml_escape(s: Seq<char>) -> Seq<char>
    decreases s.len(),
{
    if s.len() == 0 {
        Seq::empty()
    } else {
        let head: Seq<char> = if s[0] == '&' {
            "&amp;"@
        } else if s[0] == '<' {
            "&lt;"@
        } else if s[0] == '>' {
            "&gt;"@
        } else if s[0] == '"' {
            "&quot;"@
        } else if s[0] == '\'' {
            "&apos;"@
        } else {
            seq![s[0]]
        };
        head + spec_xml_escape(s.drop_first())
    }
}

/// Escapes a text for use in XML markup and attribute values.
fn xml_escape_into(out: &mut String, s: &str)
    ensures
        final(out)@ == old(out)@ + spec_xml_escape(s@),
{
    let chars = str_chars(s);
    let n = chars.len();
    let mut i: usize = 0;
    while i < n
        invariant
            n == chars@.len(),
            chars@ == s@,
            0 <= i <= n,
            out@ == old(out)@ + spec_xml_escape(s@.take(i as int)),
        decreases n - i,
    {
        let c = chars[i];
        if c == '&' {
            out.append("&amp;");
        } else if c == '<' {
            out.append("&lt;");
        } else if c == '>' {
            out.append("&gt;");
        } else if c == '"' {
            out.append("&quot;");
        } else if c == '\'' {
            out.append("&apos;");
        } else {
            push_char(out, c);
        }
        proof {
            lemma_xml_escape_take_step(s@, i as int);
        }
        i += 1;
    }
    proof {
        assert(s@.take(n as int) =~= s@);
    }
}

/// Escaping one more character appends its escaped form.
proof fn lemma_xml_escape_take_step(s: Seq<char>, i: int)
    requires
        0 <= i < s.len(),
    ensures
        spec_xml_escape(s.take(i + 1)) == spec_xml_escape(s.take(i)) + (if s[i] == '&' {
            "&amp;"@
        } else if s[i] == '<' {
            "&lt;"@
        } else if s[i] == '>' {
            "&gt;"@
        } else if s[i] == '"' {
            "&quot;"@
        } else if s[i] == '\'' {
            "&apos;"@
        } else {
            seq![s[i]]
        }),
    decreases i,
{
    let head = |c: char| -> Seq<char>
        {
            if c == '&' {
                "&amp;"@
            } else if c == '<' {
                "&lt;"@
            } else if c == '>' {
                "&gt;"@
            } else if c == '"' {
                "&quot;"@
            } else if c == '\'' {
                "&apos;"@
            } else {
                seq![c]
            }
        };
    if i == 0 {
        assert(s.take(1)[0] == s[0]);
        assert(s.take(1).drop_first() =~= Seq::<char>::empty());
        assert(spec_xml_escape(Seq::<char>::empty()) =~= Seq::<char>::empty());
        assert(spec_xml_escape(s.take(0)) =~= Seq::<char>::empty());
        assert(spec_xml_escape(s.take(1)) =~= spec_xml_escape(s.take(0)) + head(s[0]));
    } else {
        assert(s.take(i + 1).drop_first() =~= s.drop_first().take(i));
        assert(s.take(i).drop_first() =~= s.drop_first().take(i - 1));
        lemma_xml_escape_take_step(s.drop_first(), i - 1);
        assert(s.take(i + 1)[0] == s[0] && s.take(i)[0] == s[0]);
        assert(s.drop_first()[i - 1] == s[i]);
        assert(spec_xml_escape(s.take(i + 1)) =~= spec_xml_escape(s.take(i)) + head(s[i]));
    }
}

/// The duration attribute: seconds with three decimals.
pub open spec fn spec_duration_attr(ms: nat) -> Seq<char> {
    spec_decimal(ms / 1000) + "."@ + spec_zero3((ms % 1000) as nat)
}

/// A number below one thousand, zero-padded to three digits.
pub open spec fn spec_zero3(n: nat) -> Seq<char> {
    if n < 10 {
        "00"@ + spec_decimal(n)
    } else if n < 100 {
        "0"@ + spec_decimal(n)
    } else {
        spec_decimal(n)
    }
}

/// Renders a duration in milliseconds as seconds with three decimals.
fn duration_attr(ms: u64) -> (r: String)
    ensures
        r@ == spec_duration_attr(ms as nat),
{
    let mut out = u64_to_string(ms / 1000);
    out.append(".");
    let frac = ms % 1000;
    if frac < 10 {
        out.append("00");
    } else if frac < 100 {
        out.append("0");
    }
    let digits = u64_to_string(frac);
    out.append(digits.as_str());
    proof {
        assert(out@ =~= spec_duration_attr(ms as nat));
    }
    out
}

/// Writes the element the stage of one test maps to: nothing for a pass, a
/// `skipped` element for a test that did not run, a `failure` element with
/// its message for a failure.
fn write_test_result(out: &mut String, result: &TestResult)
    ensures
        final(out)@ == old(out)@ + (match result.stage {
            Stage::Skipped => "<skipped message=\"Test was skipped.\"/>"@,
            Stage::Filtered => "<skipped message=\"Test was filtered out.\"/>"@,
            Stage::FailedCompilation { is_reference, .. } => if is_reference {
                "<failure message=\"Reference compilation failed\"/>"@
            } else {
                "<failure message=\"Compilation failed\"/>"@
            },
            Stage::FailedComparison(_) => "<failure message=\"Comparison failed\"/>"@,
            _ => Seq::<char>::empty(),
        }),
{
    match &result.stage {
        Stage::Skipped => write_test_skip(out),
        Stage::Filtered => write_test_filter(out),
        Stage::FailedCompilation { is_reference, .. } => {
            if *is_reference {
                out.append("<failure message=\"Reference compilation failed\"/>");
            } else {
                out.append("<failure message=\"Compilation failed\"/>");
            }
        },
        Stage::FailedComparison(_) => {
            out.append("<failure message=\"Comparison failed\"/>");
        },
        Stage::PassedCompilation => {},
        Stage::PassedComparison => {},
        Stage::Updated { .. } => {},
    }
}

/// Writes the element of a skipped test.
fn write_test_skip(out: &mut String)
    ensures
        final(out)@ == old(out)@ + "<skipped message=\"Test was skipped.\"/>"@,
{
    out.append("<skipped message=\"Test was skipped.\"/>");
}

/// Writes the element of a filtered test.
fn write_test_filter(out: &mut String)
    ensures
        final(out)@ == old(out)@ + "<skipped message=\"Test was filtered out.\"/>"@,
{
    out.append("<skipped message=\"Test was filtered out.\"/>");
}

/// One test case element: its name, the suite it belongs to, its duration
/// and its source file, with the body its stage maps to.
pub open spec fn spec_testcase_xml(suite: Seq<char>, result: TestResult) -> Seq<char> {
    "<testcase name=\""@ + spec_xml_escape(result.id@) + "\" classname=\""@ + spec_xml_escape(
        suite,
    ) + "\" time=\""@ + spec_duration_attr(result.duration_ms as nat) + "\" file=\"tests/"@
        + spec_xml_escape(result.id@) + "/test.typ\">"@ + (match result.stage {
        Stage::Skipped => "<skipped message=\"Test was skipped.\"/>"@,
        Stage::Filtered => "<skipped message=\"Test was filtered out.\"/>"@,
        Stage::FailedCompilation { is_reference, .. } => if is_reference {
            "<failure message=\"Reference compilation failed\"/>"@
        } else {
            "<failure message=\"Compilation failed\"/>"@
        },
        Stage::FailedComparison(_) => "<failure message=\"Comparison failed\"/>"@,
        _ => Seq::<char>::empty(),
    }) + "</testcase>"@
}

/// The test case elements of the first `n` results, concatenated.
pub open spec fn spec_testcases_xml(suite: Seq<char>, results: Seq<TestResult>, n: int) -> Seq<
    char,
>
    decreases n,
{
    if n <= 0 {
        Seq::empty()
    } else {
        spec_testcases_xml(suite, results, n - 1) + spec_testcase_xml(suite, results[n - 1])
    }
}

/// The whole suite element.
pub open spec fn spec_suite_xml(
    id: Seq<char>,
    timestamp: Seq<char>,
    duration_ms: nat,
    results: Seq<TestResult>,
) -> Seq<char> {
    "<testsuite name=\""@ + spec_xml_escape(id) + "\" tests=\""@ + spec_decimal(results.len())
        + "\" failures=\""@ + spec_decimal(spec_failed_count(results, results.len() as int))
        + "\" skipped=\""@ + spec_decimal(spec_skipped_count(results, results.len() as int))
        + "\" time=\""@ + spec_duration_attr(duration_ms) + "\" timestamp=\""@ + spec_xml_escape(
        timestamp,
    ) + "\">"@ + spec_testcases_xml(id, results, results.len() as int) + "</testsuite>"@
}

/// Renders the result of a run as a jUnit XML test suite.
pub fn write_to_string(result: &SuiteResult) -> (r: String)
    ensures
        r@ == spec_suite_xml(
            result.id@,
            result.timestamp@,
            result.duration_ms as nat,
            result.results@,
        ),
{
    let mut out = String::from_str("<testsuite name=\"");
    xml_escape_into(&mut out, result.id.as_str());
    out.append("\" tests=\"");
    let total = crate::util::usize_to_string(result.total());
    out.append(total.as_str());
    out.append("\" failures=\"");
    let failures = crate::util::usize_to_string(result.failed());
    out.append(failures.as_str());
    out.append("\" skipped=\"");
    let skipped = crate::util::usize_to_string(result.skipped());
    out.append(skipped.as_str());
    out.append("\" time=\"");
    let time = duration_attr(result.duration_ms);
    out.append(time.as_str());
    out.append("\" timestamp=\"");
    xml_escape_into(&mut out, result.timestamp.as_str());
    out.append("\">");
    write_suite_result(&mut out, result);
    out.append("</testsuite>");
    proof {
        assert(out@ =~= spec_suite_xml(
            result.id@,
            result.timestamp@,
            result.duration_ms as nat,
            result.results@,
        ));
    }
    out
}

/// Writes the test case elements of a run, in order.
#[verifier::rlimit(80)]
#[verifier::spinoff_prover]
fn write_suite_result(out: &mut String, result: &SuiteResult)
    ensures
        final(out)@ == old(out)@ + spec_testcases_xml(
            result.id@,
            result.results@,
            result.results@.len() as int,
        ),
{
    let n = result.results.len();
    let mut i: usize = 0;
    while i < n
        invariant
            n == result.results@.len(),
            0 <= i <= n,
            out@ == old(out)@ + spec_testcases_xml(result.id@, result.results@, i as int),
        decreases n - i,
    {
        let case = &result.results[i];
        out.append("<testcase name=\"");
        xml_escape_into(out, case.id.as_str());
        out.append("\" classname=\"");
        xml_escape_into(out, result.id.as_str());
        out.append("\" time=\"");
        let time = duration_attr(case.duration_ms);
        out.append(time.as_str());
        out.append("\" file=\"tests/");
        xml_escape_into(out, case.id.as_str());
        out.append("/test.typ\">");
        write_test_result(out, case);
        out.append("</testcase>");
        proof {
            assert(out@ =~= old(out)@ + spec_testcases_xml(
                result.id@,
                result.results@,
                i + 1,
            ));
        }
        i += 1;
    }
}

} // verus!
