//! Reporting building blocks: a line-counting buffer, an indenting buffer,
//! terminal control sequences, and the plain rendering of per-test failure
//! detail.

use vstd::prelude::*;

use crate::runner::Summary;
use crate::util::u64_to_string;

use crate::compare::CompareError;
use crate::compare::PageError;
use crate::util::push_char;
use crate::util::spec_decimal;
use crate::util::spec_plural;
use crate::util::plural;
use crate::util::usize_to_string;

verus! {

/// The number of newline bytes in `s`.
pub open spec fn spec_newlines(s: Seq<u8>) -> nat
    decreases s.len(),
{
    if s.len() == 0 {
        0
    } else {
        spec_newlines(s.drop_last()) + if s.last() == 10u8 {
            1nat
        } else {
            0nat
        }
    }
}

/// A buffer that counts the lines written into it since the last reset.
pub struct Counted {
    buffer: Vec<u8>,
    lines: usize,
    lines_base: Ghost<nat>,
}

impl Counted {
    /// The bytes written so far.
    pub closed spec fn buffer_view(&self) -> Seq<u8> {
        self.buffer@
    }

    /// The newline count the last reset started from.
    pub closed spec fn base_view(&self) -> nat {
        self.lines_base@
    }

    /// Consistency: the counter holds the newlines written since the last
    /// reset.
    pub open spec fn wf(self) -> bool {
        self.spec_lines() + self.base_view() == spec_newlines(self.buffer_view())
            && self.base_view() <= spec_newlines(self.buffer_view())
    }

    /// The current line count.
    pub closed spec fn spec_lines(&self) -> nat {
        self.lines as nat
    }

    /// Creates an empty counting buffer.
    pub fn new() -> (r: Counted)
        ensures
            r.wf(),
            r.buffer_view().len() == 0,
            r.spec_lines() == 0,
    {
        let r = Counted { buffer: Vec::new(), lines: 0, lines_base: Ghost(0nat) };
        proof {
            assert(spec_newlines(r.buffer@) == 0);
        }
        r
    }

    /// Appends bytes, counting their newlines.
    pub fn write_all(&mut self, buf: &Vec<u8>)
        requires
            old(self).wf(),
            old(self).spec_lines() + spec_newlines(buf@) <= usize::MAX,
        ensures
            final(self).wf(),
            final(self).buffer_view() == old(self).buffer_view() + buf@,
            final(self).spec_lines() == old(self).spec_lines() + spec_newlines(buf@),
            final(self).base_view() == old(self).base_view(),
    {
        let n = buf.len();
        let mut i: usize = 0;
        while i < n
            invariant
                n == buf@.len(),
                0 <= i <= n,
                self.wf(),
                self.buffer@ == old(self).buffer@ + buf@.take(i as int),
                self.lines_base == old(self).lines_base,
                old(self).lines + spec_newlines(buf@) <= usize::MAX,
                self.lines == old(self).lines + spec_newlines(buf@.take(i as int)),
            decreases n - i,
        {
            let b = buf[i];
            let ghost bb = self.buffer@;
            self.buffer.push(b);
            proof {
                assert(self.buffer@ =~= bb.push(b));
                assert(self.buffer@.drop_last() =~= bb);
                assert(buf@.take(i + 1).drop_last() =~= buf@.take(i as int));
                lemma_newlines_bound(buf@.take(i + 1));
                lemma_newlines_prefix(buf@, i as int);
                if i + 1 < buf@.len() {
                    lemma_newlines_prefix(buf@, i + 1);
                } else {
                    assert(buf@.take(i + 1) =~= buf@);
                }
            }
            if b == 10 {
                self.lines += 1;
            }
            proof {
                assert(self.buffer@ =~= old(self).buffer@ + buf@.take(i + 1));
            }
            i += 1;
        }
        proof {
            assert(buf@.take(n as int) =~= buf@);
            assert(self.buffer@ =~= old(self).buffer@ + buf@);
        }
    }

    /// The number of lines since the last reset.
    pub fn lines(&self) -> (r: usize)
        ensures
            r == self.spec_lines(),
    {
        self.lines
    }

    /// Resets the line counter to zero.
    pub fn reset_lines(&mut self)
        requires
            old(self).wf(),
        ensures
            final(self).wf(),
            final(self).buffer_view() == old(self).buffer_view(),
            final(self).spec_lines() == 0,
    {
        self.lines = 0;
        self.lines_base = Ghost(spec_newlines(self.buffer@));
    }

    /// A reference to the bytes written so far.
    pub fn inner(&self) -> (r: &Vec<u8>)
        ensures
            r@ == self.buffer_view(),
    {
        &self.buffer
    }

    /// The bytes written so far.
    pub fn into_inner(self) -> (r: Vec<u8>)
        ensures
            r@ == self.buffer_view(),
    {
        self.buffer
    }
}

/// The count of newlines never exceeds the length.
proof fn lemma_newlines_bound(s: Seq<u8>)
    ensures
        spec_newlines(s) <= s.len(),
    decreases s.len(),
{
    if s.len() > 0 {
        lemma_newlines_bound(s.drop_last());
    }
}

/// Newlines of a prefix extended by one byte.
proof fn lemma_newlines_prefix(s: Seq<u8>, i: int)
    requires
        0 <= i < s.len(),
    ensures
        spec_newlines(s.take(i + 1)) == spec_newlines(s.take(i)) + if s[i] == 10u8 {
            1nat
        } else {
            0nat
        },
        spec_newlines(s.take(i)) <= spec_newlines(s),
    decreases s.len() - i,
{
    assert(s.take(i + 1).drop_last() =~= s.take(i));
    assert(s.take(i + 1).last() == s[i]);
    if i + 1 == s.len() {
        assert(s.take(i + 1) =~= s);
    } else {
        lemma_newlines_prefix(s, i + 1);
    }
}

/// The indentation padding: this many spaces.
pub open spec fn spec_pad(n: nat) -> Seq<u8> {
    Seq::new(n, |i: int| 32u8)
}

/// The indented form of `s`: after every newline, the next non-empty line is
/// prefixed with the padding; `need` says whether a line start is pending.
pub open spec fn spec_indented(s: Seq<u8>, indent: nat, need: bool) -> Seq<u8>
    decreases s.len(),
{
    if s.len() == 0 {
        Seq::empty()
    } else {
        let b = s[0];
        if need {
            if b == 10u8 {
                seq![b] + spec_indented(s.drop_first(), indent, true)
            } else {
                spec_pad(indent) + seq![b] + spec_indented(s.drop_first(), indent, false)
            }
        } else {
            seq![b] + spec_indented(s.drop_first(), indent, b == 10u8)
        }
    }
}

/// Whether a line start is pending after writing `s`.
pub open spec fn spec_need_after(s: Seq<u8>, need: bool) -> bool
    decreases s.len(),
{
    if s.len() == 0 {
        need
    } else {
        spec_need_after(s.drop_first(), if spec_need_first(s[0], need) {
            true
        } else {
            false
        })
    }
}

/// The pending flag after one byte: a newline opens a new line.
pub open spec fn spec_need_first(b: u8, need: bool) -> bool {
    b == 10u8
}

/// A buffer that indents every non-empty line written into it.
#[derive(Debug, PartialEq, Eq)]
pub struct Indented {
    buffer: Vec<u8>,
    indent: usize,
    need_indent: bool,
}

impl Indented {
    /// The bytes written so far, with indentation applied.
    pub closed spec fn buffer_view(&self) -> Seq<u8> {
        self.buffer@
    }

    /// The indent width.
    pub closed spec fn indent_view(&self) -> nat {
        self.indent as nat
    }

    /// Whether the next non-empty line still needs its padding.
    pub closed spec fn need_view(&self) -> bool {
        self.need_indent
    }

    /// Creates an indenting buffer which pads every non-empty line,
    /// including the first.
    pub fn new(indent: usize) -> (r: Indented)
        ensures
            r.buffer_view().len() == 0,
            r.indent_view() == indent,
            r.need_view(),
    {
        Indented { buffer: Vec::new(), indent, need_indent: true }
    }

    /// Creates an indenting buffer which starts on an already begun line:
    /// padding starts after the first newline.
    pub fn continued(indent: usize) -> (r: Indented)
        ensures
            r.buffer_view().len() == 0,
            r.indent_view() == indent,
            !r.need_view(),
    {
        Indented { buffer: Vec::new(), indent, need_indent: false }
    }

    /// Appends bytes, inserting the padding at every non-empty line start.
    pub fn write_all(&mut self, buf: &Vec<u8>)
        requires
            old(self).buffer_view().len() + buf@.len() * (old(self).indent_view() + 1)
                <= usize::MAX,
        ensures
            final(self).buffer_view() == old(self).buffer_view() + spec_indented(
                buf@,
                old(self).indent_view(),
                old(self).need_view(),
            ),
            final(self).indent_view() == old(self).indent_view(),
            final(self).need_view() == spec_need_after(buf@, old(self).need_view()),
    {
        let n = buf.len();
        let mut i: usize = 0;
        while i < n
            invariant
                n == buf@.len(),
                0 <= i <= n,
                self.indent == old(self).indent,
                old(self).buffer@.len() + buf@.len() * (old(self).indent + 1) <= usize::MAX,
                self.buffer@ == old(self).buffer@ + spec_indented(
                    buf@.take(i as int),
                    old(self).indent as nat,
                    old(self).need_indent,
                ),
                self.need_indent == spec_need_after(buf@.take(i as int), old(self).need_indent),
                self.buffer@.len() <= old(self).buffer@.len() + i * (old(self).indent + 1),
            decreases n - i,
        {
            let b = buf[i];
            let ghost ind = old(self).indent as int;
            let ghost blen = buf@.len() as int;
            let ghost ii = i as int;
            proof {
                lemma_indented_step(buf@, i as int, old(self).indent as nat, old(self).need_indent);
                assert((ii + 1) * (ind + 1) == ii * (ind + 1) + (ind + 1)) by (nonlinear_arith);
                assert((ii + 1) * (ind + 1) <= blen * (ind + 1)) by (nonlinear_arith)
                    requires
                        0 <= ii + 1 <= blen,
                        ind >= 0,
                ;
            }
            if self.need_indent {
                if b == 10 {
                    self.buffer.push(b);
                    proof {
                        assert(self.buffer@ =~= old(self).buffer@ + spec_indented(
                            buf@.take(i + 1),
                            old(self).indent as nat,
                            old(self).need_indent,
                        ));
                    }
                } else {
                    let mut k: usize = 0;
                    let ghost base = self.buffer@;
                    let ghost need0 = self.need_indent;
                    while k < self.indent
                        invariant
                            0 <= k <= self.indent,
                            self.indent == old(self).indent,
                            self.need_indent == need0,
                            self.buffer@ == base + spec_pad(k as nat),
                            base.len() + self.indent + 1 <= usize::MAX,
                        decreases self.indent - k,
                    {
                        self.buffer.push(32);
                        proof {
                            assert(self.buffer@ =~= base + spec_pad((k + 1) as nat));
                        }
                        k += 1;
                    }
                    self.buffer.push(b);
                    self.need_indent = false;
                    proof {
                        assert(self.buffer@ =~= old(self).buffer@ + spec_indented(
                            buf@.take(i + 1),
                            old(self).indent as nat,
                            old(self).need_indent,
                        ));
                    }
                }
            } else {
                self.buffer.push(b);
                if b == 10 {
                    self.need_indent = true;
                }
                proof {
                    assert(self.buffer@ =~= old(self).buffer@ + spec_indented(
                        buf@.take(i + 1),
                        old(self).indent as nat,
                        old(self).need_indent,
                    ));
                }
            }
            i += 1;
        }
        proof {
            assert(buf@.take(n as int) =~= buf@);
        }
    }

    /// A reference to the bytes written so far.
    pub fn inner(&self) -> (r: &Vec<u8>)
        ensures
            r@ == self.buffer_view(),
    {
        &self.buffer
    }

    /// The bytes written so far.
    pub fn into_inner(self) -> (r: Vec<u8>)
        ensures
            r@ == self.buffer_view(),
    {
        self.buffer
    }
}

/// Indenting one more byte appends its rendering, and the pending flag
/// follows the byte.
proof fn lemma_indented_step(s: Seq<u8>, i: int, indent: nat, need: bool)
    requires
        0 <= i < s.len(),
    ensures
        spec_indented(s.take(i + 1), indent, need) == spec_indented(s.take(i), indent, need) + (
        if spec_need_after(s.take(i), need) {
            if s[i] == 10u8 {
                seq![s[i]]
            } else {
                spec_pad(indent) + seq![s[i]]
            }
        } else {
            seq![s[i]]
        }),
        spec_need_after(s.take(i + 1), need) == (s[i] == 10u8),
        spec_indented(s.take(i + 1), indent, need).len() <= spec_indented(
            s.take(i),
            indent,
            need,
        ).len() + indent + 1,
    decreases i,
{
    if i == 0 {
        assert(s.take(1)[0] == s[0]);
        assert(s.take(1).drop_first() =~= Seq::<u8>::empty());
        assert(s.take(0) =~= Seq::<u8>::empty());
        assert(spec_need_after(Seq::<u8>::empty(), true) == true);
        assert(spec_need_after(Seq::<u8>::empty(), false) == false);
        assert(spec_indented(Seq::<u8>::empty(), indent, need) =~= Seq::<u8>::empty());
        assert(spec_indented(Seq::<u8>::empty(), indent, s[0] == 10u8) =~= Seq::<u8>::empty());
        assert(spec_indented(Seq::<u8>::empty(), indent, false) =~= Seq::<u8>::empty());
        assert(spec_indented(Seq::<u8>::empty(), indent, true) =~= Seq::<u8>::empty());
        assert(spec_indented(s.take(1), indent, need) =~= (if need {
            if s[0] == 10u8 {
                seq![s[0]]
            } else {
                spec_pad(indent) + seq![s[0]]
            }
        } else {
            seq![s[0]]
        }));
    } else {
        lemma_indented_step(s.drop_first(), i - 1, indent, spec_need_first(s[0], need));
        assert(s.take(i + 1).drop_first() =~= s.drop_first().take(i));
        assert(s.take(i).drop_first() =~= s.drop_first().take(i - 1));
        assert(s.take(i + 1)[0] == s[0] && s.take(i)[0] == s[0]);
        assert(s.drop_first()[i - 1] == s[i]);
        let head: Seq<u8> = if need {
            if s[0] == 10u8 {
                seq![s[0]]
            } else {
                spec_pad(indent) + seq![s[0]]
            }
        } else {
            seq![s[0]]
        };
        assert(spec_indented(s.take(i + 1), indent, need) =~= head + spec_indented(
            s.drop_first().take(i),
            indent,
            spec_need_first(s[0], need),
        ));
        assert(spec_indented(s.take(i), indent, need) =~= head + spec_indented(
            s.drop_first().take(i - 1),
            indent,
            spec_need_first(s[0], need),
        ));
        assert(spec_indented(s.take(i + 1), indent, need) =~= spec_indented(s.take(i), indent, need)
            + (if spec_need_after(s.take(i), need) {
            if s[i] == 10u8 {
                seq![s[i]]
            } else {
                spec_pad(indent) + seq![s[i]]
            }
        } else {
            seq![s[i]]
        }));
    }
}

/// Writes the control sequence that clears the given number of last lines;
/// nothing for zero lines.
pub fn clear_last_lines(lines: usize) -> (r: String)
    ensures
        lines == 0 ==> r@ == Seq::<char>::empty(),
        lines != 0 ==> r@ == "\u{1b}["@ + spec_decimal(lines as nat) + "F\u{1b}[0J"@,
{
    if lines == 0 {
        return String::new();
    }
    let mut out = String::from_str("\u{1b}[");
    let num = usize_to_string(lines);
    out.append(num.as_str());
    out.append("F\u{1b}[0J");
    proof {
        assert(out@ =~= "\u{1b}["@ + spec_decimal(lines as nat) + "F\u{1b}[0J"@);
    }
    out
}

/// The message for a page count mismatch.
pub open spec fn spec_page_count_message(output: nat, reference: nat) -> Seq<char> {
    "Expected "@ + spec_decimal(reference) + seq![' '] + spec_plural(reference, "page"@) + ", got "@
        + spec_decimal(output) + seq![' '] + spec_plural(output, "page"@)
}

/// Renders the page count mismatch line: how many pages were expected and
/// how many came out.
pub fn page_count_message(output: usize, reference: usize) -> (r: String)
    ensures
        r@ == spec_page_count_message(output as nat, reference as nat),
{
    let mut out = String::from_str("Expected ");
    let num = usize_to_string(reference);
    out.append(num.as_str());
    push_char(&mut out, ' ');
    let term = plural(reference, "page");
    out.append(term.as_str());
    out.append(", got ");
    let num2 = usize_to_string(output);
    out.append(num2.as_str());
    push_char(&mut out, ' ');
    let term2 = plural(output, "page");
    out.append(term2.as_str());
    proof {
        assert(out@ =~= spec_page_count_message(output as nat, reference as nat));
    }
    out
}

/// The message for a page with too many deviations.
pub open spec fn spec_deviations_message(page: nat, deviations: nat) -> Seq<char> {
    "Page "@ + spec_decimal(page) + " had "@ + spec_decimal(deviations) + seq![' '] + spec_plural(
        deviations,
        "deviation"@,
    )
}

/// Renders the per-page deviation line; `page` is the one-based page number.
pub fn deviations_message(page: usize, deviations: usize) -> (r: String)
    ensures
        r@ == spec_deviations_message(page as nat, deviations as nat),
{
    let mut out = String::from_str("Page ");
    let num = usize_to_string(page);
    out.append(num.as_str());
    out.append(" had ");
    let num2 = usize_to_string(deviations);
    out.append(num2.as_str());
    push_char(&mut out, ' ');
    let term = plural(deviations, "deviation");
    out.append(term.as_str());
    proof {
        assert(out@ =~= spec_deviations_message(page as nat, deviations as nat));
    }
    out
}

/// The message for a page with different dimensions.
pub open spec fn spec_dimensions_message(page: nat) -> Seq<char> {
    "Page "@ + spec_decimal(page) + " had different dimensions"@
}

/// Renders the per-page dimension mismatch line; `page` is the one-based
/// page number.
pub fn dimensions_message(page: usize) -> (r: String)
    ensures
        r@ == spec_dimensions_message(page as nat),
{
    let mut out = String::from_str("Page ");
    let num = usize_to_string(page);
    out.append(num.as_str());
    out.append(" had different dimensions");
    proof {
        assert(out@ =~= spec_dimensions_message(page as nat));
    }
    out
}

/// The one-based page number a zero-based index is shown as.
pub open spec fn spec_display_page(page: nat) -> nat {
    if page < usize::MAX {
        page + 1
    } else {
        page
    }
}

/// The message line one failing page renders as.
pub open spec fn spec_page_line(page: nat, error: PageError) -> Seq<char> {
    match error {
        PageError::Dimensions { .. } => spec_dimensions_message(spec_display_page(page)),
        PageError::SimpleDeviations { deviations } => spec_deviations_message(
            spec_display_page(page),
            deviations as nat,
        ),
    }
}

/// Renders a comparison failure as its message lines: the page count
/// mismatch if the counts differ, else one line per failing page, in order.
pub fn comparison_lines(error: &CompareError) -> (r: Vec<String>)
    ensures
        error.output != error.reference ==> r@.len() == 1 && r@[0]@ == spec_page_count_message(
            error.output as nat,
            error.reference as nat,
        ),
        error.output == error.reference ==> r@.len() == error.pages@.len() && (forall|i: int|
            0 <= i < r@.len() ==> (#[trigger] r@[i])@ == spec_page_line(
                error.pages@[i].0 as nat,
                error.pages@[i].1,
            )),
{
    let mut out: Vec<String> = Vec::new();
    if error.output != error.reference {
        out.push(page_count_message(error.output, error.reference));
        return out;
    }
    let n = error.pages.len();
    let mut i: usize = 0;
    while i < n
        invariant
            n == error.pages@.len(),
            0 <= i <= n,
            out@.len() == i,
            forall|k: int|
                0 <= k < i ==> (#[trigger] out@[k])@ == spec_page_line(
                    error.pages@[k].0 as nat,
                    error.pages@[k].1,
                ),
        decreases n - i,
    {
        let (page, perr) = &error.pages[i];
        let display_page = if *page < usize::MAX {
            *page + 1
        } else {
            *page
        };
        match perr {
            PageError::Dimensions { .. } => {
                out.push(dimensions_message(display_page));
            },
            PageError::SimpleDeviations { deviations } => {
                out.push(deviations_message(display_page, *deviations));
            },
        }
        i += 1;
    }
    out
}


/// One tally segment of the run summary: blank when the count is zero, else
/// a space, the count and its label.
pub open spec fn spec_tally_segment(count: nat, label: Seq<char>) -> Seq<char> {
    if count != 0 {
        seq![' '] + spec_decimal(count) + label
    } else {
        Seq::<char>::empty()
    }
}

/// The elapsed-time segment of the run summary: blank under a second, the
/// seconds alone under a minute, else the minutes and the total seconds.
pub open spec fn spec_took_segment(ms: nat) -> Seq<char> {
    let secs = ms / 1000;
    if secs == 0 {
        Seq::<char>::empty()
    } else if secs / 60 == 0 {
        " took "@ + spec_decimal(secs) + seq![' '] + spec_plural(secs, "second"@)
    } else {
        " took "@ + spec_decimal(secs / 60) + seq![' '] + spec_plural(secs / 60, "minute"@)
            + seq![' '] + spec_decimal(secs) + seq![' '] + spec_plural(secs, "second"@)
    }
}

/// The run summary line: how many of the run tests passed (or, after an
/// update, were updated), each non-zero failure tally, the filtered count,
/// and how long the run took.
pub open spec fn spec_summary_line(s: Summary, is_update: bool) -> Seq<char> {
    spec_decimal(s.passed as nat) + " / "@ + spec_decimal((s.total - s.filtered) as nat) + (
    if is_update {
        " updated."@
    } else {
        " passed."@
    }) + spec_tally_segment(s.failed_compilation as nat, " failed compilations."@)
        + spec_tally_segment(s.failed_comparison as nat, " failed comparisons."@)
        + spec_tally_segment(s.failed_otherwise as nat, " failed otherwise."@)
        + spec_tally_segment(s.filtered as nat, " filtered out."@) + spec_took_segment(
        s.time_ms as nat,
    )
}

/// Renders one tally segment of the run summary.
fn tally_segment(count: usize, label: &str) -> (r: String)
    ensures
        r@ == spec_tally_segment(count as nat, label@),
{
    let mut out = String::new();
    if count != 0 {
        push_char(&mut out, ' ');
        let num = usize_to_string(count);
        out.append(num.as_str());
        out.append(label);
        proof {
            assert(out@ =~= spec_tally_segment(count as nat, label@));
        }
    }
    out
}

/// Renders the elapsed-time segment of the run summary.
fn took_segment(time_ms: u64) -> (r: String)
    ensures
        r@ == spec_took_segment(time_ms as nat),
{
    let mut out = String::new();
    let secs = time_ms / 1000;
    if secs != 0 {
        if secs / 60 == 0 {
            out.append(" took ");
            let num = u64_to_string(secs);
            out.append(num.as_str());
            push_char(&mut out, ' ');
            let term = plural_u64(secs);
            out.append(term);
        } else {
            out.append(" took ");
            let mins = u64_to_string(secs / 60);
            out.append(mins.as_str());
            push_char(&mut out, ' ');
            let mterm = plural_minutes_u64(secs / 60);
            out.append(mterm);
            push_char(&mut out, ' ');
            let num = u64_to_string(secs);
            out.append(num.as_str());
            push_char(&mut out, ' ');
            let term = plural_u64(secs);
            out.append(term);
        }
    }
    proof {
        assert(out@ =~= spec_took_segment(time_ms as nat));
    }
    out
}

/// Renders the run summary as one line.
pub fn summary_line(summary: &Summary, is_update: bool) -> (r: String)
    requires
        summary.filtered <= summary.total,
    ensures
        r@ == spec_summary_line(*summary, is_update),
{
    let mut out = usize_to_string(summary.passed);
    out.append(" / ");
    let run = usize_to_string(summary.run());
    out.append(run.as_str());
    if is_update {
        out.append(" updated.");
    } else {
        out.append(" passed.");
    }
    let seg = tally_segment(summary.failed_compilation, " failed compilations.");
    out.append(seg.as_str());
    let seg = tally_segment(summary.failed_comparison, " failed comparisons.");
    out.append(seg.as_str());
    let seg = tally_segment(summary.failed_otherwise, " failed otherwise.");
    out.append(seg.as_str());
    let seg = tally_segment(summary.filtered, " filtered out.");
    out.append(seg.as_str());
    let seg = took_segment(summary.time_ms);
    out.append(seg.as_str());
    proof {
        assert(out@ =~= spec_summary_line(*summary, is_update));
    }
    out
}

/// The word `minute`, pluralised for the count.
fn plural_minutes_u64(count: u64) -> (r: &'static str)
    ensures
        r@ == spec_plural(count as nat, "minute"@),
{
    if count == 1 {
        proof {
            reveal_strlit("minute");
        }
        "minute"
    } else {
        proof {
            reveal_strlit("minute");
            reveal_strlit("minutes");
            assert("minutes"@ =~= "minute"@.push('s'));
        }
        "minutes"
    }
}

/// The word `second`, pluralised for the count.
fn plural_u64(count: u64) -> (r: &'static str)
    ensures
        r@ == spec_plural(count as nat, "second"@),
{
    if count == 1 {
        proof {
            reveal_strlit("second");
        }
        "second"
    } else {
        proof {
            reveal_strlit("second");
            reveal_strlit("seconds");
            assert("seconds"@ =~= "second"@.push('s'));
        }
        "seconds"
    }
}

} // verus!
