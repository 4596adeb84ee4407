//! The visual comparison engine: pixel-wise deviation counting with
//! per-channel and per-page tolerances, alignment for differing dimensions,
//! and difference image generation.

use vstd::prelude::*;

use crate::document::Page;
use crate::document::PageV;

verus! {

/// The reading direction of a document; decides how pages of unequal widths
/// are aligned in difference images.
#[derive(Debug, Clone, Copy, PartialEq, Eq, Hash, Structural)]
pub enum Direction {
    /// The document is read left-to-right.
    Ltr,
    /// The document is read right-to-left.
    Rtl,
}

/// The comparison strategy: how far a channel may stray, how many pixels per
/// page may deviate, and the document direction.
#[derive(Debug, Clone, Copy, PartialEq, Eq)]
pub struct Strategy {
    /// The maximum difference in each channel of a pixel before the pixel
    /// counts as a deviation.
    pub max_delta: u8,
    /// The maximum number of deviating pixels before a page fails.
    pub max_deviations: usize,
    /// The document direction.
    pub direction: Direction,
}

/// The absolute difference of two channel values.
pub open spec fn spec_abs_diff(a: u8, b: u8) -> nat {
    if a >= b {
        (a - b) as nat
    } else {
        (b - a) as nat
    }
}

/// Whether pixel `p` deviates: the largest of the four channel differences
/// exceeds `max_delta`.
pub open spec fn spec_pixel_deviates(a: Seq<u8>, b: Seq<u8>, p: int, max_delta: u8) -> bool {
    ||| spec_abs_diff(a[4 * p], b[4 * p]) > max_delta
    ||| spec_abs_diff(a[4 * p + 1], b[4 * p + 1]) > max_delta
    ||| spec_abs_diff(a[4 * p + 2], b[4 * p + 2]) > max_delta
    ||| spec_abs_diff(a[4 * p + 3], b[4 * p + 3]) > max_delta
}

/// The number of deviating pixels among the first `n`.
pub open spec fn spec_deviations(a: Seq<u8>, b: Seq<u8>, n: int, max_delta: u8) -> nat
    decreases n,
{
    if n <= 0 {
        0
    } else {
        spec_deviations(a, b, n - 1, max_delta) + if spec_pixel_deviates(a, b, n - 1, max_delta) {
            1nat
        } else {
            0nat
        }
    }
}

/// Why a pair of pages differs.
#[derive(Debug, Clone, PartialEq, Eq)]
pub enum PageError {
    /// The pages have different dimensions.
    Dimensions {
        output_width: u32,
        output_height: u32,
        reference_width: u32,
        reference_height: u32,
    },
    /// Too many pixels deviate.
    SimpleDeviations { deviations: usize },
}

/// Why two documents differ: the page counts, and every failing page with
/// its index and error.
#[derive(Debug, Clone, PartialEq, Eq)]
pub struct CompareError {
    /// The number of output pages.
    pub output: usize,
    /// The number of reference pages.
    pub reference: usize,
    /// The failing pages, in order. Empty when the page counts differ: then
    /// no per-page comparison takes place.
    pub pages: Vec<(usize, PageError)>,
}

/// Whether a pair of page values passes under the strategy: equal dimensions
/// and no more than `max_deviations` deviating pixels.
pub open spec fn spec_page_passes_v(out: PageV, reference: PageV, strategy: Strategy) -> bool {
    &&& out.width == reference.width
    &&& out.height == reference.height
    &&& spec_deviations(
        out.pixels,
        reference.pixels,
        out.width * out.height as int,
        strategy.max_delta,
    ) <= strategy.max_deviations
}

/// Whether a pair of pages passes under the strategy.
pub open spec fn spec_page_passes(out: &Page, reference: &Page, strategy: Strategy) -> bool {
    spec_page_passes_v(out@, reference@, strategy)
}

/// The number of deviating pixels of a page pair with equal dimensions.
fn count_deviations(out: &Page, reference: &Page, max_delta: u8) -> (r: usize)
    requires
        out.wf(),
        reference.wf(),
        out@.width == reference@.width,
        out@.height == reference@.height,
    ensures
        r == spec_deviations(
            out@.pixels,
            reference@.pixels,
            out@.width * out@.height as int,
            max_delta,
        ),
{
    let w = out.width as usize;
    let h = out.height as usize;
    let plen = out.pixels.len();
    proof {
        assert(out.pixels@.len() == 4 * ((w as int) * (h as int)) && (w as int) * (h as int)
            <= out.pixels@.len()) by (nonlinear_arith)
            requires
                out.pixels@.len() == 4 * out.width * out.height,
                w == out.width,
                h == out.height,
        ;
        assert((w as int) * (h as int) <= plen);
    }
    let n = w * h;
    let mut count: usize = 0;
    let mut p: usize = 0;
    while p < n
        invariant
            out.wf(),
            reference.wf(),
            n == out@.width * out@.height,
            out.pixels@.len() == 4 * n,
            reference.pixels@.len() == 4 * n,
            reference@.width == out@.width && reference@.height == out@.height,
            0 <= p <= n,
            count == spec_deviations(out@.pixels, reference@.pixels, p as int, max_delta),
            count <= p,
        decreases n - p,
    {
        let plen = out.pixels.len();
        proof {
            assert(4 * (p as int) + 3 < 4 * (n as int)) by (nonlinear_arith)
                requires
                    0 <= p < n,
            ;
            assert(4 * (p as int) + 3 < plen as int);
        }
        let base = 4 * p;
        let deviates = channel_exceeds(out.pixels[base], reference.pixels[base], max_delta)
            || channel_exceeds(out.pixels[base + 1], reference.pixels[base + 1], max_delta)
            || channel_exceeds(out.pixels[base + 2], reference.pixels[base + 2], max_delta)
            || channel_exceeds(out.pixels[base + 3], reference.pixels[base + 3], max_delta);
        proof {
            assert(deviates == spec_pixel_deviates(
                out@.pixels,
                reference@.pixels,
                p as int,
                max_delta,
            ));
        }
        if deviates {
            count += 1;
        }
        p += 1;
    }
    count
}

/// Whether one channel pair differs by more than `max_delta`.
fn channel_exceeds(a: u8, b: u8, max_delta: u8) -> (r: bool)
    ensures
        r == (spec_abs_diff(a, b) > max_delta),
{
    let d = if a >= b {
        a - b
    } else {
        b - a
    };
    d > max_delta
}

/// Compares one page pair under the strategy.
///
/// Succeeds exactly when the dimensions agree and no more than
/// `max_deviations` pixels deviate; otherwise reports which of the two went
/// wrong.
pub fn compare_page(out: &Page, reference: &Page, strategy: &Strategy) -> (r: Result<
    (),
    PageError,
>)
    requires
        out.wf(),
        reference.wf(),
    ensures
        r is Ok <==> spec_page_passes(out, reference, *strategy),
        match r {
            Ok(()) => true,
            Err(PageError::Dimensions { output_width, output_height, reference_width, reference_height }) => {
                &&& (out@.width != reference@.width || out@.height != reference@.height)
                &&& output_width == out@.width && output_height == out@.height
                &&& reference_width == reference@.width && reference_height == reference@.height
            },
            Err(PageError::SimpleDeviations { deviations }) => {
                &&& out@.width == reference@.width && out@.height == reference@.height
                &&& deviations == spec_deviations(
                    out@.pixels,
                    reference@.pixels,
                    out@.width * out@.height as int,
                    strategy.max_delta,
                )
                &&& deviations > strategy.max_deviations
            },
        },
{
    if out.width != reference.width || out.height != reference.height {
        return Err(
            PageError::Dimensions {
                output_width: out.width,
                output_height: out.height,
                reference_width: reference.width,
                reference_height: reference.height,
            },
        );
    }
    let deviations = count_deviations(out, reference, strategy.max_delta);
    if deviations > strategy.max_deviations {
        return Err(PageError::SimpleDeviations { deviations });
    }
    Ok(())
}

/// Completeness of a failure report: every failing page index appears in
/// the report.
pub open spec fn spec_reports_all_failures(
    pages: Seq<(usize, PageError)>,
    outputs: Seq<Page>,
    references: Seq<Page>,
    strategy: Strategy,
) -> bool {
    forall|i: int|
        0 <= i < outputs.len() && !spec_page_passes(&outputs[i], &references[i], strategy)
            ==> exists|a: int| 0 <= a < pages.len() && (#[trigger] pages[a]).0 == i
}

/// Compares two documents page by page.
///
/// When the page counts differ, the comparison stops before any page pair
/// and reports only the counts. Otherwise every failing page is reported
/// with its index; the comparison succeeds exactly when the counts agree and
/// every page passes.
#[verifier::rlimit(50)]
#[verifier::spinoff_prover]
pub fn compare_pages(outputs: &Vec<Page>, references: &Vec<Page>, strategy: &Strategy) -> (r:
    Result<(), CompareError>)
    requires
        forall|i: int| 0 <= i < outputs@.len() ==> (#[trigger] outputs@[i]).wf(),
        forall|i: int| 0 <= i < references@.len() ==> (#[trigger] references@[i]).wf(),
    ensures
        r is Ok <==> (outputs@.len() == references@.len() && (forall|i: int|
            0 <= i < outputs@.len() ==> spec_page_passes(
                &outputs@[i],
                &references@[i],
                *strategy,
            ))),
        r matches Err(e) ==> e.output == outputs@.len() && e.reference == references@.len(),
        r matches Err(e) ==> (outputs@.len() != references@.len() ==> e.pages@.len() == 0),
        r matches Err(e) ==> (outputs@.len() == references@.len() ==> e.pages@.len() > 0),
        r matches Err(e) ==> (outputs@.len() == references@.len() ==> (forall|a: int, b: int|
            0 <= a < b < e.pages@.len() ==> (#[trigger] e.pages@[a]).0 < (#[trigger] e.pages@[b]).0)),
        r matches Err(e) ==> (outputs@.len() == references@.len() ==> (forall|a: int|
            0 <= a < e.pages@.len() ==> (#[trigger] e.pages@[a]).0 < outputs@.len()
                && !spec_page_passes(
                &outputs@[e.pages@[a].0 as int],
                &references@[e.pages@[a].0 as int],
                *strategy,
            ))),
        r matches Err(e) ==> (outputs@.len() == references@.len() ==> spec_reports_all_failures(
            e.pages@,
            outputs@,
            references@,
            *strategy,
        )),
{
    let n_out = outputs.len();
    let n_ref = references.len();
    if n_out != n_ref {
        return Err(CompareError { output: n_out, reference: n_ref, pages: Vec::new() });
    }
    let mut pages: Vec<(usize, PageError)> = Vec::new();
    let mut i: usize = 0;
    while i < n_out
        invariant
            n_out == outputs@.len() == references@.len(),
            forall|k: int| 0 <= k < outputs@.len() ==> (#[trigger] outputs@[k]).wf(),
            forall|k: int| 0 <= k < references@.len() ==> (#[trigger] references@[k]).wf(),
            0 <= i <= n_out,
            forall|a: int, b: int|
                0 <= a < b < pages@.len() ==> (#[trigger] pages@[a]).0 < (#[trigger] pages@[b]).0,
            forall|a: int|
                0 <= a < pages@.len() ==> (#[trigger] pages@[a]).0 < i && !spec_page_passes(
                    &outputs@[pages@[a].0 as int],
                    &references@[pages@[a].0 as int],
                    *strategy,
                ),
            forall|a: int|
                0 <= a < pages@.len() ==> ((#[trigger] pages@[a]).1 is Dimensions <==> (
                outputs@[pages@[a].0 as int]@.width != references@[pages@[a].0 as int]@.width
                    || outputs@[pages@[a].0 as int]@.height
                    != references@[pages@[a].0 as int]@.height)),
            forall|k: int|
                0 <= k < i && !spec_page_passes(&outputs@[k], &references@[k], *strategy)
                    ==> exists|a: int| 0 <= a < pages@.len() && (#[trigger] pages@[a]).0 == k,
        decreases n_out - i,
    {
        match compare_page(&outputs[i], &references[i], strategy) {
            Ok(()) => {},
            Err(e) => {
                let ghost before = pages@;
                pages.push((i, e));
                proof {
                    assert(forall|a: int| 0 <= a < before.len() ==> pages@[a] == before[a]);
                    assert(pages@.last().0 == i);
                    assert forall|k: int|
                        0 <= k < i + 1 && !spec_page_passes(
                            &outputs@[k],
                            &references@[k],
                            *strategy,
                        ) implies exists|a: int|
                        0 <= a < pages@.len() && (#[trigger] pages@[a]).0 == k by {
                        if k < i {
                            let a = choose|a: int|
                                0 <= a < before.len() && (#[trigger] before[a]).0 == k;
                            assert(pages@[a].0 == k);
                        } else {
                            assert(pages@[pages@.len() - 1].0 == k);
                        }
                    }
                }
            },
        }
        i += 1;
    }
    if pages.len() > 0 {
        proof {
            assert(!spec_page_passes(
                &outputs@[pages@[0].0 as int],
                &references@[pages@[0].0 as int],
                *strategy,
            ));
            assert(forall|k: int|
                0 <= k < outputs@.len() && !spec_page_passes(
                    &outputs@[k],
                    &references@[k],
                    *strategy,
                ) ==> exists|a: int| 0 <= a < pages@.len() && (#[trigger] pages@[a]).0 == k);
        }
        let ghost pv = pages@;
        let err = CompareError { output: n_out, reference: n_ref, pages };
        proof {
            assert(err.pages@ == pv);
            assert forall|k: int|
                0 <= k < outputs@.len() && !spec_page_passes(
                    &outputs@[k],
                    &references@[k],
                    *strategy,
                ) implies exists|a: int|
                0 <= a < err.pages@.len() && (#[trigger] err.pages@[a]).0 == k by {
                assert(exists|a: int| 0 <= a < pv.len() && (#[trigger] pv[a]).0 == k);
                let a0 = choose|a: int| 0 <= a < pv.len() && (#[trigger] pv[a]).0 == k;
                assert(err.pages@[a0].0 == k);
            }
            assert(spec_reports_all_failures(err.pages@, outputs@, references@, *strategy));
        }
        return Err(err);
    }
    proof {
        assert forall|k: int|
            0 <= k < outputs@.len() implies spec_page_passes(
            &outputs@[k],
            &references@[k],
            *strategy,
        ) by {
            if !spec_page_passes(&outputs@[k], &references@[k], *strategy) {
                let a = choose|a: int| 0 <= a < pages@.len() && (#[trigger] pages@[a]).0 == k;
                assert(false);
            }
        }
    }
    Ok(())
}

/// Under the strictest strategy, a zero channel tolerance and no allowed
/// deviations, a page pair passes exactly when the two pages are identical
/// in dimensions and pixel data.
pub proof fn lemma_strict_strategy_exact(out: &Page, reference: &Page, strategy: Strategy)
    requires
        out.wf(),
        reference.wf(),
        strategy.max_delta == 0,
        strategy.max_deviations == 0,
    ensures
        spec_page_passes(out, reference, strategy) <==> (out@.width == reference@.width
            && out@.height == reference@.height && out@.pixels == reference@.pixels),
{
    if out@.width == reference@.width && out@.height == reference@.height {
        let n = out@.width * out@.height;
        let a = out@.pixels;
        let b = reference@.pixels;
        assert(a.len() == 4 * n && b.len() == 4 * n) by (nonlinear_arith)
            requires
                a.len() == 4 * out@.width * out@.height,
                b.len() == 4 * reference@.width * reference@.height,
                out@.width == reference@.width,
                out@.height == reference@.height,
                n == out@.width * out@.height,
        ;
        if spec_page_passes(out, reference, strategy) {
            lemma_zero_deviations_equal(a, b, n as int);
            assert(a =~= b);
        }
        if a == b {
            lemma_equal_no_deviations(a, b, n as int);
        }
    }
}

/// With zero tolerance, a zero deviation count over `n` pixels means every
/// byte of the `4 * n` pixel bytes agrees.
proof fn lemma_zero_deviations_equal(a: Seq<u8>, b: Seq<u8>, n: int)
    requires
        a.len() == 4 * n,
        b.len() == 4 * n,
        n >= 0,
        spec_deviations(a, b, n, 0) == 0,
    ensures
        forall|j: int| 0 <= j < a.len() ==> a[j] == b[j],
{
    assert forall|p: int| 0 <= p < n implies !spec_pixel_deviates(a, b, p, 0) by {
        if spec_pixel_deviates(a, b, p, 0) {
            lemma_deviations_monotone(a, b, p, n);
        }
    }
    assert forall|j: int| 0 <= j < a.len() implies a[j] == b[j] by {
        let p = j / 4;
        let c = j % 4;
        assert(j == 4 * p + c);
        assert(0 <= p < n);
        assert(!spec_pixel_deviates(a, b, p, 0));
        assert(c == 0 || c == 1 || c == 2 || c == 3);
        if c == 0 {
            assert(spec_abs_diff(a[4 * p], b[4 * p]) == 0);
        } else if c == 1 {
            assert(spec_abs_diff(a[4 * p + 1], b[4 * p + 1]) == 0);
        } else if c == 2 {
            assert(spec_abs_diff(a[4 * p + 2], b[4 * p + 2]) == 0);
        } else {
            assert(spec_abs_diff(a[4 * p + 3], b[4 * p + 3]) == 0);
        }
    }
}

/// A deviating pixel below `n` forces a positive deviation count up to `n`.
proof fn lemma_deviations_monotone(a: Seq<u8>, b: Seq<u8>, p: int, n: int)
    requires
        0 <= p < n,
        spec_pixel_deviates(a, b, p, 0),
    ensures
        spec_deviations(a, b, n, 0) >= 1,
    decreases n,
{
    if p == n - 1 {
    } else {
        lemma_deviations_monotone(a, b, p, n - 1);
    }
}

/// Equal pixel data has no deviations.
proof fn lemma_equal_no_deviations(a: Seq<u8>, b: Seq<u8>, n: int)
    requires
        a == b,
    ensures
        spec_deviations(a, b, n, 0) == 0,
    decreases n,
{
    if n > 0 {
        lemma_equal_no_deviations(a, b, n - 1);
    }
}

/// What a difference image holds at pixel `(x, y)`: a deviation marker where
/// both pages cover the pixel and disagree beyond the tolerance, the output
/// pixel where the output covers it, the reference pixel where only the
/// reference covers it, and a transparent pixel elsewhere. For a
/// right-to-left document the narrower page is aligned to the right edge.
pub open spec fn spec_diff_channel(
    out: PageV,
    reference: PageV,
    strategy: Strategy,
    x: int,
    y: int,
    c: int,
    width: nat,
) -> u8 {
    let ox = if strategy.direction is Rtl {
        x - (width - out.width)
    } else {
        x
    };
    let rx = if strategy.direction is Rtl {
        x - (width - reference.width)
    } else {
        x
    };
    let in_out = 0 <= ox < out.width && y < out.height;
    let in_ref = 0 <= rx < reference.width && y < reference.height;
    if in_out && in_ref && spec_pixel_deviates_at(
        out.pixels,
        reference.pixels,
        y * out.width + ox,
        y * reference.width + rx,
        strategy.max_delta,
    ) {
        // deviation marker: opaque red
        if c == 0 || c == 3 {
            255
        } else {
            0
        }
    } else if in_out {
        out.pixels[4 * (y * out.width + ox) + c]
    } else if in_ref {
        reference.pixels[4 * (y * reference.width + rx) + c]
    } else {
        0
    }
}

/// Whether the pixels at the two (possibly different) positions deviate.
pub open spec fn spec_pixel_deviates_at(
    a: Seq<u8>,
    b: Seq<u8>,
    pa: int,
    pb: int,
    max_delta: u8,
) -> bool {
    ||| spec_abs_diff(a[4 * pa], b[4 * pb]) > max_delta
    ||| spec_abs_diff(a[4 * pa + 1], b[4 * pb + 1]) > max_delta
    ||| spec_abs_diff(a[4 * pa + 2], b[4 * pb + 2]) > max_delta
    ||| spec_abs_diff(a[4 * pa + 3], b[4 * pb + 3]) > max_delta
}

/// Builds the difference image of a failing page pair: as wide and as tall
/// as the larger of the two pages, the output laid atop the reference with
/// deviating pixels highlighted.
pub fn diff_page(out: &Page, reference: &Page, strategy: &Strategy) -> (r: Page)
    requires
        out.wf(),
        reference.wf(),
        out@.width * out@.height <= u32::MAX,
        reference@.width * reference@.height <= u32::MAX,
        (if out@.width >= reference@.width {
            out@.width
        } else {
            reference@.width
        }) * (if out@.height >= reference@.height {
            out@.height
        } else {
            reference@.height
        }) * 4 <= u32::MAX,
    ensures
        r.wf(),
        r@.width == if out@.width >= reference@.width {
            out@.width
        } else {
            reference@.width
        },
        r@.height == if out@.height >= reference@.height {
            out@.height
        } else {
            reference@.height
        },
        forall|x: int, y: int, c: int|
            0 <= x < r@.width && 0 <= y < r@.height && 0 <= c < 4 ==> r@.pixels[4 * (y * r@.width
                + x) + c] == spec_diff_channel(out@, reference@, *strategy, x, y, c, r@.width),
{
    let width = if out.width >= reference.width {
        out.width
    } else {
        reference.width
    };
    let height = if out.height >= reference.height {
        out.height
    } else {
        reference.height
    };
    let mut pixels: Vec<u8> = Vec::new();
    let mut y: u32 = 0;
    while y < height
        invariant
            out.wf(),
            reference.wf(),
            width == if out@.width >= reference@.width {
                out@.width
            } else {
                reference@.width
            },
            height == if out@.height >= reference@.height {
                out@.height
            } else {
                reference@.height
            },
            width * height * 4 <= u32::MAX,
            out@.width * out@.height <= u32::MAX,
            reference@.width * reference@.height <= u32::MAX,
            out@.width <= width,
            reference@.width <= width,
            0 <= y <= height,
            pixels@.len() == 4 * (y * width),
            forall|xx: int, yy: int, c: int|
                0 <= xx < width && 0 <= yy < y && 0 <= c < 4 ==> pixels@[4 * (yy * width + xx) + c]
                    == spec_diff_channel(out@, reference@, *strategy, xx, yy, c, width as nat),
        decreases height - y,
    {
        let mut x: u32 = 0;
        while x < width
            invariant
                out.wf(),
                reference.wf(),
                width == if out@.width >= reference@.width {
                    out@.width
                } else {
                    reference@.width
                },
                height == if out@.height >= reference@.height {
                    out@.height
                } else {
                    reference@.height
                },
                width * height * 4 <= u32::MAX,
                out@.width * out@.height <= u32::MAX,
                reference@.width * reference@.height <= u32::MAX,
                out@.width <= width,
                reference@.width <= width,
                0 <= y < height,
                0 <= x <= width,
                pixels@.len() == 4 * (y * width) + 4 * x,
                forall|xx: int, yy: int, c: int|
                    0 <= xx < width && 0 <= yy < y && 0 <= c < 4 ==> pixels@[4 * (yy * width + xx)
                        + c] == spec_diff_channel(out@, reference@, *strategy, xx, yy, c, width as nat),
                forall|xx: int, c: int|
                    0 <= xx < x && 0 <= c < 4 ==> pixels@[4 * (y * width + xx) + c]
                        == spec_diff_channel(out@, reference@, *strategy, xx, y as int, c, width as nat),
            decreases width - x,
        {
            proof {
                assert(y * width + x < width * height) by (nonlinear_arith)
                    requires
                        0 <= y < height,
                        0 <= x < width,
                ;
                assert(4 * (y * width) + 4 * x + 4 <= 4 * (width * height)) by (nonlinear_arith)
                    requires
                        y * width + x < width * height,
                        0 <= y * width + x,
                ;
                assert(4 * (width * height) <= u32::MAX) by (nonlinear_arith)
                    requires
                        width * height * 4 <= u32::MAX,
                ;
            }
            let (c0, c1, c2, c3) = diff_pixel(out, reference, strategy, x, y, width);
            pixels.push(c0);
            pixels.push(c1);
            pixels.push(c2);
            pixels.push(c3);
            proof {
                assert(pixels@.len() == 4 * (y * width) + 4 * (x + 1));
                assert forall|xx: int, yy: int, c: int|
                    0 <= xx < width && 0 <= yy < y && 0 <= c < 4 implies pixels@[4 * (yy * width
                    + xx) + c] == spec_diff_channel(
                    out@,
                    reference@,
                    *strategy,
                    xx,
                    yy,
                    c,
                    width as nat,
                ) by {
                    lemma_row_index_bound(yy, xx, y as int, width as int);
                }
                assert forall|xx: int, c: int|
                    0 <= xx < x + 1 && 0 <= c < 4 implies pixels@[4 * (y * width + xx) + c]
                    == spec_diff_channel(
                    out@,
                    reference@,
                    *strategy,
                    xx,
                    y as int,
                    c,
                    width as nat,
                ) by {
                    if xx < x {
                        assert(4 * (y * width + xx) + c < 4 * (y * width) + 4 * x);
                    } else {
                        assert(4 * (y * width + xx) + c == 4 * (y * width) + 4 * x + c);
                    }
                }
            }
            x += 1;
        }
        proof {
            assert(4 * (y * width) + 4 * width == 4 * ((y + 1) * width)) by (nonlinear_arith);
            assert forall|xx: int, yy: int, c: int|
                0 <= xx < width && 0 <= yy < y + 1 && 0 <= c < 4 implies pixels@[4 * (yy * width
                + xx) + c] == spec_diff_channel(
                out@,
                reference@,
                *strategy,
                xx,
                yy,
                c,
                width as nat,
            ) by {
            }
        }
        y += 1;
    }
    let r = Page { width, height, pixels };
    proof {
        assert(r.wf()) by (nonlinear_arith)
            requires
                r.pixels@.len() == 4 * (r.height * r.width),
                r.width == width,
                r.height == height,
                r.pixels@.len() == 4 * (height * width),
        ;
    }
    r
}

/// A pixel in an earlier row sits strictly before the current row's bytes.
proof fn lemma_row_index_bound(yy: int, xx: int, y: int, width: int)
    requires
        0 <= yy < y,
        0 <= xx < width,
    ensures
        4 * (yy * width + xx) + 3 < 4 * (y * width),
{
    assert(yy * width + xx < y * width) by (nonlinear_arith)
        requires
            0 <= yy < y,
            0 <= xx < width,
    ;
}

/// The four channels of one difference image pixel.
fn diff_pixel(out: &Page, reference: &Page, strategy: &Strategy, x: u32, y: u32, width: u32) -> (r:
    (u8, u8, u8, u8))
    requires
        out.wf(),
        reference.wf(),
        out@.width * out@.height <= u32::MAX,
        reference@.width * reference@.height <= u32::MAX,
        x < width,
        out@.width <= width,
        reference@.width <= width,
    ensures
        r.0 == spec_diff_channel(out@, reference@, *strategy, x as int, y as int, 0, width as nat),
        r.1 == spec_diff_channel(out@, reference@, *strategy, x as int, y as int, 1, width as nat),
        r.2 == spec_diff_channel(out@, reference@, *strategy, x as int, y as int, 2, width as nat),
        r.3 == spec_diff_channel(out@, reference@, *strategy, x as int, y as int, 3, width as nat),
{
    let rtl = matches!(strategy.direction, Direction::Rtl);
    let ox_ok: bool;
    let ox: u32;
    if rtl {
        let off = width - out.width;
        if x >= off {
            ox = x - off;
            ox_ok = true;
        } else {
            ox = 0;
            ox_ok = false;
        }
    } else {
        ox = x;
        ox_ok = true;
    }
    let rx_ok: bool;
    let rx: u32;
    if rtl {
        let off = width - reference.width;
        if x >= off {
            rx = x - off;
            rx_ok = true;
        } else {
            rx = 0;
            rx_ok = false;
        }
    } else {
        rx = x;
        rx_ok = true;
    }
    let in_out = ox_ok && ox < out.width && y < out.height;
    let in_ref = rx_ok && rx < reference.width && y < reference.height;
    if in_out {
        proof {
            assert((y as int) * out@.width + ox < out@.width * out@.height) by (nonlinear_arith)
                requires
                    0 <= (y as int) < out@.height,
                    0 <= (ox as int) < out@.width,
            ;
            assert(4 * ((y as int) * out@.width + ox) + 3 < out.pixels@.len()) by (nonlinear_arith)
                requires
                    (y as int) * out@.width + ox < out@.width * out@.height,
                    0 <= (y as int) * out@.width + ox,
                    out.pixels@.len() == 4 * out@.width * out@.height,
            ;
        }
        let plen_o = out.pixels.len();
        let po = y as usize * out.width as usize + ox as usize;
        proof {
            assert(4 * (po as int) + 3 < plen_o as int);
        }
        if in_ref {
            proof {
                assert((y as int) * reference@.width + rx < reference@.width * reference@.height)
                    by (nonlinear_arith)
                    requires
                        0 <= (y as int) < reference@.height,
                        0 <= (rx as int) < reference@.width,
                ;
                assert(4 * ((y as int) * reference@.width + rx) + 3 < reference.pixels@.len())
                    by (nonlinear_arith)
                    requires
                        (y as int) * reference@.width + rx < reference@.width * reference@.height,
                        0 <= (y as int) * reference@.width + rx,
                        reference.pixels@.len() == 4 * reference@.width * reference@.height,
                ;
            }
            let plen_r = reference.pixels.len();
            let pr = y as usize * reference.width as usize + rx as usize;
            proof {
                assert(4 * (pr as int) + 3 < plen_r as int);
            }
            let deviates = channel_exceeds(
                out.pixels[4 * po],
                reference.pixels[4 * pr],
                strategy.max_delta,
            ) || channel_exceeds(
                out.pixels[4 * po + 1],
                reference.pixels[4 * pr + 1],
                strategy.max_delta,
            ) || channel_exceeds(
                out.pixels[4 * po + 2],
                reference.pixels[4 * pr + 2],
                strategy.max_delta,
            ) || channel_exceeds(
                out.pixels[4 * po + 3],
                reference.pixels[4 * pr + 3],
                strategy.max_delta,
            );
            if deviates {
                return (255, 0, 0, 255);
            }
        }
        (
            out.pixels[4 * po],
            out.pixels[4 * po + 1],
            out.pixels[4 * po + 2],
            out.pixels[4 * po + 3],
        )
    } else if in_ref {
        proof {
            assert((y as int) * reference@.width + rx < reference@.width * reference@.height)
                by (nonlinear_arith)
                requires
                    0 <= (y as int) < reference@.height,
                    0 <= (rx as int) < reference@.width,
            ;
            assert(4 * ((y as int) * reference@.width + rx) + 3 < reference.pixels@.len())
                by (nonlinear_arith)
                requires
                    (y as int) * reference@.width + rx < reference@.width * reference@.height,
                    0 <= (y as int) * reference@.width + rx,
                    reference.pixels@.len() == 4 * reference@.width * reference@.height,
            ;
        }
        let plen_r = reference.pixels.len();
        let pr = y as usize * reference.width as usize + rx as usize;
        proof {
            assert(4 * (pr as int) + 3 < plen_r as int);
        }
        (
            reference.pixels[4 * pr],
            reference.pixels[4 * pr + 1],
            reference.pixels[4 * pr + 2],
            reference.pixels[4 * pr + 3],
        )
    } else {
        (0, 0, 0, 0)
    }
}

} // verus!
