use vstd::prelude::*;
use vstd::arithmetic::div_mod::lemma_fundamental_div_mod_converse;

use crate::image::{Image, ImageView, lemma_index_in_range};

verus! {

/// Largest accepted width or height of an image or template.
pub const MAX_DIM: u32 = 4096;

/// Largest accepted sample magnitude for match inputs.
///
/// Samples are fixed-point luma: a luma of 1.0 is represented as 256, so this
/// limit leaves ample headroom above the usual [0, 1] range.
pub const PIX_LIMIT: i128 = 65536;

/// Fixed-point scale of normalized correlation surfaces: a real value of 1.0
/// is represented as 65536. Raw surfaces carry the same scale, because each of
/// their terms is a product of two 256-per-unit samples.
pub const SCALE: i128 = 65536;

/// Internal sample bound during the passes: mean subtraction at most doubles
/// the magnitude of an input sample.
pub(crate) const WORK_BOUND: i128 = 131072;

/// Bound on a single window term over samples bounded by [`WORK_BOUND`].
pub(crate) const TERM_MAX: i128 = 68719476736;

/// Largest template area: `MAX_DIM * MAX_DIM`.
pub(crate) const AREA_MAX: i128 = 16777216;

/// The six supported matching methods.
#[derive(Copy, Clone, Debug, PartialEq, Eq, Structural)]
pub enum MatchTemplateMethod {
    SumOfSquaredDifference,
    SumOfSquaredDifferenceNormed,
    CrossCorrelation,
    CrossCorrelationNormed,
    CorrelationCoefficient,
    CorrelationCoefficientNormed,
}

impl MatchTemplateMethod {
    /// Lower surface values are better for the two difference methods,
    /// higher values for the other four.
    pub open spec fn lower_is_better(self) -> bool {
        self == MatchTemplateMethod::SumOfSquaredDifference
            || self == MatchTemplateMethod::SumOfSquaredDifferenceNormed
    }

    /// The two correlation-coefficient methods run a mean-subtraction
    /// pre-pass before correlating.
    pub open spec fn needs_mean_subtraction(self) -> bool {
        self == MatchTemplateMethod::CorrelationCoefficient
            || self == MatchTemplateMethod::CorrelationCoefficientNormed
    }

    /// The three normed methods divide by the joint energy of the window.
    pub open spec fn is_normed(self) -> bool {
        self == MatchTemplateMethod::SumOfSquaredDifferenceNormed
            || self == MatchTemplateMethod::CrossCorrelationNormed
            || self == MatchTemplateMethod::CorrelationCoefficientNormed
    }
}

/// `a` is a strictly better surface value than `b` under `method`.
pub open spec fn spec_more_match(a: int, b: int, method: MatchTemplateMethod) -> bool {
    if method.lower_is_better() {
        a < b
    } else {
        a > b
    }
}

/// Returns whether surface value `a` is a strictly better match than `b`
/// under the method's better-direction.
pub fn is_a_more_match_than_b(a: i128, b: i128, method: MatchTemplateMethod) -> (r: bool)
    ensures
        r == spec_more_match(a as int, b as int, method),
{
    if matches!(
        method,
        MatchTemplateMethod::SumOfSquaredDifference
            | MatchTemplateMethod::SumOfSquaredDifferenceNormed
    ) {
        a < b
    } else {
        a > b
    }
}

/// One candidate match: a surface location and its value.
#[derive(Copy, Clone, Debug, PartialEq, Eq)]
pub struct Match {
    pub location: (u32, u32),
    pub value: i128,
}

/// Rejected inputs of [`match_template`].
#[derive(Copy, Clone, Debug, PartialEq, Eq, Structural)]
pub enum MatchError {
    /// Empty input, an input larger than [`MAX_DIM`], or a template larger
    /// than the image without padding.
    DimensionError,
}

/// The kind of term a window sum accumulates.
#[derive(Copy, Clone, PartialEq, Eq, Structural)]
pub enum Term {
    /// `image * template`: cross correlation.
    Prod,
    /// `(image - template)^2`: sum of squared differences.
    SqDiff,
    /// `image^2`: window energy of the image side.
    Sq,
    /// `image`: plain window sum, for the mean pre-pass.
    Sum,
}

/// One term of a window sum, over the image sample `av` and the template
/// sample `bv`.
pub open spec fn term_val(t: Term, av: int, bv: int) -> int {
    match t {
        Term::Prod => av * bv,
        Term::SqDiff => (av - bv) * (av - bv),
        Term::Sq => av * av,
        Term::Sum => av,
    }
}

/// Partial window sum of the first `k` cells (row major over the template
/// shape) of the window of `a` whose top-left corner is `(x, y)`, paired with
/// the template `b`. Samples outside either buffer count as zero.
pub open spec fn win_part(
    t: Term,
    a: ImageView,
    b: ImageView,
    x: int,
    y: int,
    k: int,
) -> int
    decreases k,
{
    if k <= 0 {
        0
    } else {
        win_part(t, a, b, x, y, k - 1) + term_val(
            t,
            a.pix0(x + (k - 1) % b.width, y + (k - 1) / b.width),
            b.pix0((k - 1) % b.width, (k - 1) / b.width),
        )
    }
}

/// The full window sum: all `b.width * b.height` cells.
pub open spec fn win_sum(t: Term, a: ImageView, b: ImageView, x: int, y: int) -> int {
    win_part(t, a, b, x, y, b.width * b.height)
}

/// A term over samples bounded by [`WORK_BOUND`] is bounded by [`TERM_MAX`].
pub(crate) proof fn lemma_term_bound(t: Term, av: int, bv: int)
    requires
        -WORK_BOUND <= av <= WORK_BOUND,
        -WORK_BOUND <= bv <= WORK_BOUND,
    ensures
        -TERM_MAX <= term_val(t, av, bv) <= TERM_MAX,
{
    assert(-TERM_MAX <= av * bv <= TERM_MAX) by (nonlinear_arith)
        requires -WORK_BOUND <= av <= WORK_BOUND, -WORK_BOUND <= bv <= WORK_BOUND;
    assert(0 <= (av - bv) * (av - bv) <= TERM_MAX) by (nonlinear_arith)
        requires -WORK_BOUND <= av <= WORK_BOUND, -WORK_BOUND <= bv <= WORK_BOUND;
    assert(0 <= av * av <= TERM_MAX) by (nonlinear_arith)
        requires -WORK_BOUND <= av <= WORK_BOUND;
}

/// Samples of a well-formed view bounded by `bnd` are bounded as seen through
/// `pix0`.
pub(crate) proof fn lemma_pix0_bound(a: ImageView, x: int, y: int, bnd: int)
    requires
        a.wf(),
        a.bounded(bnd),
        0 <= bnd,
    ensures
        -bnd <= a.pix0(x, y) <= bnd,
{
    if 0 <= x < a.width && 0 <= y < a.height {
        lemma_index_in_range(a.width, a.height, x, y);
    }
}

/// A partial window sum over bounded samples is bounded by `k * TERM_MAX`.
pub(crate) proof fn lemma_win_part_bound(
    t: Term,
    a: ImageView,
    b: ImageView,
    x: int,
    y: int,
    k: int,
)
    requires
        a.wf(),
        b.wf(),
        a.bounded(WORK_BOUND as int),
        b.bounded(WORK_BOUND as int),
        0 <= k,
    ensures
        -(k * TERM_MAX) <= win_part(t, a, b, x, y, k) <= k * TERM_MAX,
    decreases k,
{
    if k > 0 {
        lemma_win_part_bound(t, a, b, x, y, k - 1);
        let cx = x + (k - 1) % b.width;
        let cy = y + (k - 1) / b.width;
        lemma_pix0_bound(a, cx, cy, WORK_BOUND as int);
        lemma_pix0_bound(b, (k - 1) % b.width, (k - 1) / b.width, WORK_BOUND as int);
        lemma_term_bound(t, a.pix0(cx, cy), b.pix0((k - 1) % b.width, (k - 1) / b.width));
    }
}

/// Window sums of squares are never negative.
pub(crate) proof fn lemma_win_part_nonneg(
    t: Term,
    a: ImageView,
    b: ImageView,
    x: int,
    y: int,
    k: int,
)
    requires
        t == Term::SqDiff || t == Term::Sq,
    ensures
        0 <= win_part(t, a, b, x, y, k),
    decreases k,
{
    if k > 0 {
        lemma_win_part_nonneg(t, a, b, x, y, k - 1);
        let av = a.pix0(x + (k - 1) % b.width, y + (k - 1) / b.width);
        let bv = b.pix0((k - 1) % b.width, (k - 1) / b.width);
        assert(0 <= (av - bv) * (av - bv)) by (nonlinear_arith);
        assert(0 <= av * av) by (nonlinear_arith);
    }
}

/// The row-major cell index `j * tw + i` decomposes back into `(i, j)`.
pub(crate) proof fn lemma_cell(i: int, j: int, tw: int)
    requires
        0 <= i < tw,
        0 <= j,
    ensures
        (j * tw + i) % tw == i,
        (j * tw + i) / tw == j,
        0 <= j * tw + i,
{
    assert(j * tw + i == tw * j + i) by (nonlinear_arith);
    assert(0 <= j * tw) by (nonlinear_arith) requires 0 <= j, 0 < tw;
    lemma_fundamental_div_mod_converse(j * tw + i, tw, j, i);
}

/// Computes the window sum of kind `t` for the window of `img` with top-left
/// corner `(x, y)` and the shape and samples of `tpl`; samples outside `img`
/// count as zero.
pub(crate) fn window_sum_exec(t: Term, img: &Image, tpl: &Image, x: u32, y: u32) -> (r: i128)
    requires
        img@.wf(),
        tpl@.wf(),
        img@.bounded(WORK_BOUND as int),
        tpl@.bounded(WORK_BOUND as int),
        1 <= tpl@.width <= MAX_DIM,
        1 <= tpl@.height <= MAX_DIM,
    ensures
        r == win_sum(t, img@, tpl@, x as int, y as int),
        -(AREA_MAX * TERM_MAX) <= r <= AREA_MAX * TERM_MAX,
{
    let tw = tpl.width();
    let th = tpl.height();
    let mut acc: i128 = 0;
    let mut j: u32 = 0;
    while j < th
        invariant
            img@.wf(),
            tpl@.wf(),
            img@.bounded(WORK_BOUND as int),
            tpl@.bounded(WORK_BOUND as int),
            tw == tpl@.width,
            th == tpl@.height,
            1 <= tw <= MAX_DIM,
            1 <= th <= MAX_DIM,
            j <= th,
            acc == win_part(t, img@, tpl@, x as int, y as int, (j as int) * (tw as int)),
            -((j as int) * (tw as int) * TERM_MAX) <= acc
                <= (j as int) * (tw as int) * TERM_MAX,
        decreases th - j,
    {
        let mut i: u32 = 0;
        proof {
            assert(0 <= (j as int) * (tw as int)) by (nonlinear_arith) requires 0 <= j as int;
        }
        while i < tw
            invariant
                img@.wf(),
                tpl@.wf(),
                img@.bounded(WORK_BOUND as int),
                tpl@.bounded(WORK_BOUND as int),
                tw == tpl@.width,
                th == tpl@.height,
                1 <= tw <= MAX_DIM,
                1 <= th <= MAX_DIM,
                j < th,
                i <= tw,
                acc == win_part(t, img@, tpl@, x as int, y as int,
                    (j as int) * (tw as int) + i as int),
                -(((j as int) * (tw as int) + i as int) * TERM_MAX) <= acc
                    <= ((j as int) * (tw as int) + i as int) * TERM_MAX,
                0 <= (j as int) * (tw as int),
            decreases tw - i,
        {
            let ghost k: int = (j as int) * (tw as int) + i as int;
            let iw64: u64 = img.width() as u64;
            let ih64: u64 = img.height() as u64;
            let a: i128 = if (x as u64 + i as u64) < iw64 && (y as u64 + j as u64) < ih64 {
                img.get_pixel(x + i, y + j)
            } else {
                0
            };
            let b = tpl.get_pixel(i, j);
            proof {
                lemma_cell(i as int, j as int, tw as int);
                lemma_index_in_range(tw as int, th as int, i as int, j as int);
                assert((tw as int) * (th as int) <= AREA_MAX) by (nonlinear_arith)
                    requires 1 <= tw as int <= 4096, 1 <= th as int <= 4096;
                assert(k < AREA_MAX);
                lemma_pix0_bound(img@, x + i as int, y + j as int, WORK_BOUND as int);
                lemma_pix0_bound(tpl@, i as int, j as int, WORK_BOUND as int);
                if (x as int + i as int) < img@.width && (y as int + j as int) < img@.height {
                    lemma_index_in_range(img@.width, img@.height, x + i as int, y + j as int);
                    assert(img@.pix0(x + i as int, y + j as int) == a);
                } else {
                    assert(img@.pix0(x + i as int, y + j as int) == 0);
                }
                assert(tpl@.pix0(i as int, j as int) == b);
                lemma_term_bound(t, a as int, b as int);
                assert(win_part(t, img@, tpl@, x as int, y as int, k + 1)
                    == win_part(t, img@, tpl@, x as int, y as int, k)
                        + term_val(t, img@.pix0(x + i as int, y + j as int),
                            tpl@.pix0(i as int, j as int)));
                assert((k + 1) * TERM_MAX == k * TERM_MAX + TERM_MAX) by (nonlinear_arith);
            }
            let term: i128 = match t {
                Term::Prod => a * b,
                Term::SqDiff => (a - b) * (a - b),
                Term::Sq => a * a,
                Term::Sum => a,
            };
            acc = acc + term;
            i += 1;
        }
        proof {
            assert(((j + 1) as int) * (tw as int) == (j as int) * (tw as int) + tw as int)
                by (nonlinear_arith);
        }
        j += 1;
    }
    proof {
        assert((th as int) * (tw as int) == (tw as int) * (th as int)) by (nonlinear_arith);
        assert((th as int) * (tw as int) <= AREA_MAX) by (nonlinear_arith)
            requires 1 <= tw as int <= 4096, 1 <= th as int <= 4096;
        assert((th as int) * (tw as int) * TERM_MAX <= AREA_MAX * TERM_MAX);
    }
    acc
}

/// A `Sum` window sum ignores the template's samples: only its shape matters.
pub(crate) proof fn lemma_win_part_sum_shape(
    a: ImageView,
    b1: ImageView,
    b2: ImageView,
    x: int,
    y: int,
    k: int,
)
    requires
        b1.width == b2.width,
    ensures
        win_part(Term::Sum, a, b1, x, y, k) == win_part(Term::Sum, a, b2, x, y, k),
    decreases k,
{
    if k > 0 {
        lemma_win_part_sum_shape(a, b1, b2, x, y, k - 1);
    }
}

/// A `Sum` window sum over samples bounded by `bnd` is bounded by `k * bnd`.
pub(crate) proof fn lemma_win_part_sum_bound(
    a: ImageView,
    b: ImageView,
    x: int,
    y: int,
    k: int,
    bnd: int,
)
    requires
        a.wf(),
        a.bounded(bnd),
        0 <= bnd,
        0 <= k,
    ensures
        -(k * bnd) <= win_part(Term::Sum, a, b, x, y, k) <= k * bnd,
    decreases k,
{
    if k > 0 {
        lemma_win_part_sum_bound(a, b, x, y, k - 1, bnd);
        lemma_pix0_bound(a, x + (k - 1) % b.width, y + (k - 1) / b.width, bnd);
        assert((k - 1) * bnd + bnd == k * bnd) by (nonlinear_arith);
    }
}

/// Truncating division by a window area keeps a sum of bounded samples
/// bounded by the sample bound.
pub(crate) proof fn lemma_tdiv_bound(s: int, area: int, bnd: int)
    requires
        1 <= area,
        0 <= bnd,
        -(area * bnd) <= s <= area * bnd,
    ensures
        -bnd <= tdiv(s, area) <= bnd,
{
    if s >= 0 {
        vstd::arithmetic::div_mod::lemma_div_is_ordered(s, area * bnd, area);
        vstd::arithmetic::div_mod::lemma_div_by_multiple(bnd, area);
        vstd::arithmetic::div_mod::lemma_div_pos_is_pos(s, area);
        assert(bnd * area == area * bnd) by (nonlinear_arith);
    } else {
        vstd::arithmetic::div_mod::lemma_div_is_ordered(-s, area * bnd, area);
        vstd::arithmetic::div_mod::lemma_div_by_multiple(bnd, area);
        vstd::arithmetic::div_mod::lemma_div_pos_is_pos(-s, area);
        assert(bnd * area == area * bnd) by (nonlinear_arith);
    }
}

/// `r` is the integer square root of `n`.
pub open spec fn is_isqrt(n: int, r: int) -> bool {
    0 <= r && r * r <= n && n < (r + 1) * (r + 1)
}

/// The integer square root of `n` (meaningful for `n >= 0`).
pub open spec fn isqrt_spec(n: int) -> int {
    choose|r: int| #[trigger] is_isqrt(n, r)
}

/// There is an integer square root for every nonnegative `n`.
pub proof fn lemma_isqrt_exists(n: int)
    requires
        0 <= n,
    ensures
        exists|r: int| #[trigger] is_isqrt(n, r),
    decreases n,
{
    if n == 0 {
        assert(is_isqrt(0, 0));
    } else {
        lemma_isqrt_exists(n - 1);
        let r = choose|r: int| #[trigger] is_isqrt(n - 1, r);
        if (r + 1) * (r + 1) <= n {
            assert(n < (r + 2) * (r + 2)) by (nonlinear_arith)
                requires n - 1 < (r + 1) * (r + 1), 0 <= r;
            assert(is_isqrt(n, r + 1));
        } else {
            assert(is_isqrt(n, r));
        }
    }
}

/// Integer square roots are unique, so any witness equals `isqrt_spec`.
pub proof fn lemma_isqrt_eq(n: int, r: int)
    requires
        is_isqrt(n, r),
    ensures
        r == isqrt_spec(n),
{
    assert(0 <= n) by (nonlinear_arith) requires 0 <= r, r * r <= n;
    lemma_isqrt_exists(n);
    let r2 = isqrt_spec(n);
    assert(is_isqrt(n, r2));
    assert(r == r2) by (nonlinear_arith)
        requires
            0 <= r, r * r <= n, n < (r + 1) * (r + 1),
            0 <= r2, r2 * r2 <= n, n < (r2 + 1) * (r2 + 1);
}

/// Computes the integer square root of `n` by bisection.
pub fn isqrt(n: u128) -> (r: u128)
    ensures
        is_isqrt(n as int, r as int),
        r == isqrt_spec(n as int),
{
    let mut lo: u128 = 0;
    let mut hi: u128 = 0x10000000000000000;
    proof {
        assert((hi as int) * (hi as int) > u128::MAX as int) by (nonlinear_arith)
            requires hi as int == 0x10000000000000000int;
    }
    while lo + 1 < hi
        invariant
            lo < hi,
            hi <= 0x10000000000000000,
            (lo as int) * (lo as int) <= n as int,
            (n as int) < (hi as int) * (hi as int),
        decreases hi - lo,
    {
        let mid = lo + (hi - lo) / 2;
        proof {
            assert(lo < mid < hi);
            assert((mid as int) * (mid as int) < u128::MAX as int) by (nonlinear_arith)
                requires mid as int <= 0xffffffffffffffffint;
        }
        if mid * mid <= n {
            lo = mid;
        } else {
            hi = mid;
        }
    }
    proof {
        lemma_isqrt_eq(n as int, lo as int);
    }
    lo
}

/// Truncating division of `a` by a positive `b`; zero when `b` is not
/// positive (a degenerate, all-zero window).
pub open spec fn tdiv(a: int, b: int) -> int {
    if b <= 0 {
        0
    } else if a >= 0 {
        a / b
    } else {
        -((-a) / b)
    }
}

/// Fixed-point quotient of a window sum by a normalization denominator:
/// `num * SCALE / den`, truncated toward zero; zero when `den` is zero.
pub open spec fn scaled_div(num: int, den: int) -> int {
    tdiv(num * SCALE, den)
}

/// Largest window-sum magnitude the passes can produce.
pub(crate) const SUM_MAX: i128 = 1152921504606846976;

/// Computes `tdiv(a, b)`.
pub(crate) fn tdiv_exec(a: i128, b: i128) -> (r: i128)
    requires
        0 <= b,
        -SUM_MAX <= a <= SUM_MAX,
    ensures
        r == tdiv(a as int, b as int),
        b > 0 ==> -SUM_MAX <= r <= SUM_MAX,
        b <= 0 ==> r == 0,
{
    if b == 0 {
        0
    } else if a >= 0 {
        let q = (a as u128) / (b as u128);
        proof {
            vstd::arithmetic::div_mod::lemma_div_is_ordered(0, a as int, b as int);
            vstd::arithmetic::div_mod::lemma_div_is_ordered_by_denominator(a as int, 1, b as int);
        }
        q as i128
    } else {
        let q = ((-a) as u128) / (b as u128);
        proof {
            vstd::arithmetic::div_mod::lemma_div_is_ordered(0, -a as int, b as int);
            vstd::arithmetic::div_mod::lemma_div_is_ordered_by_denominator(-a as int, 1, b as int);
        }
        -(q as i128)
    }
}

/// Computes `scaled_div(num, den)`.
pub(crate) fn scaled_div_exec(num: i128, den: i128) -> (r: i128)
    requires
        0 <= den,
        -SUM_MAX <= num <= SUM_MAX,
    ensures
        r == scaled_div(num as int, den as int),
{
    if den == 0 {
        0
    } else if num >= 0 {
        proof {
            assert((num as int) * (SCALE as int) <= SUM_MAX * (SCALE as int)) by (nonlinear_arith)
                requires 0 <= num as int <= SUM_MAX as int;
        }
        let q = ((num as u128) * (SCALE as u128)) / (den as u128);
        proof {
            vstd::arithmetic::div_mod::lemma_div_is_ordered(0, num * SCALE, den as int);
            vstd::arithmetic::div_mod::lemma_div_is_ordered_by_denominator(num * SCALE, 1, den as int);
        }
        q as i128
    } else {
        proof {
            assert(((-num) as int) * (SCALE as int) <= SUM_MAX * (SCALE as int)) by (nonlinear_arith)
                requires 0 <= (-num) as int <= SUM_MAX as int;
        }
        let q = (((-num) as u128) * (SCALE as u128)) / (den as u128);
        proof {
            vstd::arithmetic::div_mod::lemma_div_is_ordered(0, (-num) * SCALE, den as int);
            vstd::arithmetic::div_mod::lemma_div_is_ordered_by_denominator((-num) * SCALE, 1, den as int);
        }
        -(q as i128)
    }
}

/// A window shape of `tw` by `th` cells with all-zero samples, used where only
/// the shape of the template matters.
pub open spec fn shape_view(tw: int, th: int) -> ImageView {
    ImageView { width: tw, height: th, data: Seq::new((tw * th) as nat, |k: int| 0i128) }
}

/// The local average of `a` under a `tw` by `th` window whose top-left corner
/// sits at the pixel, truncated toward zero; windows reach past the image as
/// zeros.
pub open spec fn local_mean(a: ImageView, tw: int, th: int, x: int, y: int) -> int {
    tdiv(win_part(Term::Sum, a, shape_view(tw, th), x, y, tw * th), tw * th)
}

/// The image with its local average subtracted from every sample.
pub open spec fn zero_mean_image(a: ImageView, tw: int, th: int) -> ImageView {
    ImageView {
        width: a.width,
        height: a.height,
        data: Seq::new(
            a.data.len(),
            |k: int| (a.data[k] - local_mean(a, tw, th, k % a.width, k / a.width)) as i128,
        ),
    }
}

/// The template average: its full window sum divided by its area, truncated
/// toward zero.
pub open spec fn template_mean(t: ImageView) -> int {
    tdiv(
        win_part(Term::Sum, t, shape_view(t.width, t.height), 0, 0, t.width * t.height),
        t.width * t.height,
    )
}

/// The template with its scalar average subtracted from every sample.
pub open spec fn zero_mean_template(t: ImageView) -> ImageView {
    ImageView {
        width: t.width,
        height: t.height,
        data: Seq::new(t.data.len(), |k: int| (t.data[k] - template_mean(t)) as i128),
    }
}

/// The image actually correlated: after the mean-subtraction pre-pass for
/// the correlation-coefficient methods. Zero extension for padding is built
/// into the window sums, so padding does not change the samples, only the
/// surface dimensions.
pub open spec fn effective_image(
    a: ImageView,
    t: ImageView,
    method: MatchTemplateMethod,
) -> ImageView {
    if method.needs_mean_subtraction() {
        zero_mean_image(a, t.width, t.height)
    } else {
        a
    }
}

/// The template actually correlated: zero mean for the
/// correlation-coefficient methods, the template unchanged otherwise.
pub open spec fn effective_template(t: ImageView, method: MatchTemplateMethod) -> ImageView {
    if method.needs_mean_subtraction() {
        zero_mean_template(t)
    } else {
        t
    }
}

/// The normalization denominator at `(x, y)`: the integer square root of the
/// product of the window energy of the image and the energy of the template.
pub open spec fn norm_den(ea: ImageView, et: ImageView, x: int, y: int) -> int {
    isqrt_spec(win_sum(Term::Sq, ea, et, x, y) * win_sum(Term::Sq, et, et, 0, 0))
}

/// The surface value at `(x, y)` over the effective image and template.
pub open spec fn method_value(
    method: MatchTemplateMethod,
    ea: ImageView,
    et: ImageView,
    x: int,
    y: int,
) -> int {
    match method {
        MatchTemplateMethod::SumOfSquaredDifference => win_sum(Term::SqDiff, ea, et, x, y),
        MatchTemplateMethod::SumOfSquaredDifferenceNormed => scaled_div(
            win_sum(Term::SqDiff, ea, et, x, y),
            norm_den(ea, et, x, y),
        ),
        MatchTemplateMethod::CrossCorrelation => win_sum(Term::Prod, ea, et, x, y),
        MatchTemplateMethod::CrossCorrelationNormed => scaled_div(
            win_sum(Term::Prod, ea, et, x, y),
            norm_den(ea, et, x, y),
        ),
        MatchTemplateMethod::CorrelationCoefficient => win_sum(Term::Prod, ea, et, x, y),
        MatchTemplateMethod::CorrelationCoefficientNormed => scaled_div(
            win_sum(Term::Prod, ea, et, x, y),
            norm_den(ea, et, x, y),
        ),
    }
}

/// The value the whole pipeline assigns to surface position `(x, y)` for
/// the input image `a` and template `t`.
pub open spec fn surface_value(
    a: ImageView,
    t: ImageView,
    method: MatchTemplateMethod,
    x: int,
    y: int,
) -> int {
    method_value(method, effective_image(a, t, method), effective_template(t, method), x, y)
}

/// The width of the correlation surface.
pub open spec fn surface_width(a: ImageView, t: ImageView, padding: bool) -> int {
    if padding {
        a.width + t.width - 1
    } else {
        a.width - t.width + 1
    }
}

/// The height of the correlation surface.
pub open spec fn surface_height(a: ImageView, t: ImageView, padding: bool) -> int {
    if padding {
        a.height + t.height - 1
    } else {
        a.height - t.height + 1
    }
}

/// The inputs `match_template` accepts: non-empty buffers within [`MAX_DIM`],
/// and, without padding, a template no larger than the image.
pub open spec fn dims_ok(a: ImageView, t: ImageView, padding: bool) -> bool {
    1 <= a.width <= MAX_DIM && 1 <= a.height <= MAX_DIM
        && 1 <= t.width <= MAX_DIM && 1 <= t.height <= MAX_DIM
        && (padding || (t.width <= a.width && t.height <= a.height))
}

/// Builds the mean-subtracted image: every sample less its truncated local
/// average under the template-shaped window.
pub(crate) fn build_zero_mean_image(img: &Image, tpl: &Image) -> (r: Image)
    requires
        img@.wf(),
        tpl@.wf(),
        img@.bounded(PIX_LIMIT as int),
        tpl@.bounded(PIX_LIMIT as int),
        1 <= img@.width <= MAX_DIM,
        1 <= img@.height <= MAX_DIM,
        1 <= tpl@.width <= MAX_DIM,
        1 <= tpl@.height <= MAX_DIM,
    ensures
        r@ == zero_mean_image(img@, tpl@.width, tpl@.height),
        r@.wf(),
        r@.bounded(WORK_BOUND as int),
{
    let w = img.width();
    let h = img.height();
    let tw = tpl.width();
    let th = tpl.height();
    let ghost target: ImageView = zero_mean_image(img@, tpl@.width, tpl@.height);
    let ghost area: int = (tw as int) * (th as int);
    proof {
        assert(1 <= (tw as int) * (th as int) <= AREA_MAX) by (nonlinear_arith)
            requires 1 <= tw as int <= 4096, 1 <= th as int <= 4096;
    }
    let mut data: Vec<i128> = Vec::new();
    let mut y: u32 = 0;
    while y < h
        invariant
            img@.wf(),
            tpl@.wf(),
            img@.bounded(PIX_LIMIT as int),
            tpl@.bounded(PIX_LIMIT as int),
            w == img@.width,
            h == img@.height,
            tw == tpl@.width,
            th == tpl@.height,
            1 <= w <= MAX_DIM,
            1 <= h <= MAX_DIM,
            1 <= tw <= MAX_DIM,
            1 <= th <= MAX_DIM,
            area == (tw as int) * (th as int),
            1 <= area <= AREA_MAX,
            target == zero_mean_image(img@, tpl@.width, tpl@.height),
            y <= h,
            data@.len() == (y as int) * (w as int),
            forall|k: int| 0 <= k < data@.len() ==> data@[k] == target.data[k],
            forall|k: int| 0 <= k < data@.len()
                ==> -WORK_BOUND <= #[trigger] data@[k] <= WORK_BOUND,
        decreases h - y,
    {
        let mut x: u32 = 0;
        while x < w
            invariant
                img@.wf(),
                tpl@.wf(),
                img@.bounded(PIX_LIMIT as int),
                tpl@.bounded(PIX_LIMIT as int),
                w == img@.width,
                h == img@.height,
                tw == tpl@.width,
                th == tpl@.height,
                1 <= w <= MAX_DIM,
                1 <= h <= MAX_DIM,
                1 <= tw <= MAX_DIM,
                1 <= th <= MAX_DIM,
                area == (tw as int) * (th as int),
                1 <= area <= AREA_MAX,
                target == zero_mean_image(img@, tpl@.width, tpl@.height),
                y < h,
                x <= w,
                data@.len() == (y as int) * (w as int) + x as int,
                forall|k: int| 0 <= k < data@.len() ==> data@[k] == target.data[k],
                forall|k: int| 0 <= k < data@.len()
                    ==> -WORK_BOUND <= #[trigger] data@[k] <= WORK_BOUND,
            decreases w - x,
        {
            let ghost k: int = (y as int) * (w as int) + x as int;
            let s = window_sum_exec(Term::Sum, img, tpl, x, y);
            let area_exec: i128 = (tw as i128) * (th as i128);
            let m = tdiv_exec(s, area_exec);
            let p = img.get_pixel(x, y);
            proof {
                lemma_cell(x as int, y as int, w as int);
                lemma_index_in_range(w as int, h as int, x as int, y as int);
                lemma_win_part_sum_shape(
                    img@, tpl@, shape_view(tw as int, th as int), x as int, y as int, area);
                lemma_win_part_sum_bound(
                    img@, shape_view(tw as int, th as int), x as int, y as int, area,
                    PIX_LIMIT as int);
                assert(area * PIX_LIMIT <= AREA_MAX * PIX_LIMIT);
                lemma_tdiv_bound(
                    win_part(Term::Sum, img@, shape_view(tw as int, th as int),
                        x as int, y as int, area),
                    area, PIX_LIMIT as int);
                assert(m == local_mean(img@, tpl@.width, tpl@.height, x as int, y as int));
                lemma_pix0_bound(img@, x as int, y as int, PIX_LIMIT as int);
                assert(img@.pix0(x as int, y as int) == p);
                assert(target.data[k] == (img@.data[k] - local_mean(
                    img@, tpl@.width, tpl@.height, k % img@.width, k / img@.width)) as i128);
                assert(img@.data[k] == p);
            }
            data.push(p - m);
            x += 1;
        }
        proof {
            assert(((y + 1) as int) * (w as int) == (y as int) * (w as int) + w as int)
                by (nonlinear_arith);
        }
        y += 1;
    }
    proof {
        assert(data@.len() == (h as int) * (w as int));
        assert((h as int) * (w as int) == (w as int) * (h as int)) by (nonlinear_arith);
        assert(data@ =~= target.data);
    }
    let r = Image::from_parts(w, h, data);
    proof {
        assert(r@ =~= target);
    }
    r
}

/// Builds the mean-subtracted template: every sample less the template's own
/// truncated average.
pub(crate) fn build_zero_mean_template(tpl: &Image) -> (r: Image)
    requires
        tpl@.wf(),
        tpl@.bounded(PIX_LIMIT as int),
        1 <= tpl@.width <= MAX_DIM,
        1 <= tpl@.height <= MAX_DIM,
    ensures
        r@ == zero_mean_template(tpl@),
        r@.wf(),
        r@.bounded(WORK_BOUND as int),
{
    let tw = tpl.width();
    let th = tpl.height();
    let ghost target: ImageView = zero_mean_template(tpl@);
    let ghost area: int = (tw as int) * (th as int);
    proof {
        assert(1 <= (tw as int) * (th as int) <= AREA_MAX) by (nonlinear_arith)
            requires 1 <= tw as int <= 4096, 1 <= th as int <= 4096;
    }
    let s = window_sum_exec(Term::Sum, tpl, tpl, 0, 0);
    let area_exec: i128 = (tw as i128) * (th as i128);
    let m = tdiv_exec(s, area_exec);
    proof {
        lemma_win_part_sum_shape(tpl@, tpl@, shape_view(tw as int, th as int), 0, 0, area);
        lemma_win_part_sum_bound(
            tpl@, shape_view(tw as int, th as int), 0, 0, area, PIX_LIMIT as int);
        assert(area * PIX_LIMIT <= AREA_MAX * PIX_LIMIT);
        lemma_tdiv_bound(
            win_part(Term::Sum, tpl@, shape_view(tw as int, th as int), 0, 0, area),
            area, PIX_LIMIT as int);
        assert(m == template_mean(tpl@));
    }
    let raw = tpl.as_raw();
    let n = raw.len();
    let mut data: Vec<i128> = Vec::new();
    let mut i: usize = 0;
    while i < n
        invariant
            tpl@.wf(),
            tpl@.bounded(PIX_LIMIT as int),
            n == tpl@.data.len(),
            raw@ == tpl@.data,
            -PIX_LIMIT <= m as int <= PIX_LIMIT,
            m == template_mean(tpl@),
            target == zero_mean_template(tpl@),
            i <= n,
            data@.len() == i,
            forall|k: int| 0 <= k < i ==> data@[k] == target.data[k],
            forall|k: int| 0 <= k < i ==> -WORK_BOUND <= #[trigger] data@[k] <= WORK_BOUND,
        decreases n - i,
    {
        let v = raw[i];
        data.push(v - m);
        i += 1;
    }
    proof {
        assert(data@ =~= target.data);
    }
    let r = Image::from_parts(tw, th, data);
    proof {
        assert(r@ =~= target);
    }
    r
}

/// Runs the selected kernel over every surface position of the effective
/// image and template.
pub(crate) fn compute_surface(
    ea: &Image,
    et: &Image,
    method: MatchTemplateMethod,
    rw: u32,
    rh: u32,
) -> (r: Image)
    requires
        ea@.wf(),
        et@.wf(),
        ea@.bounded(WORK_BOUND as int),
        et@.bounded(WORK_BOUND as int),
        1 <= et@.width <= MAX_DIM,
        1 <= et@.height <= MAX_DIM,
        1 <= rw <= 8191,
        1 <= rh <= 8191,
    ensures
        r@.wf(),
        r@.width == rw,
        r@.height == rh,
        forall|x: int, y: int|
            0 <= x < r@.width && 0 <= y < r@.height
                ==> #[trigger] r@.pix(x, y) == method_value(method, ea@, et@, x, y),
{
    let dt = window_sum_exec(Term::Sq, et, et, 0, 0);
    proof {
        lemma_win_part_nonneg(Term::Sq, et@, et@, 0, 0, et@.width * et@.height);
    }
    let mut data: Vec<i128> = Vec::new();
    let mut y: u32 = 0;
    while y < rh
        invariant
            ea@.wf(),
            et@.wf(),
            ea@.bounded(WORK_BOUND as int),
            et@.bounded(WORK_BOUND as int),
            1 <= et@.width <= MAX_DIM,
            1 <= et@.height <= MAX_DIM,
            1 <= rw <= 8191,
            1 <= rh <= 8191,
            dt == win_sum(Term::Sq, et@, et@, 0, 0),
            0 <= dt <= SUM_MAX,
            y <= rh,
            data@.len() == (y as int) * (rw as int),
            forall|k: int| 0 <= k < data@.len()
                ==> #[trigger] data@[k] as int == method_value(
                    method, ea@, et@, k % (rw as int), k / (rw as int)),
        decreases rh - y,
    {
        let mut x: u32 = 0;
        while x < rw
            invariant
                ea@.wf(),
                et@.wf(),
                ea@.bounded(WORK_BOUND as int),
                et@.bounded(WORK_BOUND as int),
                1 <= et@.width <= MAX_DIM,
                1 <= et@.height <= MAX_DIM,
                1 <= rw <= 8191,
                1 <= rh <= 8191,
                dt == win_sum(Term::Sq, et@, et@, 0, 0),
                0 <= dt <= SUM_MAX,
                y < rh,
                x <= rw,
                data@.len() == (y as int) * (rw as int) + x as int,
                forall|k: int| 0 <= k < data@.len()
                    ==> #[trigger] data@[k] as int == method_value(
                        method, ea@, et@, k % (rw as int), k / (rw as int)),
            decreases rw - x,
        {
            let ghost k: int = (y as int) * (rw as int) + x as int;
            let v: i128 = match method {
                MatchTemplateMethod::SumOfSquaredDifference => {
                    window_sum_exec(Term::SqDiff, ea, et, x, y)
                }
                MatchTemplateMethod::CrossCorrelation
                | MatchTemplateMethod::CorrelationCoefficient => {
                    window_sum_exec(Term::Prod, ea, et, x, y)
                }
                MatchTemplateMethod::SumOfSquaredDifferenceNormed => {
                    let num = window_sum_exec(Term::SqDiff, ea, et, x, y);
                    let den = norm_den_exec(ea, et, x, y, dt);
                    scaled_div_exec(num, den)
                }
                MatchTemplateMethod::CrossCorrelationNormed
                | MatchTemplateMethod::CorrelationCoefficientNormed => {
                    let num = window_sum_exec(Term::Prod, ea, et, x, y);
                    let den = norm_den_exec(ea, et, x, y, dt);
                    scaled_div_exec(num, den)
                }
            };
            proof {
                lemma_cell(x as int, y as int, rw as int);
                assert(v as int == method_value(method, ea@, et@, x as int, y as int));
            }
            data.push(v);
            x += 1;
        }
        proof {
            assert(((y + 1) as int) * (rw as int) == (y as int) * (rw as int) + rw as int)
                by (nonlinear_arith);
        }
        y += 1;
    }
    proof {
        assert((rh as int) * (rw as int) == (rw as int) * (rh as int)) by (nonlinear_arith);
    }
    let r = Image::from_parts(rw, rh, data);
    proof {
        assert forall|x: int, y: int|
            0 <= x < r@.width && 0 <= y < r@.height
                implies #[trigger] r@.pix(x, y) == method_value(method, ea@, et@, x, y) by {
            lemma_cell(x, y, rw as int);
            lemma_index_in_range(rw as int, rh as int, x, y);
        }
    }
    r
}

/// Computes the normalization denominator at `(x, y)`, given the template
/// energy `dt`.
pub(crate) fn norm_den_exec(ea: &Image, et: &Image, x: u32, y: u32, dt: i128) -> (r: i128)
    requires
        ea@.wf(),
        et@.wf(),
        ea@.bounded(WORK_BOUND as int),
        et@.bounded(WORK_BOUND as int),
        1 <= et@.width <= MAX_DIM,
        1 <= et@.height <= MAX_DIM,
        dt == win_sum(Term::Sq, et@, et@, 0, 0),
        0 <= dt <= SUM_MAX,
    ensures
        r == norm_den(ea@, et@, x as int, y as int),
        0 <= r,
{
    let di = window_sum_exec(Term::Sq, ea, et, x, y);
    proof {
        lemma_win_part_nonneg(Term::Sq, ea@, et@, x as int, y as int, et@.width * et@.height);
        assert(0 <= (di as int) * (dt as int) <= 0x1000000000000000000000000000000)
            by (nonlinear_arith)
            requires
                0 <= di as int <= SUM_MAX as int,
                0 <= dt as int <= SUM_MAX as int;
    }
    let prod: i128 = di * dt;
    let den_u = isqrt(prod as u128);
    proof {
        assert((den_u as int) * (den_u as int) <= prod as int);
        assert(den_u as int <= 0x2000000000000000) by (nonlinear_arith)
            requires
                0 <= den_u as int,
                (den_u as int) * (den_u as int) <= 0x1000000000000000000000000000000int;
    }
    den_u as i128
}

/// `s` is the correlation surface of `a` against `t` under `method` and
/// `padding`: it has the mandated dimensions and every sample equals
/// [`surface_value`].
pub open spec fn is_surface_for(
    s: ImageView,
    a: ImageView,
    t: ImageView,
    method: MatchTemplateMethod,
    padding: bool,
) -> bool {
    &&& s.wf()
    &&& s.width == surface_width(a, t, padding)
    &&& s.height == surface_height(a, t, padding)
    &&& forall|x: int, y: int|
        0 <= x < s.width && 0 <= y < s.height
            ==> #[trigger] s.pix(x, y) == surface_value(a, t, method, x, y)
}

/// Bounded samples stay bounded under a larger bound.
pub(crate) proof fn lemma_bounded_mono(a: ImageView, b1: int, b2: int)
    requires
        a.bounded(b1),
        b1 <= b2,
    ensures
        a.bounded(b2),
{
}

/// Computes the correlation surface of `image` against `template` under
/// `method`.
///
/// Without padding the surface has `image - template + 1` columns and rows;
/// with padding the image is zero-extended first and the surface has
/// `image + template - 1` of each. Inputs outside [`dims_ok`] are rejected
/// with [`MatchError::DimensionError`] before any size arithmetic.
pub fn match_template(
    image: &Image,
    template: &Image,
    method: MatchTemplateMethod,
    padding: bool,
) -> (r: Result<Image, MatchError>)
    requires
        image@.wf(),
        template@.wf(),
        image@.bounded(PIX_LIMIT as int),
        template@.bounded(PIX_LIMIT as int),
    ensures
        r.is_ok() <==> dims_ok(image@, template@, padding),
        match r {
            Ok(surface) => is_surface_for(surface@, image@, template@, method, padding),
            Err(e) => e == MatchError::DimensionError,
        },
        method.is_normed() && method != MatchTemplateMethod::SumOfSquaredDifferenceNormed
            && r.is_ok() ==> forall|x: int, y: int|
                0 <= x < r.unwrap()@.width && 0 <= y < r.unwrap()@.height
                    ==> -SCALE <= #[trigger] r.unwrap()@.pix(x, y) <= SCALE,
{
    let iw = image.width();
    let ih = image.height();
    let tw = template.width();
    let th = template.height();
    if iw < 1 || ih < 1 || tw < 1 || th < 1
        || iw > MAX_DIM || ih > MAX_DIM || tw > MAX_DIM || th > MAX_DIM
        || (!padding && (tw > iw || th > ih)) {
        return Err(MatchError::DimensionError);
    }
    let needs_mean = matches!(
        method,
        MatchTemplateMethod::CorrelationCoefficient
            | MatchTemplateMethod::CorrelationCoefficientNormed
    );
    let (base, et): (Image, Image) = if needs_mean {
        (build_zero_mean_image(image, template), build_zero_mean_template(template))
    } else {
        (image.duplicate(), template.duplicate())
    };
    proof {
        if !needs_mean {
            lemma_bounded_mono(base@, PIX_LIMIT as int, WORK_BOUND as int);
            lemma_bounded_mono(et@, PIX_LIMIT as int, WORK_BOUND as int);
        }
        assert(base@.bounded(WORK_BOUND as int));
        assert(et@.bounded(WORK_BOUND as int));
        assert(base@ == effective_image(image@, template@, method));
        assert(et@ == effective_template(template@, method));
    }
    let rw: u32 = if padding { iw + tw - 1 } else { iw - tw + 1 };
    let rh: u32 = if padding { ih + th - 1 } else { ih - th + 1 };
    let surface = compute_surface(&base, &et, method, rw, rh);
    proof {
        if method.is_normed() && method != MatchTemplateMethod::SumOfSquaredDifferenceNormed {
            assert forall|x: int, y: int|
                0 <= x < surface@.width && 0 <= y < surface@.height
                    implies -SCALE <= #[trigger] surface@.pix(x, y) <= SCALE by {
                lemma_normed_surface_bounded(image@, template@, method, x, y);
            }
        }
    }
    Ok(surface)
}

/// A squared-difference window over a window that reproduces the template
/// exactly sums to zero.
proof fn lemma_zero_window(a: ImageView, t: ImageView, px: int, py: int, k: int)
    requires
        a.wf(),
        t.wf(),
        1 <= t.width,
        1 <= t.height,
        0 <= px,
        0 <= py,
        px + t.width <= a.width,
        py + t.height <= a.height,
        k <= t.width * t.height,
        forall|i: int, j: int| 0 <= i < t.width && 0 <= j < t.height
            ==> #[trigger] t.pix(i, j) == a.pix(px + i, py + j),
    ensures
        win_part(Term::SqDiff, a, t, px, py, k) == 0,
    decreases k,
{
    if k > 0 {
        lemma_zero_window(a, t, px, py, k - 1);
        let cx = (k - 1) % t.width;
        let cy = (k - 1) / t.width;
        lemma_cell_of_index(k - 1, t.width, t.height);
        assert(t.pix0(cx, cy) == t.pix(cx, cy));
        assert(a.pix0(px + cx, py + cy) == a.pix(px + cx, py + cy));
    }
}

/// The cell of a valid linear index lies inside the window shape.
proof fn lemma_cell_of_index(k: int, tw: int, th: int)
    requires
        0 < tw,
        0 < th,
        0 <= k < tw * th,
    ensures
        0 <= k % tw < tw,
        0 <= k / tw < th,
{
    vstd::arithmetic::div_mod::lemma_mod_division_less_than_divisor(k, tw);
    vstd::arithmetic::div_mod::lemma_multiply_divide_lt(k, tw, th);
    vstd::arithmetic::div_mod::lemma_div_pos_is_pos(k, tw);
}

/// When the template equals the sub-rectangle of the image at `(px, py)`,
/// the sum-of-squared-difference surface is zero there, and zero is its
/// global minimum: every surface value is nonnegative.
pub proof fn lemma_exact_match_ssd(a: ImageView, t: ImageView, px: int, py: int)
    requires
        a.wf(),
        t.wf(),
        1 <= t.width,
        1 <= t.height,
        0 <= px,
        0 <= py,
        px + t.width <= a.width,
        py + t.height <= a.height,
        forall|i: int, j: int| 0 <= i < t.width && 0 <= j < t.height
            ==> #[trigger] t.pix(i, j) == a.pix(px + i, py + j),
    ensures
        surface_value(a, t, MatchTemplateMethod::SumOfSquaredDifference, px, py) == 0,
        forall|x: int, y: int|
            0 <= #[trigger] surface_value(a, t, MatchTemplateMethod::SumOfSquaredDifference, x, y),
{
    lemma_zero_window(a, t, px, py, t.width * t.height);
    assert forall|x: int, y: int|
        0 <= #[trigger] surface_value(a, t, MatchTemplateMethod::SumOfSquaredDifference, x, y) by {
        lemma_win_part_nonneg(Term::SqDiff, a, t, x, y, t.width * t.height);
    }
}

/// Cauchy-Schwarz for window sums: the square of a product window is at
/// most the product of the two energy windows.
#[verifier::rlimit(60)]
proof fn lemma_cauchy_schwarz(a: ImageView, b: ImageView, x: int, y: int, k: int)
    ensures
        win_part(Term::Prod, a, b, x, y, k) * win_part(Term::Prod, a, b, x, y, k)
            <= win_part(Term::Sq, a, b, x, y, k) * win_part(Term::Sq, b, b, 0, 0, k),
    decreases k,
{
    if k <= 0 {
    } else {
        lemma_cauchy_schwarz(a, b, x, y, k - 1);
        let cx = (k - 1) % b.width;
        let cy = (k - 1) / b.width;
        let p = a.pix0(x + cx, y + cy);
        let q = b.pix0(cx, cy);
        let pp = win_part(Term::Prod, a, b, x, y, k - 1);
        let ff = win_part(Term::Sq, a, b, x, y, k - 1);
        let gg = win_part(Term::Sq, b, b, 0, 0, k - 1);
        lemma_win_part_nonneg(Term::Sq, a, b, x, y, k - 1);
        lemma_win_part_nonneg(Term::Sq, b, b, 0, 0, k - 1);
        assert(win_part(Term::Prod, a, b, x, y, k) == pp + p * q);
        assert(win_part(Term::Sq, a, b, x, y, k) == ff + p * p);
        assert(win_part(Term::Sq, b, b, 0, 0, k) == gg + q * q);
        let s1 = ff * (q * q) + (p * p) * gg;
        assert(s1 * s1 >= 4 * (p * p) * (q * q) * (ff * gg)) by (nonlinear_arith)
            requires s1 == ff * (q * q) + (p * p) * gg;
        assert(4 * (p * p) * (q * q) * (ff * gg) >= 4 * (p * p) * (q * q) * (pp * pp))
            by (nonlinear_arith)
            requires pp * pp <= ff * gg;
        assert(s1 >= 0) by (nonlinear_arith)
            requires s1 == ff * (q * q) + (p * p) * gg, ff >= 0, gg >= 0;
        let w = 2 * p * q * pp;
        assert(s1 * s1 >= w * w) by (nonlinear_arith)
            requires
                s1 * s1 >= 4 * (p * p) * (q * q) * (pp * pp),
                w == 2 * p * q * pp;
        assert(s1 >= w) by (nonlinear_arith)
            requires
                s1 >= 0,
                s1 * s1 >= w * w;
        let lhs = (pp + p * q) * (pp + p * q);
        let rhs = (ff + p * p) * (gg + q * q);
        assert(lhs == pp * pp + w + (p * p) * (q * q)) by (nonlinear_arith)
            requires lhs == (pp + p * q) * (pp + p * q), w == 2 * p * q * pp;
        assert(rhs == ff * gg + s1 + (p * p) * (q * q)) by (nonlinear_arith)
            requires
                rhs == (ff + p * p) * (gg + q * q),
                s1 == ff * (q * q) + (p * p) * gg;
        assert(lhs <= rhs);
        assert(win_part(Term::Prod, a, b, x, y, k) * win_part(Term::Prod, a, b, x, y, k)
            <= win_part(Term::Sq, a, b, x, y, k) * win_part(Term::Sq, b, b, 0, 0, k));
    }
}

/// Every value of a normalized cross-correlation or correlation-coefficient
/// surface lies within one fixed-point unit: between `-SCALE` and `SCALE`.
pub proof fn lemma_normed_surface_bounded(
    a: ImageView,
    t: ImageView,
    method: MatchTemplateMethod,
    x: int,
    y: int,
)
    requires
        method == MatchTemplateMethod::CrossCorrelationNormed
            || method == MatchTemplateMethod::CorrelationCoefficientNormed,
    ensures
        -SCALE <= surface_value(a, t, method, x, y) <= SCALE,
{
    let ea = effective_image(a, t, method);
    let et = effective_template(t, method);
    let num = win_sum(Term::Prod, ea, et, x, y);
    let d1 = win_sum(Term::Sq, ea, et, x, y);
    let d2 = win_sum(Term::Sq, et, et, 0, 0);
    let area = et.width * et.height;
    lemma_cauchy_schwarz(ea, et, x, y, area);
    lemma_win_part_nonneg(Term::Sq, ea, et, x, y, area);
    lemma_win_part_nonneg(Term::Sq, et, et, 0, 0, area);
    assert(d2 == win_part(Term::Sq, et, et, 0, 0, area)) by {
        assert(et.width * et.height == area);
    }
    let d = d1 * d2;
    assert(num * num <= d);
    assert(d >= 0) by (nonlinear_arith) requires d == d1 * d2, d1 >= 0, d2 >= 0;
    lemma_isqrt_exists(d);
    let den = isqrt_spec(d);
    assert(is_isqrt(d, den));
    assert(den == norm_den(ea, et, x, y));
    if den == 0 {
        assert(surface_value(a, t, method, x, y) == scaled_div(num, 0));
        assert(tdiv(num * SCALE, 0) == 0);
    } else {
        assert(num * num < (den + 1) * (den + 1));
        assert(-den <= num <= den) by (nonlinear_arith)
            requires num * num < (den + 1) * (den + 1), den >= 0;
        assert(-(den * (SCALE as int)) <= num * SCALE <= den * (SCALE as int))
            by (nonlinear_arith)
            requires -den <= num <= den, den >= 1;
        lemma_tdiv_bound(num * SCALE, den, SCALE as int);
        assert(surface_value(a, t, method, x, y) == tdiv(num * SCALE, den));
    }
}

} // verus!
