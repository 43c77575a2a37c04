use vstd::prelude::*;
use crate::geometry::TerminalGeometry;

verus! {

/// Natural pixel dimensions of an image, as decoded from its file.
#[derive(Clone, Copy, PartialEq, Eq, Structural)]
pub struct ImageDim {
    pub width: u32,
    pub height: u32,
}

impl ImageDim {
    /// Decoded images always have strictly positive dimensions.
    pub open spec fn wf(self) -> bool {
        self.width >= 1 && self.height >= 1
    }
}

/// Display geometry chosen for one slot of a batch.
pub struct SlotLayout {
    /// Width, in character columns, to hand to the renderer.
    pub width_chars: u32,
    /// Rows this slot would occupy at the full available width.
    pub height_rows: u128,
}

/// Output of the layout engine for one batch.
pub struct LayoutPlan {
    pub slots: Vec<SlotLayout>,
    /// Global scale factor as the exact rational `scale_num / scale_den`.
    pub scale_num: u64,
    pub scale_den: u128,
    /// Rows the batch would need at the full available width, padding included.
    pub total_needed_rows: u128,
    pub avail_rows: u32,
    pub avail_width_cols: u32,
}

/// `ceil(a / b)` for non-negative `a` and positive `b`.
pub open spec fn ceil_div(a: int, b: int) -> int {
    (a + b - 1) / b
}

/// Rows one slot occupies when rendered `width_px` pixels wide: the image's
/// aspect ratio fixes the height in pixels (truncated), which is then rounded
/// up to whole character rows. An image whose dimensions could not be read
/// contributes no rows.
pub open spec fn slot_height_rows(d: Option<ImageDim>, width_px: int, pch: int) -> int {
    match d {
        Option::None => 0,
        Option::Some(dim) => if dim.width == 0 {
            0
        } else {
            ceil_div(width_px * dim.height / (dim.width as int), pch)
        },
    }
}

pub open spec fn sum_height_rows(dims: Seq<Option<ImageDim>>, width_px: int, pch: int) -> int
    decreases dims.len(),
{
    if dims.len() == 0 {
        0
    } else {
        sum_height_rows(dims.drop_last(), width_px, pch)
            + slot_height_rows(dims.last(), width_px, pch)
    }
}

/// Rows a batch needs at width `width_px`: the slot heights plus one row of
/// padding between consecutive images.
pub open spec fn total_needed_rows(dims: Seq<Option<ImageDim>>, width_px: int, pch: int) -> int {
    if dims.len() == 0 {
        0
    } else {
        sum_height_rows(dims, width_px, pch) + dims.len() - 1
    }
}

/// The uniform policy's per-image display width: the full available width
/// when the batch fits, otherwise that width scaled by
/// `(avail / total) * 98 / 100` (a 2% safety margin absorbs the rounding-up
/// of per-image heights to whole rows), truncated to whole columns.
pub open spec fn uniform_scaled_width(awc: int, avail: int, total: int) -> int {
    if total <= avail {
        awc
    } else {
        (awc * 98 * avail) / (100 * total)
    }
}

/// Height of one slot in character rows when rendered `display_width_chars`
/// columns wide on a terminal with the given pixels-per-cell figures.
///
/// The width in pixels is scaled by the image's aspect ratio (truncating),
/// then rounded up to the next whole row: under-counting the space left over
/// is the safe direction.
pub fn calc_image_height_rows(
    orig_w: u32,
    orig_h: u32,
    display_width_chars: u32,
    pixels_per_char_w: u32,
    pixels_per_char_h: u32,
) -> (r: u128)
    requires
        orig_w >= 1,
        pixels_per_char_h >= 1,
    ensures
        r as int == ceil_div(
            (display_width_chars as int * pixels_per_char_w as int) * orig_h as int
                / orig_w as int,
            pixels_per_char_h as int,
        ),
{
    assert((display_width_chars as int) * (pixels_per_char_w as int) < 0x1_0000_0000_0000_0000)
        by (nonlinear_arith)
        requires
            display_width_chars < 0x1_0000_0000,
            pixels_per_char_w < 0x1_0000_0000;
    let width_px: u128 = (display_width_chars as u128) * (pixels_per_char_w as u128);
    proof {
        assert((width_px as int) * (orig_h as int) < 0x1_0000_0000_0000_0000_0000_0000)
            by (nonlinear_arith)
            requires
                width_px < 0x1_0000_0000_0000_0000,
                orig_h < 0x1_0000_0000;
    }
    let height_px: u128 = width_px * (orig_h as u128) / (orig_w as u128);
    proof {
        vstd::arithmetic::div_mod::lemma_div_nonincreasing(
            (width_px as int) * (orig_h as int),
            orig_w as int,
        );
    }
    (height_px + (pixels_per_char_h as u128) - 1) / (pixels_per_char_h as u128)
}

/// Compute the uniform layout plan for one batch.
///
/// Every slot gets the same display width. When the batch's natural-fit
/// height exceeds the rows available, the width shrinks by the single global
/// factor `98 * avail / (100 * total)`, so all images keep their relative
/// proportions; the plan never scales an image twice.
pub fn plan(
    g: &TerminalGeometry,
    dims: &Vec<Option<ImageDim>>,
    ui_reserved_rows: u32,
    width_margin_cols: u32,
) -> (r: LayoutPlan)
    requires
        dims@.len() <= 0xffff_ffff,
        forall|i: int| 0 <= i < dims@.len()
            ==> ((#[trigger] dims@[i]) matches Option::Some(d) ==> d.wf()),
    ensures
        ({
            let pcw = g.spec_px_per_char_w();
            let pch = g.spec_px_per_char_h();
            let awc = g.spec_avail_width_cols(width_margin_cols);
            let awp = awc * pcw;
            let avail = g.spec_avail_rows(ui_reserved_rows);
            let total = total_needed_rows(dims@, awp, pch);
            &&& r.slots@.len() == dims@.len()
            &&& forall|i: int| 0 <= i < dims@.len()
                ==> (#[trigger] r.slots@[i]).height_rows as int
                    == slot_height_rows(dims@[i], awp, pch)
            &&& forall|i: int| 0 <= i < dims@.len()
                ==> (#[trigger] r.slots@[i]).width_chars as int
                    == uniform_scaled_width(awc, avail, total)
            &&& r.total_needed_rows as int == total
            &&& r.avail_rows as int == avail
            &&& r.avail_width_cols as int == awc
            &&& (total <= avail ==> r.scale_num == 1 && r.scale_den == 1)
            &&& (total > avail ==> r.scale_num as int == 98 * avail
                && r.scale_den as int == 100 * total)
            &&& r.scale_num as int <= r.scale_den as int
            &&& r.scale_den >= 1
            &&& (avail >= 1 ==> r.scale_num >= 1)
        }),
{
    let pcw: u32 = g.px_per_char_w();
    let pch: u32 = g.px_per_char_h();
    let awc: u32 = g.avail_width_cols(width_margin_cols);
    let avail: u32 = g.avail_rows(ui_reserved_rows);
    proof {
        assert((awc as int) * (pcw as int) < 0x1_0000_0000_0000) by (nonlinear_arith)
            requires
                awc <= 0xffff,
                pcw < 0x1_0000_0000;
    }
    let awp: u64 = (awc as u64) * (pcw as u64);

    let ghost awp_i: int = awc as int * pcw as int;
    let ghost pch_i: int = pch as int;

    let mut heights: Vec<u128> = Vec::new();
    let mut sum: u128 = 0;
    let mut i: usize = 0;
    while i < dims.len()
        invariant
            i <= dims@.len(),
            dims@.len() <= 0xffff_ffff,
            forall|j: int| 0 <= j < dims@.len()
                ==> ((#[trigger] dims@[j]) matches Option::Some(d) ==> d.wf()),
            awp == awc as int * pcw as int,
            awc <= u16::MAX,
            0 <= awp_i < 0x1_0000_0000_0000,
            pch >= 1,
            pch_i == pch as int,
            awp_i == awp as int,
            heights@.len() == i,
            forall|j: int| 0 <= j < i
                ==> #[trigger] heights@[j] as int == slot_height_rows(dims@[j], awp_i, pch_i),
            sum as int == sum_height_rows(dims@.subrange(0, i as int), awp_i, pch_i),
            sum <= i as u128 * 0x1_0000_0000_0000_0000_0000u128,
        decreases dims@.len() - i,
    {
        let h: u128 = match dims[i] {
            Option::None => 0,
            Option::Some(d) => {
                proof {
                    assert(dims@[i as int] matches Option::Some(dd) && dd.wf());
                }
                let hr = calc_image_height_rows(d.width, d.height, awc, pcw, pch);
                proof {
                    lemma_height_rows_bound(awp_i, d.width as int, d.height as int, pch_i);
                }
                hr
            },
        };
        proof {
            assert(h as int == slot_height_rows(dims@[i as int], awp_i, pch_i));
            assert(dims@.subrange(0, i + 1 as int).drop_last() =~= dims@.subrange(0, i as int));
            assert(dims@.subrange(0, i + 1 as int).last() == dims@[i as int]);
        }
        sum = sum + h;
        heights.push(h);
        i = i + 1;
    }
    proof {
        assert(dims@.subrange(0, dims@.len() as int) =~= dims@);
    }

    let n: usize = dims.len();
    proof {
        assert(sum as int <= 0xffff_ffff * 0x1_0000_0000_0000_0000_0000) by (nonlinear_arith)
            requires
                sum as int <= (n as int) * 0x1_0000_0000_0000_0000_0000,
                n as int <= 0xffff_ffff;
    }
    let total: u128 = if n == 0 { 0 } else { sum + (n as u128) - 1 };
    proof {
        assert(total as int == total_needed_rows(dims@, awp_i, pch_i));
    }

    let (scale_num, scale_den, width): (u64, u128, u32) = if total <= (avail as u128) {
        (1u64, 1u128, awc)
    } else {
        let num: u64 = 98 * (avail as u64);
        let den: u128 = 100 * total;
        proof {
            assert((awc as int) * (num as int) < 0x1_0000_0000_0000) by (nonlinear_arith)
                requires
                    awc <= 0xffff,
                    num <= 98 * 0xffff;
        }
        let w_wide: u128 = (awc as u128) * (num as u128) / den;
        proof {
            vstd::arithmetic::mul::lemma_mul_is_associative(awc as int, 98, avail as int);
            lemma_scaled_width_le(awc as int, avail as int, total as int);
            assert(w_wide <= awc);
        }
        (num, den, w_wide as u32)
    };

    let mut slots: Vec<SlotLayout> = Vec::new();
    let mut k: usize = 0;
    while k < n
        invariant
            k <= n,
            n == dims@.len(),
            heights@.len() == n,
            slots@.len() == k,
            forall|j: int| 0 <= j < k
                ==> (#[trigger] slots@[j]).height_rows == heights@[j]
                    && slots@[j].width_chars == width,
        decreases n - k,
    {
        slots.push(SlotLayout { width_chars: width, height_rows: heights[k] });
        k = k + 1;
    }

    LayoutPlan {
        slots,
        scale_num,
        scale_den,
        total_needed_rows: total,
        avail_rows: avail,
        avail_width_cols: awc,
    }
}

/// `ceil_div(a, b)` is non-negative, zero when `a` is zero, and otherwise at
/// most `a`, for non-negative `a` and positive `b`.
pub proof fn lemma_ceil_div_bounds(a: int, b: int)
    requires
        a >= 0,
        b >= 1,
    ensures
        0 <= ceil_div(a, b),
        ceil_div(a, b) <= a,
        a == 0 ==> ceil_div(a, b) == 0,
{
    vstd::arithmetic::div_mod::lemma_div_pos_is_pos(a + b - 1, b);
    if a == 0 {
        vstd::arithmetic::div_mod::lemma_basic_div(b - 1, b);
    } else {
        assert(a + b - 1 <= b * a) by (nonlinear_arith)
            requires a >= 1 && b >= 1;
        vstd::arithmetic::div_mod::lemma_multiply_divide_le(a + b - 1, b, a);
    }
}

/// A slot's natural-fit height is at most `2^80` when the available width
/// fits in 48 bits and the image is at least one pixel wide.
proof fn lemma_height_rows_bound(awp: int, w: int, h: int, pch: int)
    requires
        0 <= awp < 0x1_0000_0000_0000,
        1 <= w,
        0 <= h < 0x1_0000_0000,
        pch >= 1,
    ensures
        0 <= ceil_div(awp * h / w, pch) <= 0x1_0000_0000_0000_0000_0000,
{
    let hpx = awp * h / w;
    assert(0 <= awp * h <= 0x1_0000_0000_0000_0000_0000) by (nonlinear_arith)
        requires 0 <= awp < 0x1_0000_0000_0000 && 0 <= h < 0x1_0000_0000;
    vstd::arithmetic::div_mod::lemma_div_pos_is_pos(awp * h, w);
    vstd::arithmetic::div_mod::lemma_div_nonincreasing(awp * h, w);
    lemma_ceil_div_bounds(hpx, pch);
}

/// When the batch is scaled down, the scaled width stays below the available
/// width, and in particular fits in 32 bits.
proof fn lemma_scaled_width_le(awc: int, avail: int, total: int)
    requires
        0 <= awc,
        0 <= avail,
        total > avail,
    ensures
        (awc * 98 * avail) / (100 * total) <= awc,
{
    assert(awc * 98 * avail >= 0 && 100 * total >= 100 && awc * 98 * avail <= (100 * total) * awc)
        by (nonlinear_arith)
        requires
            awc >= 0,
            0 <= avail < total;
    vstd::arithmetic::div_mod::lemma_multiply_divide_le(awc * 98 * avail, 100 * total, awc);
}

/// Slot-by-slot aspect-ratio equality of two dimension lists: the same slots
/// are unknown, and known slots have proportional dimensions.
pub open spec fn same_aspect_slot(a: Option<ImageDim>, b: Option<ImageDim>) -> bool {
    match (a, b) {
        (Option::None, Option::None) => true,
        (Option::Some(x), Option::Some(y)) => x.wf() && y.wf()
            && (x.height as int) * (y.width as int) == (y.height as int) * (x.width as int),
        _ => false,
    }
}

pub open spec fn same_aspect_ratios(d1: Seq<Option<ImageDim>>, d2: Seq<Option<ImageDim>>) -> bool {
    &&& d1.len() == d2.len()
    &&& forall|i: int| 0 <= i < d1.len() ==> same_aspect_slot(#[trigger] d1[i], #[trigger] d2[i])
}

/// Truncated division respects ratios: if `h1 : w1` and `h2 : w2` are the
/// same ratio, scaling `a` by either and truncating gives the same value.
pub proof fn lemma_div_same_ratio(a: int, h1: int, w1: int, h2: int, w2: int)
    requires
        a >= 0,
        0 <= h1,
        0 <= h2,
        1 <= w1,
        1 <= w2,
        h1 * w2 == h2 * w1,
    ensures
        a * h1 / w1 == a * h2 / w2,
{
    let q = a * h1 / w1;
    let r1 = a * h1 % w1;
    vstd::arithmetic::div_mod::lemma_fundamental_div_mod(a * h1, w1);
    vstd::arithmetic::div_mod::lemma_mod_bound(a * h1, w1);
    let r2 = a * h2 - q * w2;
    assert(0 <= r2 < w2 && a * h2 == q * w2 + r2) by (nonlinear_arith)
        requires
            a * h1 == w1 * q + r1,
            0 <= r1 < w1,
            h1 * w2 == h2 * w1,
            w1 >= 1,
            w2 >= 1,
            a >= 0,
            h2 >= 0,
            r2 == a * h2 - q * w2;
    vstd::arithmetic::div_mod::lemma_fundamental_div_mod_converse_div(a * h2, w2, q, r2);
}

/// Two slots with the same aspect ratio occupy the same number of rows.
pub proof fn lemma_slot_height_same_ratio(
    a: Option<ImageDim>,
    b: Option<ImageDim>,
    width_px: int,
    pch: int,
)
    requires
        same_aspect_slot(a, b),
        width_px >= 0,
        pch >= 1,
    ensures
        slot_height_rows(a, width_px, pch) == slot_height_rows(b, width_px, pch),
{
    match (a, b) {
        (Option::Some(x), Option::Some(y)) => {
            lemma_div_same_ratio(
                width_px,
                x.height as int,
                x.width as int,
                y.height as int,
                y.width as int,
            );
        },
        _ => {},
    }
}

proof fn lemma_sum_same_ratio(
    d1: Seq<Option<ImageDim>>,
    d2: Seq<Option<ImageDim>>,
    width_px: int,
    pch: int,
)
    requires
        same_aspect_ratios(d1, d2),
        width_px >= 0,
        pch >= 1,
    ensures
        sum_height_rows(d1, width_px, pch) == sum_height_rows(d2, width_px, pch),
    decreases d1.len(),
{
    if d1.len() > 0 {
        assert(same_aspect_ratios(d1.drop_last(), d2.drop_last()));
        lemma_sum_same_ratio(d1.drop_last(), d2.drop_last(), width_px, pch);
        lemma_slot_height_same_ratio(d1.last(), d2.last(), width_px, pch);
    }
}

/// The layout plan is deterministic: it is a function of the terminal
/// geometry, the reserved rows and margin, and the images' aspect ratios
/// alone. Since `plan` pins every field of its result to these quantities,
/// two calls over batches with pairwise equal aspect ratios return identical
/// plans, independent of call order.
pub proof fn lemma_plan_deterministic(
    g: TerminalGeometry,
    d1: Seq<Option<ImageDim>>,
    d2: Seq<Option<ImageDim>>,
    ui_reserved_rows: u32,
    width_margin_cols: u32,
)
    requires
        same_aspect_ratios(d1, d2),
    ensures
        ({
            let pcw = g.spec_px_per_char_w();
            let pch = g.spec_px_per_char_h();
            let awc = g.spec_avail_width_cols(width_margin_cols);
            let awp = awc * pcw;
            let avail = g.spec_avail_rows(ui_reserved_rows);
            &&& forall|i: int| 0 <= i < d1.len()
                ==> slot_height_rows(#[trigger] d1[i], awp, pch)
                    == slot_height_rows(#[trigger] d2[i], awp, pch)
            &&& total_needed_rows(d1, awp, pch) == total_needed_rows(d2, awp, pch)
            &&& uniform_scaled_width(awc, avail, total_needed_rows(d1, awp, pch))
                == uniform_scaled_width(awc, avail, total_needed_rows(d2, awp, pch))
        }),
{
    let pcw = g.spec_px_per_char_w();
    let pch = g.spec_px_per_char_h();
    let awc = g.spec_avail_width_cols(width_margin_cols);
    let awp = awc * pcw;
    assert(awp >= 0) by (nonlinear_arith)
        requires
            awc >= 0,
            pcw >= 1,
            awp == awc * pcw;
    lemma_sum_same_ratio(d1, d2, awp, pch);
    assert forall|i: int| 0 <= i < d1.len() implies slot_height_rows(
        #[trigger] d1[i],
        awp,
        pch,
    ) == slot_height_rows(#[trigger] d2[i], awp, pch) by {
        lemma_slot_height_same_ratio(d1[i], d2[i], awp, pch);
    }
}

/// Row budget of one slot under the per-slot policy: the rows left after
/// inter-image padding, shared equally.
pub open spec fn row_budget(avail: int, n: int) -> int {
    if n == 0 {
        0
    } else if avail < n - 1 {
        0
    } else {
        (avail - (n - 1)) / n
    }
}

/// Per-slot policy width: a slot within its row budget keeps the full
/// available width; an oversized slot alone is scaled down to fit its budget.
pub open spec fn per_slot_width(awc: int, budget: int, height: int) -> int {
    if height <= budget {
        awc
    } else {
        awc * budget / height
    }
}

/// Compute the per-slot ("equal row budget") layout plan for one batch.
///
/// This is the alternate policy a caller can toggle to: every slot gets an
/// equal share of the available rows, and only slots that exceed their share
/// are scaled down, each independently. No global scale factor is applied.
pub fn plan_per_slot(
    g: &TerminalGeometry,
    dims: &Vec<Option<ImageDim>>,
    ui_reserved_rows: u32,
    width_margin_cols: u32,
) -> (r: LayoutPlan)
    requires
        dims@.len() <= 0xffff_ffff,
        forall|i: int| 0 <= i < dims@.len()
            ==> ((#[trigger] dims@[i]) matches Option::Some(d) ==> d.wf()),
    ensures
        ({
            let pcw = g.spec_px_per_char_w();
            let pch = g.spec_px_per_char_h();
            let awc = g.spec_avail_width_cols(width_margin_cols);
            let awp = awc * pcw;
            let avail = g.spec_avail_rows(ui_reserved_rows);
            let budget = row_budget(avail, dims@.len() as int);
            &&& r.slots@.len() == dims@.len()
            &&& forall|i: int| 0 <= i < dims@.len()
                ==> (#[trigger] r.slots@[i]).height_rows as int
                    == slot_height_rows(dims@[i], awp, pch)
            &&& forall|i: int| 0 <= i < dims@.len()
                ==> (#[trigger] r.slots@[i]).width_chars as int
                    == per_slot_width(awc, budget, slot_height_rows(dims@[i], awp, pch))
            &&& r.total_needed_rows as int == total_needed_rows(dims@, awp, pch)
            &&& r.avail_rows as int == avail
            &&& r.avail_width_cols as int == awc
            &&& r.scale_num == 1 && r.scale_den == 1
        }),
{
    let base = plan(g, dims, ui_reserved_rows, width_margin_cols);
    let avail: u32 = base.avail_rows;
    let awc: u32 = base.avail_width_cols;
    let n: usize = dims.len();

    let budget: u128 = if n == 0 {
        0
    } else if (avail as u128) < (n as u128) - 1 {
        0
    } else {
        ((avail as u128) - ((n as u128) - 1)) / (n as u128)
    };
    proof {
        if n != 0 && avail as int >= n as int - 1 {
            vstd::arithmetic::div_mod::lemma_div_pos_is_pos(
                avail as int - (n as int - 1),
                n as int,
            );
            vstd::arithmetic::div_mod::lemma_div_nonincreasing(
                avail as int - (n as int - 1),
                n as int,
            );
        }
        assert(budget as int == row_budget(avail as int, n as int));
        assert(budget <= 0xffff);
    }

    let mut slots: Vec<SlotLayout> = Vec::new();
    let mut k: usize = 0;
    while k < n
        invariant
            k <= n,
            n == dims@.len(),
            base.slots@.len() == n,
            awc <= 0xffff,
            budget <= 0xffff,
            budget as int == row_budget(
                g.spec_avail_rows(ui_reserved_rows),
                dims@.len() as int,
            ),
            forall|j: int| 0 <= j < n
                ==> (#[trigger] base.slots@[j]).height_rows as int == slot_height_rows(
                    dims@[j],
                    g.spec_avail_width_cols(width_margin_cols) * g.spec_px_per_char_w(),
                    g.spec_px_per_char_h(),
                ),
            awc as int == g.spec_avail_width_cols(width_margin_cols),
            slots@.len() == k,
            forall|j: int| 0 <= j < k
                ==> (#[trigger] slots@[j]).height_rows == base.slots@[j].height_rows
                    && slots@[j].width_chars as int == per_slot_width(
                        awc as int,
                        budget as int,
                        base.slots@[j].height_rows as int,
                    ),
        decreases n - k,
    {
        let h: u128 = base.slots[k].height_rows;
        let w: u32 = if h <= budget {
            awc
        } else {
            proof {
                assert((awc as int) * (budget as int) <= 0xffff * 0xffff) by (nonlinear_arith)
                    requires
                        0 <= awc <= 0xffff,
                        0 <= budget <= 0xffff;
                assert((awc as int) * (budget as int) <= (h as int) * (awc as int))
                    by (nonlinear_arith)
                    requires
                        0 <= awc,
                        0 <= budget < h;
                vstd::arithmetic::div_mod::lemma_multiply_divide_le(
                    (awc as int) * (budget as int),
                    h as int,
                    awc as int,
                );
            }
            let ww: u128 = (awc as u128) * budget / h;
            ww as u32
        };
        slots.push(SlotLayout { width_chars: w, height_rows: h });
        k = k + 1;
    }

    LayoutPlan {
        slots,
        scale_num: 1,
        scale_den: 1,
        total_needed_rows: base.total_needed_rows,
        avail_rows: avail,
        avail_width_cols: awc,
    }
}

proof fn lemma_slot_height_nonneg(d: Option<ImageDim>, width_px: int, pch: int)
    requires
        (d matches Option::Some(x) ==> x.wf()),
        width_px >= 0,
        pch >= 1,
    ensures
        slot_height_rows(d, width_px, pch) >= 0,
{
    match d {
        Option::Some(x) => {
            if x.width != 0 {
                assert(width_px * x.height >= 0) by (nonlinear_arith)
                    requires
                        width_px >= 0,
                        x.height >= 0;
                vstd::arithmetic::div_mod::lemma_div_pos_is_pos(
                    width_px * x.height,
                    x.width as int,
                );
                lemma_ceil_div_bounds(width_px * x.height / (x.width as int), pch);
            }
        },
        Option::None => {},
    }
}

proof fn lemma_sum_height_nonneg(dims: Seq<Option<ImageDim>>, width_px: int, pch: int)
    requires
        forall|i: int| 0 <= i < dims.len()
            ==> ((#[trigger] dims[i]) matches Option::Some(d) ==> d.wf()),
        width_px >= 0,
        pch >= 1,
    ensures
        sum_height_rows(dims, width_px, pch) >= 0,
    decreases dims.len(),
{
    if dims.len() > 0 {
        lemma_sum_height_nonneg(dims.drop_last(), width_px, pch);
        lemma_slot_height_nonneg(dims.last(), width_px, pch);
    }
}

/// One slot's share of the overflow bound: scaling the width from `awc` to
/// `w2` shrinks the slot's rows in proportion, up to one row of ceiling slack
/// and one pixel of truncation slack.
proof fn lemma_slot_scaled_bound(
    d: Option<ImageDim>,
    awc: int,
    pcw: int,
    pch: int,
    a: int,
    t: int,
    w2: int,
)
    requires
        (d matches Option::Some(x) ==> x.wf()),
        awc >= 0,
        pcw >= 1,
        pch >= 1,
        a >= 0,
        t >= 1,
        w2 >= 0,
        100 * t * w2 <= 98 * a * awc,
    ensures
        100 * t * (pch * slot_height_rows(d, w2 * pcw, pch))
            <= 98 * a * (pch * slot_height_rows(d, awc * pcw, pch))
                + 98 * a + 100 * t * (pch - 1),
{
    match d {
        Option::None => {
            assert(slot_height_rows(d, w2 * pcw, pch) == 0);
            assert(slot_height_rows(d, awc * pcw, pch) == 0);
            assert(100 * t * (pch * 0) == 0) by (nonlinear_arith);
            assert(98 * a * (pch * 0) == 0) by (nonlinear_arith);
            assert(98 * a >= 0 && 100 * t * (pch - 1) >= 0) by (nonlinear_arith)
                requires
                    a >= 0,
                    t >= 1,
                    pch >= 1;
        },
        Option::Some(x) => {
            let w = x.width as int;
            let h = x.height as int;
            let bigw = awc * pcw;
            let bigw2 = w2 * pcw;
            assert(bigw >= 0 && bigw2 >= 0 && bigw * h >= 0 && bigw2 * h >= 0)
                by (nonlinear_arith)
                requires
                    awc >= 0,
                    pcw >= 1,
                    w2 >= 0,
                    h >= 0,
                    bigw == awc * pcw,
                    bigw2 == w2 * pcw;
            let hpx1 = bigw * h / w;
            let hpx2 = bigw2 * h / w;
            let r1 = (bigw * h) % w;
            let r2 = (bigw2 * h) % w;
            vstd::arithmetic::div_mod::lemma_fundamental_div_mod(bigw * h, w);
            vstd::arithmetic::div_mod::lemma_mod_bound(bigw * h, w);
            vstd::arithmetic::div_mod::lemma_div_pos_is_pos(bigw * h, w);
            vstd::arithmetic::div_mod::lemma_fundamental_div_mod(bigw2 * h, w);
            vstd::arithmetic::div_mod::lemma_mod_bound(bigw2 * h, w);
            vstd::arithmetic::div_mod::lemma_div_pos_is_pos(bigw2 * h, w);

            assert(100 * t * hpx2 <= 98 * a * hpx1 + 98 * a) by (nonlinear_arith)
                requires
                    bigw == awc * pcw,
                    bigw2 == w2 * pcw,
                    bigw * h == w * hpx1 + r1,
                    0 <= r1 < w,
                    bigw2 * h == w * hpx2 + r2,
                    0 <= r2 < w,
                    100 * t * w2 <= 98 * a * awc,
                    w >= 1,
                    h >= 0,
                    pcw >= 1,
                    a >= 0,
                    t >= 1,
                    hpx1 >= 0,
                    hpx2 >= 0,
                    w2 >= 0,
                    awc >= 0;

            let s1 = ceil_div(hpx1, pch);
            let s2 = ceil_div(hpx2, pch);
            let q1 = (hpx1 + pch - 1) % pch;
            let q2 = (hpx2 + pch - 1) % pch;
            vstd::arithmetic::div_mod::lemma_fundamental_div_mod(hpx1 + pch - 1, pch);
            vstd::arithmetic::div_mod::lemma_mod_bound(hpx1 + pch - 1, pch);
            vstd::arithmetic::div_mod::lemma_div_pos_is_pos(hpx1 + pch - 1, pch);
            vstd::arithmetic::div_mod::lemma_fundamental_div_mod(hpx2 + pch - 1, pch);
            vstd::arithmetic::div_mod::lemma_mod_bound(hpx2 + pch - 1, pch);
            vstd::arithmetic::div_mod::lemma_div_pos_is_pos(hpx2 + pch - 1, pch);

            assert(100 * t * (pch * s2)
                <= 98 * a * (pch * s1) + 98 * a + 100 * t * (pch - 1))
                by (nonlinear_arith)
                requires
                    hpx1 + pch - 1 == pch * s1 + q1,
                    0 <= q1 < pch,
                    hpx2 + pch - 1 == pch * s2 + q2,
                    0 <= q2 < pch,
                    100 * t * hpx2 <= 98 * a * hpx1 + 98 * a,
                    a >= 0,
                    t >= 1,
                    pch >= 1,
                    s1 >= 0,
                    s2 >= 0,
                    hpx1 >= 0,
                    hpx2 >= 0;
        },
    }
}

proof fn lemma_sum_scaled_bound(
    dims: Seq<Option<ImageDim>>,
    awc: int,
    pcw: int,
    pch: int,
    a: int,
    t: int,
    w2: int,
)
    requires
        forall|i: int| 0 <= i < dims.len()
            ==> ((#[trigger] dims[i]) matches Option::Some(d) ==> d.wf()),
        awc >= 0,
        pcw >= 1,
        pch >= 1,
        a >= 0,
        t >= 1,
        w2 >= 0,
        100 * t * w2 <= 98 * a * awc,
    ensures
        100 * t * (pch * sum_height_rows(dims, w2 * pcw, pch))
            <= 98 * a * (pch * sum_height_rows(dims, awc * pcw, pch))
                + (98 * a + 100 * t * (pch - 1)) * dims.len(),
    decreases dims.len(),
{
    if dims.len() == 0 {
        let full1 = sum_height_rows(dims, awc * pcw, pch);
        let full2 = sum_height_rows(dims, w2 * pcw, pch);
        assert(100 * t * (pch * full2)
            <= 98 * a * (pch * full1) + (98 * a + 100 * t * (pch - 1)) * dims.len())
            by (nonlinear_arith)
            requires
                full1 == 0,
                full2 == 0,
                dims.len() == 0;
    } else {
        let prefix = dims.drop_last();
        lemma_sum_scaled_bound(prefix, awc, pcw, pch, a, t, w2);
        lemma_slot_scaled_bound(dims.last(), awc, pcw, pch, a, t, w2);
        let u1p = sum_height_rows(prefix, awc * pcw, pch);
        let u2p = sum_height_rows(prefix, w2 * pcw, pch);
        let s1 = slot_height_rows(dims.last(), awc * pcw, pch);
        let s2 = slot_height_rows(dims.last(), w2 * pcw, pch);
        let full1 = sum_height_rows(dims, awc * pcw, pch);
        let full2 = sum_height_rows(dims, w2 * pcw, pch);
        assert(full2 == u2p + s2);
        assert(full1 == u1p + s1);
        assert(prefix.len() == dims.len() - 1);
        assert(100 * t * (pch * full2)
            <= 98 * a * (pch * full1)
                + (98 * a + 100 * t * (pch - 1)) * dims.len())
            by (nonlinear_arith)
            requires
                full2 == u2p + s2,
                full1 == u1p + s1,
                100 * t * (pch * u2p)
                    <= 98 * a * (pch * u1p)
                        + (98 * a + 100 * t * (pch - 1)) * (dims.len() - 1),
                100 * t * (pch * s2)
                    <= 98 * a * (pch * s1) + 98 * a + 100 * t * (pch - 1),
                dims.len() >= 1;
    }
}

/// When the batch does not fit and is scaled down by the uniform policy, the
/// batch re-laid-out at the scaled width fits: summing the per-image heights
/// recomputed at that width (each rounded up to whole rows, as ever) plus the
/// inter-image padding stays within the available rows.
///
/// The 2% margin absorbs at most one row of rounding slack per slot, so this
/// holds once the available rows dominate the slot count hundredfold; on a
/// smaller terminal the rounding slack can exceed the margin.
pub proof fn lemma_scaled_batch_fits(
    g: TerminalGeometry,
    dims: Seq<Option<ImageDim>>,
    ui_reserved_rows: u32,
    width_margin_cols: u32,
)
    requires
        forall|i: int| 0 <= i < dims.len()
            ==> ((#[trigger] dims[i]) matches Option::Some(d) ==> d.wf()),
        total_needed_rows(
            dims,
            g.spec_avail_width_cols(width_margin_cols) * g.spec_px_per_char_w(),
            g.spec_px_per_char_h(),
        ) > g.spec_avail_rows(ui_reserved_rows),
        g.spec_avail_rows(ui_reserved_rows) >= 100 * dims.len(),
    ensures
        ({
            let pcw = g.spec_px_per_char_w();
            let pch = g.spec_px_per_char_h();
            let awc = g.spec_avail_width_cols(width_margin_cols);
            let avail = g.spec_avail_rows(ui_reserved_rows);
            let total = total_needed_rows(dims, awc * pcw, pch);
            let w2 = uniform_scaled_width(awc, avail, total);
            total_needed_rows(dims, w2 * pcw, pch) <= avail
        }),
{
    let pcw = g.spec_px_per_char_w();
    let pch = g.spec_px_per_char_h();
    let awc = g.spec_avail_width_cols(width_margin_cols);
    let a = g.spec_avail_rows(ui_reserved_rows);
    let t = total_needed_rows(dims, awc * pcw, pch);
    let n = dims.len() as int;
    assert(awc * pcw >= 0) by (nonlinear_arith)
        requires
            awc >= 0,
            pcw >= 1;
    if n == 0 {
        assert(t == 0);
        assert(false);
    }
    let w2 = (awc * 98 * a) / (100 * t);
    assert(uniform_scaled_width(awc, a, t) == w2);
    assert(awc * 98 * a >= 0 && 100 * t >= 100) by (nonlinear_arith)
        requires
            awc >= 0,
            a >= 0,
            t >= 1;
    vstd::arithmetic::div_mod::lemma_fundamental_div_mod(awc * 98 * a, 100 * t);
    vstd::arithmetic::div_mod::lemma_mod_bound(awc * 98 * a, 100 * t);
    vstd::arithmetic::div_mod::lemma_div_pos_is_pos(awc * 98 * a, 100 * t);
    assert(100 * t * w2 <= 98 * a * awc) by (nonlinear_arith)
        requires
            awc * 98 * a == (100 * t) * w2 + (awc * 98 * a) % (100 * t),
            (awc * 98 * a) % (100 * t) >= 0;
    lemma_sum_scaled_bound(dims, awc, pcw, pch, a, t, w2);
    lemma_sum_height_nonneg(dims, w2 * pcw, pch);
    let h1 = sum_height_rows(dims, awc * pcw, pch);
    let h2 = sum_height_rows(dims, w2 * pcw, pch);
    assert(t == h1 + n - 1);
    assert(h2 + n - 1 <= a) by (nonlinear_arith)
        requires
            100 * t * (pch * h2)
                <= 98 * a * (pch * h1) + (98 * a + 100 * t * (pch - 1)) * n,
            t == h1 + n - 1,
            t >= a + 1,
            a >= 100 * n,
            n >= 1,
            pch >= 1,
            h2 >= 0,
            a >= 0;
    assert(total_needed_rows(dims, w2 * pcw, pch) == h2 + n - 1);
}

} // verus!
