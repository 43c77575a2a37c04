use vstd::prelude::*;
use crate::layout::{ImageDim, ceil_div, lemma_ceil_div_bounds};

verus! {

/// The scaling arithmetic for one slot of the batch-info dump: the height the
/// image would take at the full available width, that height after the global
/// scale factor, and the character rows the scaled height occupies.
pub struct SlotScaling {
    pub natural_h_px: u128,
    pub scaled_h_px: u128,
    pub display_rows: u128,
}

/// The batch-info dump's numbers: per-slot scaling arithmetic, the summed
/// scaled height, and the fit verdict against the available height.
pub struct ScalingReport {
    pub slots: Vec<SlotScaling>,
    pub total_scaled_h_px: u128,
    pub fits: bool,
}

/// Height in pixels of one slot rendered `awp` pixels wide, by aspect ratio.
pub open spec fn spec_natural_h(d: Option<ImageDim>, awp: int) -> int {
    match d {
        Option::None => 0,
        Option::Some(dim) => if dim.width == 0 {
            0
        } else {
            awp * dim.height / (dim.width as int)
        },
    }
}

pub open spec fn sum_scaled_h(
    dims: Seq<Option<ImageDim>>,
    awp: int,
    num: int,
    den: int,
) -> int
    decreases dims.len(),
{
    if dims.len() == 0 {
        0
    } else {
        sum_scaled_h(dims.drop_last(), awp, num, den) + spec_natural_h(dims.last(), awp) * num
            / den
    }
}

/// Work out the numbers the batch-info view shows: for each slot its height
/// at the full available width, that height under the global scale factor
/// `scale_num / scale_den`, and the rows it covers; and whether the scaled
/// heights, summed, fit the available height in pixels.
pub fn scaling_report(
    dims: &Vec<Option<ImageDim>>,
    awp: u64,
    avail_height_px: u64,
    scale_num: u64,
    scale_den: u128,
    pch: u32,
) -> (r: ScalingReport)
    requires
        dims@.len() <= 0xffff_ffff,
        forall|i: int| 0 <= i < dims@.len()
            ==> ((#[trigger] dims@[i]) matches Option::Some(d) ==> d.wf()),
        awp < 0x1_0000_0000_0000,
        scale_num < 0x1_0000_0000,
        scale_num as int <= scale_den as int,
        scale_den >= 1,
        pch >= 1,
    ensures
        r.slots@.len() == dims@.len(),
        forall|i: int| 0 <= i < dims@.len() ==> {
            let nat_px = spec_natural_h(dims@[i], awp as int);
            let scaled = nat_px * scale_num as int / scale_den as int;
            &&& (#[trigger] r.slots@[i]).natural_h_px as int == nat_px
            &&& r.slots@[i].scaled_h_px as int == scaled
            &&& r.slots@[i].display_rows as int == ceil_div(scaled, pch as int)
        },
        r.total_scaled_h_px as int == sum_scaled_h(
            dims@,
            awp as int,
            scale_num as int,
            scale_den as int,
        ),
        r.fits == (r.total_scaled_h_px <= avail_height_px as u128),
{
    let mut slots: Vec<SlotScaling> = Vec::new();
    let mut total: u128 = 0;
    let mut i: usize = 0;
    while i < dims.len()
        invariant
            i <= dims@.len(),
            dims@.len() <= 0xffff_ffff,
            forall|j: int| 0 <= j < dims@.len()
                ==> ((#[trigger] dims@[j]) matches Option::Some(d) ==> d.wf()),
            awp < 0x1_0000_0000_0000,
            scale_num < 0x1_0000_0000,
            scale_num as int <= scale_den as int,
            scale_den >= 1,
            pch >= 1,
            slots@.len() == i,
            forall|j: int| 0 <= j < i ==> {
                let nat_px = spec_natural_h(dims@[j], awp as int);
                let scaled = nat_px * scale_num as int / scale_den as int;
                &&& (#[trigger] slots@[j]).natural_h_px as int == nat_px
                &&& slots@[j].scaled_h_px as int == scaled
                &&& slots@[j].display_rows as int == ceil_div(scaled, pch as int)
            },
            total as int == sum_scaled_h(
                dims@.subrange(0, i as int),
                awp as int,
                scale_num as int,
                scale_den as int,
            ),
            total <= i as u128 * 0x1_0000_0000_0000_0000_0000u128,
        decreases dims@.len() - i,
    {
        let nat_h: u128 = match dims[i] {
            Option::None => 0,
            Option::Some(d) => {
                proof {
                    assert(dims@[i as int] matches Option::Some(dd) && dd.wf());
                    assert((awp as int) * (d.height as int)
                        < 0x1_0000_0000_0000 * 0x1_0000_0000) by (nonlinear_arith)
                        requires
                            0 <= awp < 0x1_0000_0000_0000,
                            0 <= d.height < 0x1_0000_0000;
                    vstd::arithmetic::div_mod::lemma_div_pos_is_pos(
                        (awp as int) * (d.height as int),
                        d.width as int,
                    );
                    vstd::arithmetic::div_mod::lemma_div_nonincreasing(
                        (awp as int) * (d.height as int),
                        d.width as int,
                    );
                }
                (awp as u128) * (d.height as u128) / (d.width as u128)
            },
        };
        proof {
            assert(nat_h as int == spec_natural_h(dims@[i as int], awp as int));
            assert(nat_h < 0x1_0000_0000_0000_0000_0000);
            assert((nat_h as int) * (scale_num as int) <= (scale_den as int) * (nat_h as int))
                by (nonlinear_arith)
                requires
                    0 <= scale_num <= scale_den,
                    nat_h >= 0;
            vstd::arithmetic::div_mod::lemma_multiply_divide_le(
                (nat_h as int) * (scale_num as int),
                scale_den as int,
                nat_h as int,
            );
            vstd::arithmetic::div_mod::lemma_div_pos_is_pos(
                (nat_h as int) * (scale_num as int),
                scale_den as int,
            );
            assert((nat_h as int) * (scale_num as int) < 0x1_0000_0000_0000_0000_0000 * 0x1_0000_0000)
                by (nonlinear_arith)
                requires
                    0 <= nat_h < 0x1_0000_0000_0000_0000_0000,
                    0 <= scale_num < 0x1_0000_0000;
        }
        let scaled: u128 = nat_h * (scale_num as u128) / scale_den;
        proof {
            lemma_ceil_div_bounds(scaled as int, pch as int);
        }
        let rows: u128 = (scaled + (pch as u128) - 1) / (pch as u128);
        proof {
            assert(dims@.subrange(0, i + 1 as int).drop_last() =~= dims@.subrange(0, i as int));
            assert(dims@.subrange(0, i + 1 as int).last() == dims@[i as int]);
        }
        slots.push(SlotScaling { natural_h_px: nat_h, scaled_h_px: scaled, display_rows: rows });
        total = total + scaled;
        i = i + 1;
    }
    proof {
        assert(dims@.subrange(0, dims@.len() as int) =~= dims@);
    }
    let fits: bool = total <= (avail_height_px as u128);
    ScalingReport { slots, total_scaled_h_px: total, fits }
}

} // verus!
