use piccy_picky::geometry::{fallback_pixel_size, TerminalGeometry};
use piccy_picky::layout::{calc_image_height_rows, plan, plan_per_slot, ImageDim};

fn geo(cols: u16, rows: u16, px_width: u32, px_height: u32) -> TerminalGeometry {
    TerminalGeometry { cols, rows, px_width, px_height }
}

fn dim(width: u32, height: u32) -> Option<ImageDim> {
    Some(ImageDim { width, height })
}

#[test]
fn pixels_per_char_standard_terminal() {
    let g = geo(80, 24, 640, 384);
    assert_eq!(g.px_per_char_w(), 8);
    assert_eq!(g.px_per_char_h(), 16);
    assert_eq!(g.avail_width_cols(2), 78);
    assert_eq!(g.avail_rows(5), 19);
}

#[test]
fn pixels_per_char_clamps_degenerate_values() {
    let g = geo(0, 0, 0, 0);
    assert_eq!(g.px_per_char_w(), 1);
    assert_eq!(g.px_per_char_h(), 1);
    // More rows than pixels: the quotient truncates to zero and is clamped.
    let g2 = geo(80, 24, 40, 12);
    assert_eq!(g2.px_per_char_w(), 1);
    assert_eq!(g2.px_per_char_h(), 1);
}

#[test]
fn fallback_pixel_size_uses_8_by_16_cells() {
    assert_eq!(fallback_pixel_size(80, 24), (640, 384));
}

#[test]
fn height_rows_rounds_up() {
    // 78 chars * 8 px = 624 px wide; aspect 3000/4000 gives 468 px tall,
    // which is 29.25 rows of 16 px, rounded up to 30.
    assert_eq!(calc_image_height_rows(4000, 3000, 78, 8, 16), 30);
    assert_eq!(calc_image_height_rows(1920, 1080, 78, 8, 16), 22);
    assert_eq!(calc_image_height_rows(800, 600, 78, 8, 16), 30);
    // An exact multiple needs no rounding.
    assert_eq!(calc_image_height_rows(100, 100, 2, 8, 16), 1);
}

#[test]
fn sample_scenario_uniform_scaling() {
    // cols=80, rows=24, 640x384 px (8x16 per cell), three images,
    // uiReservedRows=5, widthMarginCols=2.
    let g = geo(80, 24, 640, 384);
    let dims = vec![dim(4000, 3000), dim(1920, 1080), dim(800, 600)];
    let p = plan(&g, &dims, 5, 2);

    assert_eq!(p.avail_width_cols, 78);
    assert_eq!(p.avail_rows, 19);
    assert_eq!(p.slots.len(), 3);
    assert_eq!(p.slots[0].height_rows, 30);
    assert_eq!(p.slots[1].height_rows, 22);
    assert_eq!(p.slots[2].height_rows, 30);
    // 30 + 22 + 30 plus 2 rows of padding.
    assert_eq!(p.total_needed_rows, 84);
    // Over budget: scale factor (19 / 84) * 98 / 100, exactly.
    assert_eq!(p.scale_num, 19 * 98);
    assert_eq!(p.scale_den, 84 * 100);
    // floor(78 * 1862 / 8400) = 17, identical for every image.
    for s in &p.slots {
        assert_eq!(s.width_chars, 17);
    }
}

#[test]
fn batch_that_fits_keeps_scale_one() {
    let g = geo(80, 24, 640, 384);
    // A single wide, short image: 624 px * 60/1000 = 37 px -> 3 rows.
    let dims = vec![dim(1000, 60)];
    let p = plan(&g, &dims, 5, 2);
    assert_eq!(p.total_needed_rows, 3);
    assert_eq!(p.scale_num, 1);
    assert_eq!(p.scale_den, 1);
    assert_eq!(p.slots[0].width_chars, 78);
}

#[test]
fn unknown_dimensions_contribute_no_rows() {
    let g = geo(80, 24, 640, 384);
    let dims = vec![None, dim(1000, 60), None];
    let p = plan(&g, &dims, 5, 2);
    assert_eq!(p.slots[0].height_rows, 0);
    assert_eq!(p.slots[1].height_rows, 3);
    assert_eq!(p.slots[2].height_rows, 0);
    // 0 + 3 + 0 plus 2 rows of padding.
    assert_eq!(p.total_needed_rows, 5);
}

#[test]
fn scaled_batch_fits_on_a_tall_terminal() {
    // 395 available rows dominate the slot count, so re-laying the batch out
    // at the scaled width must fit.
    let g = geo(80, 400, 640, 6400);
    let dims = vec![dim(100, 10000), dim(100, 10000), dim(100, 10000)];
    let p = plan(&g, &dims, 5, 2);
    assert_eq!(p.avail_rows, 395);
    assert!(p.total_needed_rows > 395);
    let w = p.slots[0].width_chars;
    assert!(w < 78);

    // Re-apply the per-image ceiling at the scaled width.
    let mut total: u128 = 0;
    for d in &dims {
        let d = d.unwrap();
        total += calc_image_height_rows(d.width, d.height, w, 8, 16);
    }
    total += (dims.len() - 1) as u128;
    assert!(total <= 395);
}

#[test]
fn plan_depends_only_on_aspect_ratios() {
    let g = geo(80, 24, 640, 384);
    let a = vec![dim(4000, 3000), dim(1920, 1080)];
    let b = vec![dim(8000, 6000), dim(960, 540)];
    let pa = plan(&g, &a, 5, 2);
    let pb = plan(&g, &b, 5, 2);
    assert_eq!(pa.total_needed_rows, pb.total_needed_rows);
    assert_eq!(pa.scale_num, pb.scale_num);
    assert_eq!(pa.scale_den, pb.scale_den);
    for (x, y) in pa.slots.iter().zip(pb.slots.iter()) {
        assert_eq!(x.height_rows, y.height_rows);
        assert_eq!(x.width_chars, y.width_chars);
    }
}

#[test]
fn per_slot_policy_scales_only_oversized_images() {
    let g = geo(80, 24, 640, 384);
    let dims = vec![dim(4000, 3000), dim(1920, 1080), dim(800, 600)];
    let p = plan_per_slot(&g, &dims, 5, 2);
    // Budget: (19 - 2) / 3 = 5 rows a slot; every image exceeds it.
    assert_eq!(p.slots[0].width_chars, 78 * 5 / 30);
    assert_eq!(p.slots[1].width_chars, 78 * 5 / 22);
    assert_eq!(p.slots[2].width_chars, 78 * 5 / 30);
    assert_eq!(p.scale_num, 1);
    assert_eq!(p.scale_den, 1);

    // A slot within its budget keeps the full width.
    let dims2 = vec![dim(1000, 60), dim(4000, 3000)];
    let p2 = plan_per_slot(&g, &dims2, 5, 2);
    // Budget: (19 - 1) / 2 = 9; the first needs 3 rows, the second 30.
    assert_eq!(p2.slots[0].width_chars, 78);
    assert_eq!(p2.slots[1].width_chars, 78 * 9 / 30);
}
