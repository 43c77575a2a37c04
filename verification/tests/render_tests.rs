use base64::Engine;
use piccy_picky::layout::ImageDim;
use piccy_picky::render::{build_inline_image_sequence, compute_image_info, prepare_inline_image};
use piccy_picky::report::scaling_report;

#[test]
fn images_within_the_ceiling_are_not_downsampled() {
    let info = compute_image_info(4000, 3000);
    assert_eq!((info.scaled_w, info.scaled_h), (4000, 3000));
    assert_eq!((info.scale_num, info.scale_den), (1, 1));

    let small = compute_image_info(640, 480);
    assert_eq!((small.scaled_w, small.scaled_h), (640, 480));
}

#[test]
fn oversized_images_shrink_to_the_ceiling() {
    let info = compute_image_info(8000, 6000);
    assert_eq!((info.orig_w, info.orig_h), (8000, 6000));
    assert_eq!((info.scaled_w, info.scaled_h), (4000, 3000));
    assert_eq!((info.scale_num, info.scale_den), (4000, 8000));

    // Truncating division, the tall side governing.
    let tall = compute_image_info(10, 4001);
    assert_eq!(tall.scaled_h, 4000);
    assert_eq!(tall.scaled_w, 10 * 4000 / 4001);
}

#[test]
fn inline_sequence_is_byte_exact() {
    let payload = b"YWJj".to_vec();
    let seq = build_inline_image_sequence(&payload, 42);
    let expected = b"\x1b]1337;File=name=image.png;size=4;inline=1;width=42c;base64:YWJj\x07";
    assert_eq!(seq, expected.to_vec());
}

#[test]
fn inline_sequence_sizes_count_the_payload() {
    let payload = vec![b'A'; 120];
    let seq = build_inline_image_sequence(&payload, 7);
    let text = String::from_utf8(seq).unwrap();
    assert!(text.starts_with("\x1b]1337;File=name=image.png;size=120;inline=1;width=7c;base64:"));
    assert!(text.ends_with("\x07"));
}

#[test]
fn prepared_image_carries_a_real_png_payload() {
    let img = image::DynamicImage::new_rgb8(2, 2);
    let (info, seq) = prepare_inline_image(&img, 10).unwrap();
    assert_eq!((info.orig_w, info.orig_h), (2, 2));
    assert_eq!((info.scale_num, info.scale_den), (1, 1));

    let text = String::from_utf8(seq).unwrap();
    let start = text.find("base64:").unwrap() + "base64:".len();
    let end = text.len() - 1;
    assert_eq!(text.as_bytes()[end], 0x07);
    let payload = &text[start..end];
    // The declared size is the payload's length.
    assert!(text.contains(&format!(";size={};inline=1;width=10c;", payload.len())));
    // The payload decodes to PNG bytes: the encoder really ran.
    let png = base64::engine::general_purpose::STANDARD.decode(payload).unwrap();
    assert_eq!(&png[..8], &[0x89, 0x50, 0x4e, 0x47, 0x0d, 0x0a, 0x1a, 0x0a]);
}

#[test]
fn oversized_image_is_downsampled_before_encoding() {
    let img = image::DynamicImage::new_rgb8(4001, 10);
    let (info, seq) = prepare_inline_image(&img, 50).unwrap();
    assert_eq!(info.scaled_w, 4000);
    assert_eq!(info.scaled_h, 10 * 4000 / 4001);
    assert!(!seq.is_empty());
}

#[test]
fn scaling_report_matches_the_sample_scenario() {
    let dims = vec![
        Some(ImageDim { width: 4000, height: 3000 }),
        Some(ImageDim { width: 1920, height: 1080 }),
        Some(ImageDim { width: 800, height: 600 }),
    ];
    // Available width 624 px, scale 1862/8400, 16 px rows, 304 px available.
    let r = scaling_report(&dims, 624, 304, 1862, 8400, 16);
    assert_eq!(r.slots.len(), 3);
    assert_eq!(r.slots[0].natural_h_px, 468);
    assert_eq!(r.slots[1].natural_h_px, 351);
    assert_eq!(r.slots[2].natural_h_px, 468);
    assert_eq!(r.slots[0].scaled_h_px, 468 * 1862 / 8400);
    assert_eq!(r.slots[1].scaled_h_px, 351 * 1862 / 8400);
    // 103, 77 and 103 px: 7, 5 and 7 rows of 16 px.
    assert_eq!(r.slots[0].display_rows, 7);
    assert_eq!(r.slots[1].display_rows, 5);
    assert_eq!(r.slots[2].display_rows, 7);
    assert_eq!(r.total_scaled_h_px, 103 + 77 + 103);
    assert!(r.fits);
}

#[test]
fn scaling_report_flags_overflow() {
    let dims = vec![Some(ImageDim { width: 100, height: 1000 })];
    // Unscaled: 624 * 10 = 6240 px against 304 px available.
    let r = scaling_report(&dims, 624, 304, 1, 1, 16);
    assert_eq!(r.slots[0].natural_h_px, 6240);
    assert!(!r.fits);
}
