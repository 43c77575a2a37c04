use piccy_picky::cli::{parse_args, parse_usize, str_eq, CliResult};
use piccy_picky::paths::{
    abbreviate_path, filter_image_paths, is_image_path, search_listing, within_depth,
};

#[test]
fn short_paths_come_back_unchanged() {
    assert_eq!(abbreviate_path("photos/cat.jpg", "", 40), "photos/cat.jpg");
    assert_eq!(abbreviate_path("abc", "", 3), "abc");
}

#[test]
fn base_path_prefix_is_stripped() {
    assert_eq!(abbreviate_path("/home/me/pics/cat.jpg", "/home/me/", 40), "pics/cat.jpg");
    // A non-prefix leaves the path whole.
    assert_eq!(abbreviate_path("/mnt/pics/cat.jpg", "/home/me/", 40), "/mnt/pics/cat.jpg");
}

#[test]
fn long_paths_keep_both_ends_within_the_width() {
    let p = "/very/long/directory/name/with/picture.jpg";
    let out = abbreviate_path(p, "", 20);
    assert_eq!(out.chars().count(), 20);
    assert!(out.contains("..."));
    assert_eq!(out.chars().next(), p.chars().next());
    assert_eq!(out.chars().last(), p.chars().last());
    // The start gets the extra character when the room splits unevenly:
    // 20 - 3 = 17 room, 9 for the start and 8 for the end.
    assert_eq!(out, "/very/lon...ture.jpg");

    let fits = abbreviate_path(p, "", p.len());
    assert_eq!(fits, p);
}

#[test]
fn tiny_widths_still_produce_the_ellipsis() {
    // With no room beside the ellipsis, only the ellipsis remains.
    assert_eq!(abbreviate_path("abcdef", "", 2), "...");
    assert_eq!(abbreviate_path("abcdef", "", 3), "...");
    assert_eq!(abbreviate_path("abcdef", "", 4), "a...");
    assert_eq!(abbreviate_path("abcdef", "", 5), "a...f");
}

#[test]
fn image_extensions_match_case_insensitively() {
    assert!(is_image_path("a.jpg"));
    assert!(is_image_path("a.JPG"));
    assert!(is_image_path("a.jpeg"));
    assert!(is_image_path("b/c.PnG"));
    assert!(is_image_path("x.gif"));
    assert!(is_image_path("x.WEBP"));
    assert!(is_image_path("x.bmp"));
    assert!(!is_image_path("x.txt"));
    assert!(!is_image_path("x.jpg.bak"));
    assert!(!is_image_path("noextension"));
    // A leading dot marks a hidden name, not an extension.
    assert!(!is_image_path(".png"));
    assert!(!is_image_path("dir/.png"));
    // The extension belongs to the last component alone.
    assert!(!is_image_path("dir.png/file"));
    assert!(is_image_path("dir.d/file.png"));
}

#[test]
fn test_search_finds_two_images_among_three_files() {
    // A directory holding exactly two .png files and one .txt file at depth
    // 0 reports two image files, and lists both.
    let entries = vec![
        String::from("shot1.png"),
        String::from("notes.txt"),
        String::from("shot2.png"),
    ];
    let found = filter_image_paths(&entries);
    assert_eq!(found.len(), 2);
    assert_eq!(found[0], "shot1.png");
    assert_eq!(found[1], "shot2.png");

    let (listed, extra) = search_listing(&found);
    assert_eq!(listed.len(), 2);
    assert_eq!(extra, 0);
}

#[test]
fn search_listing_caps_at_ten() {
    let found: Vec<String> = (0..13).map(|i| format!("img{}.png", i)).collect();
    let (listed, extra) = search_listing(&found);
    assert_eq!(listed.len(), 10);
    assert_eq!(extra, 3);
    assert_eq!(listed[0], "img0.png");
    assert_eq!(listed[9], "img9.png");
}

#[test]
fn depth_bound_is_relative_to_the_root() {
    assert!(within_depth(3, 4, 1));
    assert!(!within_depth(3, 5, 1));
    assert!(within_depth(3, 5, 2));
    // An entry above the root counts as depth zero.
    assert!(within_depth(5, 3, 0));
}

#[test]
fn parse_usize_accepts_digits_and_a_leading_plus() {
    assert_eq!(parse_usize("42"), Some(42));
    assert_eq!(parse_usize("+7"), Some(7));
    assert_eq!(parse_usize("0"), Some(0));
    assert_eq!(parse_usize(""), None);
    assert_eq!(parse_usize("+"), None);
    assert_eq!(parse_usize("-1"), None);
    assert_eq!(parse_usize("4x"), None);
    assert_eq!(parse_usize("99999999999999999999999999"), None);
}

#[test]
fn str_eq_compares_characters() {
    assert!(str_eq("abc", "abc"));
    assert!(!str_eq("abc", "abd"));
    assert!(!str_eq("abc", "ab"));
    assert!(str_eq("", ""));
}

#[test]
fn cli_usage_and_rejections() {
    let argv = |xs: &[&str]| xs.iter().map(|s| s.to_string()).collect::<Vec<_>>();

    assert!(matches!(parse_args(&argv(&["prog"])), CliResult::Usage));
    assert!(matches!(parse_args(&argv(&["prog", "--test-search"])), CliResult::NoPaths));
    match parse_args(&argv(&["prog", "--wat", "p"])) {
        CliResult::UnknownOption(a) => assert_eq!(a, "--wat"),
        other => panic!("expected an unknown-option rejection, got a different result: {}", kind(&other)),
    }
}

fn kind(r: &CliResult) -> &'static str {
    match r {
        CliResult::Run(_) => "run",
        CliResult::UnknownOption(_) => "unknown option",
        CliResult::NoPaths => "no paths",
        CliResult::Usage => "usage",
    }
}

#[test]
fn cli_depth_and_paths() {
    let argv = |xs: &[&str]| xs.iter().map(|s| s.to_string()).collect::<Vec<_>>();

    match parse_args(&argv(&["prog", "-d", "3", "a", "b"])) {
        CliResult::Run(o) => {
            assert_eq!(o.depth, 3);
            assert!(!o.test_search);
            assert_eq!(o.paths, vec!["a".to_string(), "b".to_string()]);
        },
        other => panic!("expected a run, got: {}", kind(&other)),
    }

    // An unparsable depth falls back to 1, as `parse().unwrap_or(1)` would.
    match parse_args(&argv(&["prog", "--depth", "xyz", "a"])) {
        CliResult::Run(o) => assert_eq!(o.depth, 1),
        other => panic!("expected a run, got: {}", kind(&other)),
    }

    match parse_args(&argv(&["prog", "--test-search", "dir"])) {
        CliResult::Run(o) => {
            assert!(o.test_search);
            assert_eq!(o.depth, 1);
            assert_eq!(o.paths, vec!["dir".to_string()]);
        },
        other => panic!("expected a run, got: {}", kind(&other)),
    }
}
