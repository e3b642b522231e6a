use crunchy_cli_core::resolution::{find_resolution, Resolution, Variant};

fn variant(id: usize, width: u64, height: u64) -> Variant {
    Variant { id, resolution: Resolution { width, height }, bandwidth: 1_000_000 }
}

fn request(height: u64) -> Resolution {
    Resolution { width: height, height }
}

fn three() -> Vec<Variant> {
    vec![variant(0, 1280, 720), variant(1, 1920, 1080), variant(2, 854, 480)]
}

#[test]
fn maximum_selects_the_widest() {
    let found = find_resolution(three(), &request(u64::MAX));
    assert_eq!(found, Some(variant(1, 1920, 1080)));
}

#[test]
fn minimum_selects_the_narrowest() {
    let found = find_resolution(three(), &request(0));
    assert_eq!(found, Some(variant(2, 854, 480)));
}

#[test]
fn a_height_selects_the_variant_of_that_height() {
    let found = find_resolution(three(), &request(720));
    assert_eq!(found, Some(variant(0, 1280, 720)));
}

#[test]
fn a_height_that_no_variant_has_selects_nothing() {
    assert_eq!(find_resolution(three(), &request(360)), None);
}

#[test]
fn only_the_height_of_a_request_counts() {
    let wanted = Resolution { width: 1, height: 480 };
    assert_eq!(find_resolution(three(), &wanted), Some(variant(2, 854, 480)));
}

#[test]
fn no_variants_select_nothing() {
    assert_eq!(find_resolution(vec![], &request(720)), None);
    assert_eq!(find_resolution(vec![], &request(u64::MAX)), None);
    assert_eq!(find_resolution(vec![], &request(0)), None);
}

#[test]
fn among_equally_wide_variants_the_order_given_decides() {
    let listed = vec![
        variant(0, 1920, 1080),
        variant(1, 640, 360),
        variant(2, 1920, 1080),
        variant(3, 640, 360),
    ];
    assert_eq!(find_resolution(listed.clone(), &request(u64::MAX)), Some(variant(0, 1920, 1080)));
    assert_eq!(find_resolution(listed.clone(), &request(0)), Some(variant(3, 640, 360)));
    assert_eq!(find_resolution(listed.clone(), &request(1080)), Some(variant(0, 1920, 1080)));
    assert_eq!(find_resolution(listed, &request(360)), Some(variant(1, 640, 360)));
}

#[test]
fn of_one_height_the_widest_is_selected() {
    let listed = vec![
        variant(0, 960, 720),
        variant(1, 1280, 720),
        variant(2, 1920, 1080),
        variant(3, 1280, 720),
    ];
    assert_eq!(find_resolution(listed, &request(720)), Some(variant(1, 1280, 720)));
}

#[test]
fn a_single_variant_is_both_the_largest_and_the_smallest() {
    let only = vec![variant(7, 1280, 720)];
    assert_eq!(find_resolution(only.clone(), &request(u64::MAX)), Some(variant(7, 1280, 720)));
    assert_eq!(find_resolution(only, &request(0)), Some(variant(7, 1280, 720)));
}
