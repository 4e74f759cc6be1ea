use minecator::filename::region_filename_parser;

#[test]
fn parses_signed_region_coordinates() {
    assert_eq!(region_filename_parser("r.-3.12.mca"), Some((-3, 12)));
}

#[test]
fn rejects_name_without_pattern() {
    assert_eq!(region_filename_parser("region.mca"), None);
}

#[test]
fn parses_last_path_component() {
    assert_eq!(region_filename_parser("/world/region/r.0.-1.mca"), Some((0, -1)));
    assert_eq!(region_filename_parser("r.1.2/r.5.6.mcr"), Some((5, 6)));
}

#[test]
fn accepts_plus_sign_and_extra_dots() {
    assert_eq!(region_filename_parser("r.+4.5.mca"), Some((4, 5)));
    assert_eq!(region_filename_parser("r.1.2.3.mca"), Some((1, 2)));
    assert_eq!(region_filename_parser("r.1.2."), Some((1, 2)));
}

#[test]
fn rejects_malformed_names() {
    assert_eq!(region_filename_parser("r.1.2"), None);
    assert_eq!(region_filename_parser("r..1.mca"), None);
    assert_eq!(region_filename_parser("r.a.1.mca"), None);
    assert_eq!(region_filename_parser("r.-.1.mca"), None);
    assert_eq!(region_filename_parser("x.1.2.mca"), None);
    assert_eq!(region_filename_parser(""), None);
    assert_eq!(region_filename_parser("r.1.2.mca/"), None);
}

#[test]
fn respects_i64_range() {
    assert_eq!(
        region_filename_parser("r.-9223372036854775808.9223372036854775807.mca"),
        Some((i64::MIN, i64::MAX))
    );
    assert_eq!(region_filename_parser("r.9223372036854775808.0.mca"), None);
    assert_eq!(region_filename_parser("r.0.-9223372036854775809.mca"), None);
    assert_eq!(region_filename_parser("r.123456789012345678901234567890.0.mca"), None);
}
