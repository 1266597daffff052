use bbs_fetch_post::{calculate_post_numbers, parse_range_specifications, RangeSpec};

#[test]
fn test_parse_single_number() {
    let specs = parse_range_specifications("123");
    assert_eq!(specs, vec![RangeSpec::Include(123, None)]);
}

#[test]
fn test_parse_range() {
    let specs = parse_range_specifications("123-128");
    assert_eq!(specs, vec![RangeSpec::Include(123, Some(128))]);
}

#[test]
fn test_parse_open_range() {
    let specs = parse_range_specifications("123-");
    assert_eq!(specs, vec![RangeSpec::IncludeFrom(123)]);
}

#[test]
fn test_parse_exclusion() {
    let specs = parse_range_specifications("^123");
    assert_eq!(specs, vec![RangeSpec::Exclude(123, None)]);
}

#[test]
fn test_parse_exclusion_range() {
    let specs = parse_range_specifications("^123-128");
    assert_eq!(specs, vec![RangeSpec::Exclude(123, Some(128))]);
}

#[test]
fn test_parse_exclusion_open_range() {
    let specs = parse_range_specifications("^123-");
    assert_eq!(specs, vec![RangeSpec::ExcludeFrom(123)]);
}

#[test]
fn test_parse_relative_single() {
    let specs = parse_range_specifications("?324");
    assert_eq!(specs, vec![RangeSpec::RelativeInclude(324, None, 3)]);
}

#[test]
fn test_parse_relative_range() {
    let specs = parse_range_specifications("?324-326");
    assert_eq!(specs, vec![RangeSpec::RelativeInclude(324, Some(326), 3)]);
}

#[test]
fn test_parse_relative_open_range() {
    let specs = parse_range_specifications("?300-");
    assert_eq!(specs, vec![RangeSpec::RelativeIncludeFrom(300, 3)]);
}

#[test]
fn test_parse_relative_exclusion() {
    let specs = parse_range_specifications("?^325");
    assert_eq!(specs, vec![RangeSpec::RelativeExclude(325, None, 3)]);
}

#[test]
fn test_parse_relative_exclusion_range() {
    let specs = parse_range_specifications("?^325-327");
    assert_eq!(specs, vec![RangeSpec::RelativeExclude(325, Some(327), 3)]);
}

#[test]
fn test_parse_complex_specifications() {
    let specs = parse_range_specifications("10,20-25,30,^23,?324,?^326");
    assert_eq!(
        specs,
        vec![
            RangeSpec::Include(10, None),
            RangeSpec::Include(20, Some(25)),
            RangeSpec::Include(30, None),
            RangeSpec::Exclude(23, None),
            RangeSpec::RelativeInclude(324, None, 3),
            RangeSpec::RelativeExclude(326, None, 3),
        ]
    );
}

#[test]
fn test_parse_empty_and_whitespace() {
    let specs = parse_range_specifications("  123  ,  ,  456  ");
    assert_eq!(
        specs,
        vec![RangeSpec::Include(123, None), RangeSpec::Include(456, None)]
    );
}

#[test]
fn test_calculate_single_number() {
    let specs = vec![RangeSpec::Include(123, None)];
    let result = calculate_post_numbers(specs, 1000);
    assert_eq!(result, vec![123]);
}

#[test]
fn test_calculate_range() {
    let specs = vec![RangeSpec::Include(123, Some(126))];
    let result = calculate_post_numbers(specs, 1000);
    assert_eq!(result, vec![123, 124, 125, 126]);
}

#[test]
fn test_calculate_open_range() {
    let specs = vec![RangeSpec::IncludeFrom(998)];
    let result = calculate_post_numbers(specs, 1000);
    assert_eq!(result, vec![998, 999, 1000]);
}

#[test]
fn test_calculate_with_exclusion() {
    let specs = vec![
        RangeSpec::Include(123, Some(128)),
        RangeSpec::Exclude(126, None),
    ];
    let result = calculate_post_numbers(specs, 1000);
    assert_eq!(result, vec![123, 124, 125, 127, 128]);
}

#[test]
fn test_calculate_with_exclusion_range() {
    let specs = vec![
        RangeSpec::Include(100, Some(110)),
        RangeSpec::Exclude(105, Some(107)),
    ];
    let result = calculate_post_numbers(specs, 1000);
    assert_eq!(result, vec![100, 101, 102, 103, 104, 108, 109, 110]);
}

#[test]
fn test_calculate_relative_reference() {
    let specs = vec![RangeSpec::RelativeInclude(324, None, 3)];
    let result = calculate_post_numbers(specs, 123340);
    assert_eq!(result, vec![123324]);
}

#[test]
fn test_calculate_relative_range() {
    let specs = vec![RangeSpec::RelativeInclude(324, Some(326), 3)];
    let result = calculate_post_numbers(specs, 123340);
    assert_eq!(result, vec![123324, 123325, 123326]);
}

#[test]
fn test_calculate_relative_with_exclusion() {
    let specs = vec![
        RangeSpec::RelativeInclude(320, Some(330), 3),
        RangeSpec::RelativeExclude(325, None, 3),
    ];
    let result = calculate_post_numbers(specs, 123340);
    let expected: Vec<i32> = (123320..=123330).filter(|&x| x != 123325).collect();
    assert_eq!(result, expected);
}

#[test]
fn test_calculate_relative_open_range() {
    let specs = vec![RangeSpec::RelativeIncludeFrom(338, 3)];
    let result = calculate_post_numbers(specs, 123340);
    assert_eq!(result, vec![123338, 123339, 123340]);
}

#[test]
fn test_calculate_complex_mix() {
    let specs = vec![
        RangeSpec::Include(100, Some(105)),
        RangeSpec::RelativeInclude(324, None, 3),
        RangeSpec::Exclude(102, None),
        RangeSpec::RelativeExclude(324, None, 3),
    ];
    let result = calculate_post_numbers(specs, 123340);
    assert_eq!(result, vec![100, 101, 103, 104, 105]);
}

#[test]
fn test_calculate_with_small_max_number() {
    // Test when max_post_number is less than 1000
    let specs = vec![RangeSpec::RelativeInclude(324, None, 3)];
    let result = calculate_post_numbers(specs, 500);
    assert_eq!(result, vec![324]); // Base is 0, so relative becomes absolute
}

#[test]
fn test_calculate_edge_cases() {
    // Test with max_post_number of 0
    let specs = vec![RangeSpec::Include(1, Some(3))];
    let result = calculate_post_numbers(specs, 0);
    assert_eq!(result, vec![1, 2, 3]);

    // Test empty specs
    let specs = vec![];
    let result = calculate_post_numbers(specs, 1000);
    assert_eq!(result, vec![] as Vec<i32>);
}

#[test]
fn test_calculate_overlapping_ranges() {
    let specs = vec![
        RangeSpec::Include(1, Some(10)),
        RangeSpec::Include(5, Some(15)),
        RangeSpec::Exclude(8, Some(12)),
    ];
    let result = calculate_post_numbers(specs, 100);
    let expected: Vec<i32> = vec![1, 2, 3, 4, 5, 6, 7, 13, 14, 15];
    assert_eq!(result, expected);
}

#[test]
fn test_parse_relative_with_different_digits() {
    // Test 2 digits
    let specs = parse_range_specifications("?24");
    assert_eq!(specs, vec![RangeSpec::RelativeInclude(24, None, 2)]);

    // Test 4 digits
    let specs = parse_range_specifications("?1234");
    assert_eq!(specs, vec![RangeSpec::RelativeInclude(1234, None, 4)]);

    // Test mixed digits
    let specs = parse_range_specifications("?24,?324,?1234");
    assert_eq!(
        specs,
        vec![
            RangeSpec::RelativeInclude(24, None, 2),
            RangeSpec::RelativeInclude(324, None, 3),
            RangeSpec::RelativeInclude(1234, None, 4),
        ]
    );
}

#[test]
fn test_calculate_relative_with_different_digits() {
    // Test with max 123456 and different digit counts
    let max_post = 123456;

    // ?56 with 2 digits: 123456 / 100 * 100 + 56 = 123456
    let specs = vec![RangeSpec::RelativeInclude(56, None, 2)];
    let result = calculate_post_numbers(specs, max_post);
    assert_eq!(result, vec![123456]);

    // ?456 with 3 digits: 123456 / 1000 * 1000 + 456 = 123456
    let specs = vec![RangeSpec::RelativeInclude(456, None, 3)];
    let result = calculate_post_numbers(specs, max_post);
    assert_eq!(result, vec![123456]);

    // ?3456 with 4 digits: 123456 / 10000 * 10000 + 3456 = 123456
    let specs = vec![RangeSpec::RelativeInclude(3456, None, 4)];
    let result = calculate_post_numbers(specs, max_post);
    assert_eq!(result, vec![123456]);

    // Test with different values
    // ?24 with 2 digits: 123456 / 100 * 100 + 24 = 123424
    let specs = vec![RangeSpec::RelativeInclude(24, None, 2)];
    let result = calculate_post_numbers(specs, max_post);
    assert_eq!(result, vec![123424]);
}

#[test]
fn test_calculate_relative_with_wraparound() {
    // Test the specific case mentioned: max 2345, ?456 should return 1456
    let max_post = 2345;

    // ?456 with max 2345: since 2456 > 2345, should wrap to 1456
    let specs = vec![RangeSpec::RelativeInclude(456, None, 3)];
    let result = calculate_post_numbers(specs, max_post);
    assert_eq!(result, vec![1456]);

    // ?345 with max 2345: should return 2345 (exact match)
    let specs = vec![RangeSpec::RelativeInclude(345, None, 3)];
    let result = calculate_post_numbers(specs, max_post);
    assert_eq!(result, vec![2345]);

    // ?100 with max 2345: should return 2100
    let specs = vec![RangeSpec::RelativeInclude(100, None, 3)];
    let result = calculate_post_numbers(specs, max_post);
    assert_eq!(result, vec![2100]);

    // Test with smaller max
    let max_post = 456;

    // ?456 with max 456: should return 456 (exact match)
    let specs = vec![RangeSpec::RelativeInclude(456, None, 3)];
    let result = calculate_post_numbers(specs, max_post);
    assert_eq!(result, vec![456]);

    // ?500 with max 456: since we can't go negative, should return 500
    let specs = vec![RangeSpec::RelativeInclude(500, None, 3)];
    let result = calculate_post_numbers(specs, max_post);
    assert_eq!(result, vec![500]);
}
