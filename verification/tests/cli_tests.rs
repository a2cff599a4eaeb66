use star_rail_metadata_reconstructor::cli::{parse_u64, parse_usize, validate_profile};
use star_rail_metadata_reconstructor::discovery::profile::BuildProfile;

#[test]
fn profile_numbers_accept_decimal_hex_and_separators() {
    assert_eq!(parse_usize("76_920").unwrap(), 76_920);
    assert_eq!(parse_usize("0x12C78").unwrap(), 76_920);
    assert_eq!(parse_u64("0x180001000").unwrap(), 0x180001000);
}

#[test]
fn profile_numbers_report_standard_errors() {
    assert_eq!(parse_u64("").unwrap_err(), "cannot parse integer from empty string");
    assert_eq!(parse_u64("_").unwrap_err(), "cannot parse integer from empty string");
    assert_eq!(parse_u64("0x").unwrap_err(), "cannot parse integer from empty string");
    assert_eq!(parse_u64("12a").unwrap_err(), "invalid digit found in string");
    assert_eq!(parse_u64("+").unwrap_err(), "invalid digit found in string");
    assert_eq!(parse_u64("-1").unwrap_err(), "invalid digit found in string");
    assert_eq!(parse_u64("18446744073709551616").unwrap_err(), "number too large to fit in target type");
    assert_eq!(parse_u64("0x1_0000_0000_0000_0000").unwrap_err(), "number too large to fit in target type");
    assert_eq!(parse_u64("+42").unwrap(), 42);
    assert_eq!(parse_u64("0XfF").unwrap(), 255);
    assert_eq!(parse_u64("18446744073709551615").unwrap(), u64::MAX);
}

#[test]
fn profile_numbers_agree_with_the_standard_parser() {
    for text in ["0", "7", "+9", "00012", "1_2_3", "99999999999999999999", "abc", "1 2"] {
        let expected = text.replace('_', "").parse::<u64>().map_err(|e| e.to_string());
        assert_eq!(parse_u64(text), expected, "{text}");
    }
}

fn profile(count: usize, minimum: u64, maximum: u64) -> BuildProfile {
    BuildProfile {
        metadata_prefix_size: 0,
        type_definition_count: count,
        type_definition_offset: 0,
        generic_parameter_count: 0,
        generic_container_count: 0,
        interface_count: 0,
        interface_offset: 0,
        string_literal_count: 0,
        primary_method_pointer_file_offset: 0,
        fallback_method_pointer_file_offset: 0,
        minimum_method_pointer_va: minimum,
        maximum_method_pointer_va: maximum,
    }
}

#[test]
fn profiles_need_types_and_a_pointer_range() {
    assert_eq!(validate_profile(&profile(0, 1, 2)).unwrap_err(), "type definition count must not be zero");
    assert_eq!(validate_profile(&profile(3, 2, 2)).unwrap_err(), "method pointer VA range is empty");
    assert!(validate_profile(&profile(3, 1, 2)).is_ok());
}
