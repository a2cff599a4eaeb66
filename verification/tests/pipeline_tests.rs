use star_rail_metadata_reconstructor::discovery::profile::BuildProfile;
use star_rail_metadata_reconstructor::output::metadata::{build, push_i16, push_u32, push_u64};
use star_rail_metadata_reconstructor::pipeline::validation::validate;
use star_rail_metadata_reconstructor::reconstruction::generics::GenericsData;
use star_rail_metadata_reconstructor::reconstruction::model::DecodedMetadata;
use star_rail_metadata_reconstructor::reconstruction::strings::StringPool;
use std::collections::HashMap;

fn empty_metadata() -> DecodedMetadata {
    DecodedMetadata {
        images: Vec::new(),
        generics: GenericsData {
            gp_names: Vec::new(),
            gp_containers: Vec::new(),
            gp_name_offs: Vec::new(),
            gp_constraint_starts: Vec::new(),
            gp_constraint_counts: Vec::new(),
            gp_nums: Vec::new(),
            gp_flags: Vec::new(),
            constraints: Vec::new(),
            containers: Vec::new(),
            method_to_container: HashMap::new(),
        },
        types: Vec::new(),
        fields: Vec::new(),
        field_offsets: Vec::new(),
        parameters: Vec::new(),
        methods: Vec::new(),
        interfaces: Vec::new(),
        vtable_methods: Vec::new(),
        interface_offsets: Vec::new(),
        method_mappings: Vec::new(),
        generic_classes: Vec::new(),
        string_literals: Vec::new(),
        nested_types: Vec::new(),
        properties: Vec::new(),
        events: Vec::new(),
        field_defaults: Vec::new(),
        parameter_defaults: Vec::new(),
        default_value_data: Vec::new(),
        expected_field_default_count: 0,
        expected_parameter_default_count: 0,
        strings: StringPool::new(),
    }
}

fn empty_profile() -> BuildProfile {
    BuildProfile {
        metadata_prefix_size: 0,
        type_definition_count: 0,
        type_definition_offset: 0,
        generic_parameter_count: 0,
        generic_container_count: 0,
        interface_count: 0,
        interface_offset: 0,
        string_literal_count: 0,
        primary_method_pointer_file_offset: 0,
        fallback_method_pointer_file_offset: 0,
        minimum_method_pointer_va: 0,
        maximum_method_pointer_va: 0,
    }
}

#[test]
fn consistent_metadata_has_no_validation_errors() {
    let report = validate(&empty_metadata(), &empty_profile());
    assert!(report.is_valid());
    assert!(report.errors.is_empty());
}

#[test]
fn a_type_count_that_differs_from_the_profile_is_reported() {
    let mut profile = empty_profile();
    profile.type_definition_count = 3;
    profile.generic_parameter_count = 2;
    let report = validate(&empty_metadata(), &profile);
    assert!(!report.is_valid());
    let messages: Vec<&str> = report.errors.iter().map(|issue| issue.message.as_str()).collect();
    assert!(messages.contains(&"decoded 0 types, expected 3"));
    assert!(messages.contains(&"decoded 0 generic parameters, expected 2"));
}

fn word(bytes: &[u8], w: usize) -> u32 {
    u32::from_le_bytes(bytes[4 * w..4 * w + 4].try_into().unwrap())
}

#[test]
fn the_rebuilt_header_locates_each_section() {
    let mut metadata = empty_metadata();
    metadata.interfaces = vec![7, -1];
    metadata.vtable_methods = vec![0x1234];
    let artifacts = build(&metadata);
    let file = &artifacts.rebuilt_metadata;
    assert_eq!(word(file, 0), 0xFAB1_1BAF);
    assert_eq!(word(file, 1), 24);
    let mut end = 264;
    for w in (2..46).step_by(2) {
        if w == 20 {
            continue;
        }
        let offset = word(file, w) as usize;
        let size = word(file, w + 1) as usize;
        assert_eq!(offset, end);
        end = offset + size;
    }
    assert_eq!(end, file.len());
    let sizes: Vec<u32> = (2..46).step_by(2).filter(|w| *w != 20).map(|w| word(file, w + 1)).collect();
    assert!(sizes.contains(&8));
    assert!(sizes.contains(&4));
    assert!(artifacts.field_offsets.is_empty());
}

#[test]
fn pushes_append_little_endian_bytes() {
    let mut output = vec![9u8];
    push_u32(&mut output, 0x0102_0304);
    push_i16(&mut output, -2);
    push_u64(&mut output, 1);
    assert_eq!(output, vec![9, 4, 3, 2, 1, 0xfe, 0xff, 1, 0, 0, 0, 0, 0, 0, 0]);
}

#[test]
fn the_string_pool_keeps_one_copy_of_each_string() {
    let mut pool = StringPool::new();
    assert_eq!(pool.add_string(""), 0);
    let first = pool.add_string("System");
    assert_eq!(first, 1);
    let second = pool.add_string("Object");
    assert_eq!(second, 8);
    assert_eq!(pool.add_string("System"), 1);
    assert_eq!(pool.pool, b"\0System\0Object\0".to_vec());
    assert_eq!(pool.list, vec!["System".to_string(), "Object".to_string()]);
}

use star_rail_metadata_reconstructor::reconstruction::mappings::MethodMappingEntry;
use star_rail_metadata_reconstructor::reconstruction::model::GenericClassEntry;
use star_rail_metadata_reconstructor::reconstruction::types::FieldOffsetEntry;

#[test]
fn sidecars_hold_one_record_per_entry() {
    let mut m = empty_metadata();
    m.field_offsets.push(FieldOffsetEntry { type_idx: 3, field_idx_in_type: 1, offset: 0x18 });
    m.field_offsets.push(FieldOffsetEntry { type_idx: 4, field_idx_in_type: 0, offset: 0x10 });
    m.method_mappings.push(MethodMappingEntry { method_idx: 7, pointer: 0x1_8000_1234 });
    m.generic_classes.push(GenericClassEntry { type_definition_index: 5, generic_inst_index: -1 });
    let out = build(&m);
    assert_eq!(out.field_offsets.len(), 24);
    assert_eq!(&out.field_offsets[12..24], &[4, 0, 0, 0, 0, 0, 0, 0, 0x10, 0, 0, 0]);
    assert_eq!(&out.field_offsets[0..4], &[3, 0, 0, 0]);
    assert_eq!(out.method_mappings, vec![7, 0, 0, 0, 0x34, 0x12, 0, 0x80, 1, 0, 0, 0]);
    assert_eq!(out.generic_classes, vec![5, 0, 0, 0, 0xff, 0xff, 0xff, 0xff]);
}

#[test]
fn each_failed_check_reports_its_own_issue_in_check_order() {
    let m = empty_metadata();
    let mut p = empty_profile();
    p.type_definition_count = 2;
    p.string_literal_count = 3;
    p.generic_container_count = 1;
    let report = validate(&m, &p);
    let messages: Vec<&str> = report.errors.iter().map(|e| e.message.as_str()).collect();
    assert_eq!(
        messages,
        vec![
            "decoded 0 types, expected 2",
            "decoded 0 generic containers, expected 1",
            "decoded 0 string literals, expected 3",
        ]
    );
}

use star_rail_metadata_reconstructor::reconstruction::types::{build_nested_type_indices, TypeDef};

fn plain_type(byval: i32, declaring: i32) -> TypeDef {
    TypeDef {
        name: "T".to_string(),
        ns: String::new(),
        name_off: 0,
        ns_off: 0,
        byval_type_index: byval,
        type_index: byval,
        declaring_type_index: declaring,
        parent_index: -1,
        generic_container_index: -1,
        flags: 0,
        bitfield: 0,
        f_start: -1,
        f_count: 0,
        m_start: 0,
        m_count: 0,
        if_start: -1,
        if_count: 0,
        nested_start: 7,
        nested_count: 9,
        property_start: -1,
        property_count: 0,
        event_start: -1,
        event_count: 0,
        vtable_start: -1,
        vtable_count: 0,
        interface_offset_start: -1,
        interface_offset_count: 0,
    }
}

#[test]
fn rebuilt_nested_indices_raise_no_nesting_issue() {
    let mut m = empty_metadata();
    m.types = vec![plain_type(10, -1), plain_type(11, 10), plain_type(12, 11), plain_type(13, 10)];
    m.nested_types = build_nested_type_indices(&mut m.types);
    assert_eq!(m.nested_types, vec![1, 3, 2]);
    let mut p = empty_profile();
    p.type_definition_count = 4;
    let report = validate(&m, &p);
    assert!(report.errors.iter().all(|e| !e.message.contains("nested")));
    m.nested_types.push(1);
    let report = validate(&m, &p);
    assert!(report.errors.iter().any(|e| e.message == "nested type ranges cover 3 entries, emitted 4"));
}

use star_rail_metadata_reconstructor::errors::ReconstructError;
use star_rail_metadata_reconstructor::pipeline::Reconstructor;

#[test]
fn reconstruction_from_discovery_needs_a_pe_image() {
    let r = Reconstructor::new(vec![0u8; 64], vec![0u8; 16], vec![0u8; 64], &Vec::new());
    assert_eq!(r.err(), Some(ReconstructError::NotPeImage));
}

#[test]
fn negative_numbers_in_issues_keep_their_sign() {
    let mut m = empty_metadata();
    let mut t = plain_type(10, -1);
    t.generic_container_index = 0;
    m.types = vec![t];
    m.generics.containers = vec![(-12, 0, 0, 0)];
    let mut p = empty_profile();
    p.type_definition_count = 1;
    p.generic_container_count = 1;
    let report = validate(&m, &p);
    assert!(report
        .errors
        .iter()
        .any(|e| e.message == "type 0 generic container 0 has owner -12 and method flag 0"));
}
