use star_rail_metadata_reconstructor::discovery::native::{HeaderExpression, TransformOp};
use star_rail_metadata_reconstructor::discovery::{
    discover_types_count, generic_parameter_key, interface_range_upper_bound, parameter_term,
};

#[test]
fn interface_range_bound_uses_direct_interface_counts() {
    let mut body = vec![0u8; 280];
    body[68] = 0xc7;
    body[54..56].copy_from_slice(&(0xc28cu16 ^ 0xffff).to_le_bytes());
    body[138] = 0xc5;
    body[124..126].copy_from_slice(&(0xc28cu16 ^ 7).to_le_bytes());
    body[208] = 0xc6;
    body[194..196].copy_from_slice(&(0xc28cu16 ^ 2).to_le_bytes());
    body[278] = 0xcf;
    body[264..266].copy_from_slice(&(0xc28cu16 ^ 20).to_le_bytes());
    assert_eq!(interface_range_upper_bound(&body, 0, 4), 28);
}

#[test]
fn type_table_scan_stops_at_invalid_record() {
    let mut data = vec![0u8; 48];
    data[10] = 0x15;
    data[26] = 0x1d;
    data[42] = 0x4c;
    assert_eq!(discover_types_count(&data, 0), 2);
}

#[test]
fn interface_range_bound_is_zero_without_types() {
    let body = vec![0u8; 10];
    assert_eq!(interface_range_upper_bound(&body, 0, 0), 0);
}

#[test]
fn type_table_scan_stops_at_reserved_bits_and_at_the_end() {
    let mut data = vec![0u8; 40];
    data[10] = 0x01;
    data[26] = 0x02;
    data[28] = 1;
    assert_eq!(discover_types_count(&data, 0), 1);
    let mut data = vec![0u8; 24];
    data[10] = 0x55;
    assert_eq!(discover_types_count(&data, 0), 1);
    assert_eq!(discover_types_count(&data, 100), 0);
}

#[test]
fn keys_follow_their_formulas() {
    let expected = {
        let term = (0x617f_e3cc_452cu64.wrapping_mul(3).wrapping_add(0x09dc_5db7_1f0e_b440) >> 9)
            .wrapping_add(718_849_585)
            ^ 0x5278_374d;
        1_252_900_171u64.wrapping_mul(term) >> 15
    };
    assert_eq!(generic_parameter_key(3), expected);
    let term = (1_488_482_466u64
        .wrapping_mul((0x072e_1d74_b12b_u64.wrapping_mul(5).wrapping_add(0x0191_1d05_aff5)) >> 11)
        as u32)
        .wrapping_sub(2_083_554_492);
    assert_eq!(parameter_term(5), term);
}

#[test]
fn header_expressions_apply_their_operations_in_order() {
    let expression = HeaderExpression {
        index: 1,
        operations: vec![
            TransformOp::Xor(0xff),
            TransformOp::Add(1),
            TransformOp::ShiftLeft(36),
            TransformOp::ShiftRight(1),
            TransformOp::Sub(3),
        ],
    };
    let values = [7u32, 0x0f];
    assert_eq!(expression.evaluate(&values), Some((((0x0fu32 ^ 0xff) + 1) << 4 >> 1) - 3));
    let arithmetic = HeaderExpression {
        index: 0,
        operations: vec![TransformOp::ShiftRightArithmetic(4)],
    };
    assert_eq!(arithmetic.evaluate(&[0x8000_0000]), Some(0xf800_0000));
    let missing = HeaderExpression { index: 2, operations: Vec::new() };
    assert_eq!(missing.evaluate(&values), None);
}

use star_rail_metadata_reconstructor::discovery::mhy::MhyHeader;
use star_rail_metadata_reconstructor::discovery::pe::{PeImage, PeSection};
use star_rail_metadata_reconstructor::discovery::runtime::{
    discover_method_count, discover_method_pointer_tables, MethodPointerTables,
};
use star_rail_metadata_reconstructor::discovery::{
    find_qword, sample_indices, select_table_offset, unique_best, unique_values,
};

fn code_image(len: usize) -> PeImage {
    PeImage {
        image_base: 0x1800_0000,
        sections: vec![PeSection {
            virtual_address: 0x1000,
            virtual_size: len as u32,
            raw_offset: 0,
            raw_size: len as u32,
            characteristics: 0x6000_0020,
        }],
    }
}

fn code_va(offset: usize) -> u64 {
    0x1800_1000 + offset as u64
}

#[test]
fn method_count_is_the_largest_plausible_method_end() {
    let mut body = vec![0u8; 140];
    body[8..12].copy_from_slice(&(5u32 ^ 0x1a7a_f5fe).to_le_bytes());
    body[52..54].copy_from_slice(&3u16.wrapping_sub(24_467).to_le_bytes());
    body[78..82].copy_from_slice(&(20_000_000u32 ^ 0x1a7a_f5fe).to_le_bytes());
    body[122..124].copy_from_slice(&9u16.wrapping_sub(24_467).to_le_bytes());
    assert_eq!(discover_method_count(&body, 0, 2), 8);
    assert_eq!(discover_method_count(&body, 0, 1), 8);
    assert_eq!(discover_method_count(&body, 70, 5), 0);
}

#[test]
fn method_pointer_tables_are_found_through_the_code_registration() {
    let mut values = [0u32; 150];
    values[42] = 0x2CE3_0270;
    values[17] = 533_897_168 + 6;
    let header = MhyHeader { values, file_offset: 0 };
    let mut body = vec![0u8; 6];
    body[4..6].copy_from_slice(&1u16.to_le_bytes());
    let mut dll = vec![0u8; 0x200];
    dll[0x40..0x48].copy_from_slice(&code_va(0x10).to_le_bytes());
    dll[0x48..0x50].copy_from_slice(&code_va(0x18).to_le_bytes());
    dll[0xd8..0xe0].copy_from_slice(&code_va(0x40).to_le_bytes());
    dll[0x108..0x110].copy_from_slice(&code_va(0x140).to_le_bytes());
    let pe = code_image(dll.len());
    assert_eq!(
        discover_method_pointer_tables(&body, &dll, &header, &pe),
        Some(MethodPointerTables { primary: 0x40, fallback: 0x140, registration: 0x80 })
    );
    let mut empty = header.clone();
    empty.values[17] = 533_897_168;
    assert_eq!(discover_method_pointer_tables(&body, &dll, &empty, &pe), None);
}

#[test]
fn qwords_are_found_at_every_offset() {
    let mut data = vec![0u8; 20];
    data[3..11].copy_from_slice(&0x0102_0304_0506_0708u64.to_le_bytes());
    data[12..20].copy_from_slice(&0x0102_0304_0506_0708u64.to_le_bytes());
    assert_eq!(find_qword(&data, 0x0102_0304_0506_0708), vec![3, 12]);
    assert!(find_qword(&data[..7], 0).is_empty());
}

#[test]
fn samples_spread_over_the_whole_table() {
    assert_eq!(sample_indices(3, 8), vec![0, 1, 2]);
    assert_eq!(sample_indices(10, 4), vec![0, 3, 6, 9]);
}

#[test]
fn candidate_values_are_sorted_and_unique() {
    assert_eq!(unique_values(&[5, 1, 5, 3, 1]), vec![1, 3, 5]);
    assert!(unique_values(&[]).is_empty());
}

#[test]
fn the_best_candidate_must_be_unique() {
    assert_eq!(unique_best(vec![(3usize, 10usize), (7, 20), (7, 20), (1, 30)]), Some((7, 20)));
    assert_eq!(unique_best(vec![(3usize, 10usize), (7, 20), (7, 21)]), None);
    assert_eq!(unique_best(Vec::<(usize, usize)>::new()), None);
}

#[test]
fn tables_are_placed_where_they_fit_and_score_best() {
    let candidates = [40u32, 8, 16, 100];
    let chosen = select_table_offset(&candidates, 64, 16, |base| if base == 8 { 5 } else { 2 });
    assert_eq!(chosen, Some(8));
    assert_eq!(select_table_offset(&candidates, 64, 16, |_| 0), None);
    assert_eq!(select_table_offset(&candidates, 64, 16, |_| 1), None);
}

use star_rail_metadata_reconstructor::discovery::layout::{MhyCandidates, MhyLayout};
use star_rail_metadata_reconstructor::discovery::{discover, discover_in_image, HeaderCandidate};
use star_rail_metadata_reconstructor::errors::ReconstructError;

fn empty_layout() -> MhyLayout {
    MhyLayout {
        string_table_offset: 0,
        image_offset: 0,
        image_count: 0,
        type_definition_offset: 0,
        method_table: 0,
        field_table: 0,
        parameter_table: 0,
        string_literal_offsets: 0,
        string_literal_data: 0,
        property_table: 0,
        event_table: 0,
        interface_table: 0,
        vtable_method_table: 0,
        interface_offset_table: 0,
        field_default_table: 0,
        field_default_count: 0,
        parameter_default_table: 0,
        parameter_default_count: 0,
        default_value_data: 0,
        field_type_map: 0,
        field_offset_map: 0,
        field_offset_table: 0,
        generic_class_source: 0,
        generic_class_count: 0,
        method_pointer_map: 0,
        method_pointer_map_count: 0,
        generic_parameter_table: 0,
        generic_container_table: 0,
        generic_constraint_table: 0,
    }
}

fn bare_header(file_offset: usize) -> HeaderCandidate {
    HeaderCandidate {
        mhy: MhyHeader { values: [0u32; 150], file_offset },
        layout: empty_layout(),
        candidates: MhyCandidates { additive: Vec::new(), xor: Vec::new(), shift_xor: Vec::new() },
    }
}

#[test]
fn discovery_needs_a_pe_image() {
    let r = discover(&[], &[0u8; 16], &[], &vec![bare_header(0)]);
    assert_eq!(r.err(), Some(ReconstructError::NotPeImage));
}

#[test]
fn discovery_needs_an_executable_section() {
    let mut pe = code_image(0x100);
    pe.sections[0].characteristics = 0x4000_0040;
    let r = discover_in_image(&[], &[0u8; 0x100], &[], &pe, &vec![bare_header(0)]);
    assert_eq!(r.err(), Some(ReconstructError::NoExecutableSections));
}

#[test]
fn discovery_without_headers_reports_the_signature() {
    let pe = code_image(0x100);
    let dll = vec![0u8; 0x100];
    let r = discover_in_image(&[], &dll, &[], &pe, &Vec::new());
    assert_eq!(r.err(), Some(ReconstructError::MhySignatureNotFound));
    let mut short = dll.clone();
    short[0xf0..0xf4].copy_from_slice(b"MHY\0");
    let r = discover_in_image(&[], &short, &[], &pe, &Vec::new());
    assert_eq!(r.err(), Some(ReconstructError::MhyHeaderTooSmall));
    let mut whole = vec![0u8; 0x400];
    whole[0x10..0x14].copy_from_slice(b"MHY\0");
    let r = discover_in_image(&[], &whole, &[], &code_image(0x400), &Vec::new());
    assert_eq!(r.err(), Some(ReconstructError::MhySignatureNotFound));
}

#[test]
fn headers_without_candidate_values_give_no_tables() {
    let pe = code_image(0x100);
    let r = discover_in_image(&[0u8; 64], &[0u8; 0x100], &[0u8; 64], &pe, &vec![bare_header(0), bare_header(8)]);
    assert_eq!(r.err(), Some(ReconstructError::NoValidHeader));
}

#[test]
fn a_split_operation_list_evaluates_in_two_steps() {
    let a = vec![TransformOp::Add(7), TransformOp::Xor(0xff)];
    let b = vec![TransformOp::ShiftRight(2), TransformOp::Sub(3)];
    let mut both = a.clone();
    both.extend(b.clone());
    let values = [0u32, 0x1234_5678];
    let whole = HeaderExpression { index: 1, operations: both }.evaluate(&values);
    let first = HeaderExpression { index: 1, operations: a }.evaluate(&values).unwrap();
    let second = HeaderExpression { index: 0, operations: b }.evaluate(&[first]);
    assert_eq!(whole, second);
    assert_eq!(whole, Some(((0x1234_5678u32 + 7) ^ 0xff) / 4 - 3));
    assert_eq!(HeaderExpression { index: 2, operations: Vec::new() }.evaluate(&values), None);
}

#[test]
fn parsing_reads_the_first_candidate_header() {
    let mut dll = vec![0u8; 0x800];
    dll[0x20..0x24].copy_from_slice(b"MHY\0");
    dll[0x24..0x28].copy_from_slice(&5u32.to_le_bytes());
    dll[0x300..0x304].copy_from_slice(b"MHY\0");
    let candidates = MhyHeader::candidates(&dll);
    assert_eq!(candidates.len(), 2);
    let parsed = MhyHeader::parse(&dll).unwrap();
    assert_eq!(parsed.file_offset, candidates[0].file_offset);
    assert_eq!(parsed.values, candidates[0].values);
    assert_eq!(parsed.values[1], 5);
    let mut tail = vec![0u8; 0x100];
    tail[0x80..0x84].copy_from_slice(b"MHY\0");
    assert!(MhyHeader::candidates(&tail).is_empty());
    assert!(MhyHeader::parse(&tail).is_err());
}

#[test]
fn file_offsets_map_to_addresses_and_back() {
    let pe = PeImage {
        image_base: 0x1_8000_0000,
        sections: vec![
            PeSection { virtual_address: 0x1000, virtual_size: 0x200, raw_offset: 0x400, raw_size: 0x200, characteristics: 0x6000_0020 },
            PeSection { virtual_address: 0x3000, virtual_size: 0x100, raw_offset: 0x600, raw_size: 0x100, characteristics: 0x4000_0040 },
        ],
    };
    for offset in [0x400usize, 0x5ff, 0x600, 0x680] {
        let va = pe.file_offset_to_va(offset).unwrap();
        assert_eq!(pe.va_to_file_offset(va), Some(offset));
    }
    assert_eq!(pe.file_offset_to_va(0x650), Some(0x1_8000_3050));
    assert_eq!(pe.file_offset_to_va(0x700), None);
}
