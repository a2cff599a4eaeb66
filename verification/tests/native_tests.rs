use star_rail_metadata_reconstructor::discovery::native::{
    extract_header_expressions, find_header_candidates, find_header_global, process_instruction,
    DecodedInstruction, HeaderExpression, SymbolicValue, TransformOp, MNEMONIC_ADD, MNEMONIC_MOV,
    OPERAND_IMMEDIATE_FIRST, OPERAND_MEMORY, OPERAND_REGISTER, REGISTER_NONE,
};
use star_rail_metadata_reconstructor::discovery::find_metadata_registration;
use star_rail_metadata_reconstructor::discovery::pe::{PeImage, PeSection};
use star_rail_metadata_reconstructor::errors::ReconstructError;
use std::collections::HashMap;

const IMAGE_BASE: u64 = 0x1800_0000;
const SECTION_RVA: u32 = 0x1000;
const HEADER: usize = 0x100;
const GLOBAL: u64 = 0x1800_5000;

fn image(len: usize) -> PeImage {
    PeImage {
        image_base: IMAGE_BASE,
        sections: vec![PeSection {
            virtual_address: SECTION_RVA,
            virtual_size: len as u32,
            raw_offset: 0,
            raw_size: len as u32,
            characteristics: 0x6000_0020,
        }],
    }
}

fn va(offset: usize) -> u64 {
    IMAGE_BASE + SECTION_RVA as u64 + offset as u64
}

/// Writes a seven-byte rip-relative instruction at `at` whose operand is `target`.
fn rip_relative(dll: &mut [u8], at: usize, prefix: [u8; 3], target: u64) {
    dll[at..at + 3].copy_from_slice(&prefix);
    let displacement = target.wrapping_sub(va(at + 7)) as i64 as i32;
    dll[at + 3..at + 7].copy_from_slice(&displacement.to_le_bytes());
}

/// A small image whose code stores the header's address in `GLOBAL`, loads it twice and
/// decodes header word 2 with eight arithmetic steps after the first load.
fn sample_dll() -> Vec<u8> {
    let mut dll = vec![0u8; 0x200];
    rip_relative(&mut dll, 0, [0x48, 0x8d, 0x05], va(HEADER));
    rip_relative(&mut dll, 7, [0x48, 0x89, 0x05], GLOBAL);
    dll[14] = 0xc3;
    rip_relative(&mut dll, 15, [0x48, 0x8b, 0x0d], GLOBAL);
    let steps: [u8; 27] = [
        0x8b, 0x41, 0x08, // mov eax, [rcx + 8]
        0x83, 0xc0, 0x01, // add eax, 1
        0x83, 0xf0, 0x02, // xor eax, 2
        0x83, 0xe8, 0x03, // sub eax, 3
        0xc1, 0xe8, 0x04, // shr eax, 4
        0xc1, 0xe0, 0x05, // shl eax, 5
        0xc1, 0xf8, 0x06, // sar eax, 6
        0x83, 0xc0, 0x07, // add eax, 7
        0x83, 0xf0, 0x08, // xor eax, 8
    ];
    dll[22..49].copy_from_slice(&steps);
    dll[49] = 0xc3;
    rip_relative(&mut dll, 50, [0x48, 0x8b, 0x15], GLOBAL);
    dll[57] = 0xc3;
    dll
}

fn expected_steps() -> Vec<TransformOp> {
    vec![
        TransformOp::Add(1),
        TransformOp::Xor(2),
        TransformOp::Sub(3),
        TransformOp::ShiftRight(4),
        TransformOp::ShiftLeft(5),
        TransformOp::ShiftRightArithmetic(6),
        TransformOp::Add(7),
        TransformOp::Xor(8),
    ]
}

#[test]
fn the_global_that_receives_the_header_address_is_found() {
    let dll = sample_dll();
    assert_eq!(find_header_global(&dll, &image(dll.len()), va(HEADER)), Ok(GLOBAL));
}

#[test]
fn no_store_of_the_header_address_is_an_error() {
    let dll = sample_dll();
    assert_eq!(
        find_header_global(&dll, &image(dll.len()), va(HEADER + 4)),
        Err(ReconstructError::HeaderPointerCount(0))
    );
}

#[test]
fn header_expressions_follow_each_arithmetic_step() {
    let dll = sample_dll();
    let expressions = extract_header_expressions(&dll, &image(dll.len()), HEADER).unwrap();
    let steps = expected_steps();
    assert_eq!(expressions.len(), 8);
    for (k, expression) in expressions.iter().enumerate() {
        assert_eq!(expression.index, 2);
        assert_eq!(expression.operations, steps[..k + 1].to_vec());
    }
    let values = [0u32, 0, 0x1234_5678];
    let last = expressions[7].evaluate(&values).unwrap();
    let expected = ((((((0x1234_5678u32 + 1) ^ 2) - 3) >> 4) << 5) as i32 >> 6) as u32;
    assert_eq!(last, (expected + 7) ^ 8);
}

#[test]
fn an_unmapped_header_is_an_error() {
    let dll = sample_dll();
    assert_eq!(
        extract_header_expressions(&dll, &image(dll.len()), 0x400),
        Err(ReconstructError::HeaderNotMapped)
    );
}

#[test]
fn header_candidates_need_two_loads_and_eight_expressions() {
    let dll = sample_dll();
    let candidates = find_header_candidates(&dll, &image(dll.len()));
    assert_eq!(candidates.len(), 1);
    assert_eq!(candidates[0].0, HEADER);
    assert_eq!(candidates[0].1.len(), 8);
    let mut single_load = dll.clone();
    single_load[50..58].fill(0);
    assert!(find_header_candidates(&single_load, &image(single_load.len())).is_empty());
}

fn instruction(mnemonic: u32, op0_kind: u32, op1_kind: u32) -> DecodedInstruction {
    DecodedInstruction {
        length: 3,
        next_ip: 0,
        mnemonic,
        op0_kind,
        op1_kind,
        op0_register: 53,
        op1_register: 0,
        op1_immediate: 0,
        memory_base: 54,
        memory_index: REGISTER_NONE,
        memory_displacement: 12,
        ip_relative: false,
        ip_rel_address: 0,
        flow_control: 0,
    }
}

#[test]
fn a_load_through_the_header_pointer_then_an_addition_records_an_expression() {
    let mut registers: HashMap<u32, SymbolicValue> = HashMap::new();
    registers.insert(54, SymbolicValue::HeaderPointer);
    let mut expressions: Vec<HeaderExpression> = Vec::new();
    let load = instruction(MNEMONIC_MOV, OPERAND_REGISTER, OPERAND_MEMORY);
    process_instruction(&load, GLOBAL, &mut registers, &mut expressions);
    assert!(expressions.is_empty());
    match registers.get(&53) {
        Some(SymbolicValue::Header(e)) => assert_eq!((e.index, e.operations.len()), (3, 0)),
        _ => panic!("the loaded register should hold header word 3"),
    }
    let mut add = instruction(MNEMONIC_ADD, OPERAND_REGISTER, OPERAND_IMMEDIATE_FIRST);
    add.op1_immediate = 9;
    process_instruction(&add, GLOBAL, &mut registers, &mut expressions);
    assert_eq!(expressions, vec![HeaderExpression { index: 3, operations: vec![TransformOp::Add(9)] }]);
    process_instruction(&add, GLOBAL, &mut registers, &mut expressions);
    assert_eq!(expressions.len(), 2);
    assert_eq!(expressions[1].operations, vec![TransformOp::Add(9), TransformOp::Add(9)]);
}

#[test]
fn the_metadata_registration_follows_the_code_registration() {
    let mut dll = vec![0u8; 0x200];
    let code_registration = va(0x1c0);
    rip_relative(&mut dll, 0, [0x48, 0x8d, 0x0d], code_registration);
    rip_relative(&mut dll, 7, [0x48, 0x8d, 0x15], va(0x100));
    dll[0x120..0x128].copy_from_slice(&va(0x180).to_le_bytes());
    dll[0x168..0x170].copy_from_slice(&va(0x190).to_le_bytes());
    let pe = image(dll.len());
    assert_eq!(find_metadata_registration(&dll, &pe, code_registration), Some(va(0x100)));
    assert_eq!(find_metadata_registration(&dll, &pe, code_registration + 8), None);
    dll[0x168..0x170].fill(0);
    assert_eq!(find_metadata_registration(&dll, &pe, code_registration), None);
}
