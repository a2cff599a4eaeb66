pub mod mhy;
pub mod native;
pub mod layout;
pub mod primary;
pub mod secondary;
pub mod runtime;
pub mod search;
pub mod pe;
pub mod profile;
pub mod tables;

pub use search::{discover, discover_in_image, HeaderCandidate};

use crate::bytes::{get_u64, in_bounds, le_i32, le_u16, le_u32, le_u64, read_i32_at, read_u32_at, read_u64_at as read_le_u64};
use native::{clipped_end, decode_instruction, decoded_instruction, ip_at, push_new_u64, MNEMONIC_LEA};
use crate::reconstruction::methods::{calc_term, method_term, parameter_term_spec};
use crate::reconstruction::types::{decode_interface_ranges, interface_range_at, byte_at, InterfaceRange};
use pe::PeImage;
use crate::reconstruction::images::{decrypt_images, decrypt_images_at, image_key, image_record_fits, image_run, is_image_record_at, ImageDef};
use crate::reconstruction::strings::{decimal_digits, decrypted_string, name_or};
use crate::reconstruction::strings::{str_ends_with, str_starts_with, StringDecryptor};
use vstd::prelude::*;

verus! {

/// The key of generic parameter record `p`.
pub open spec fn generic_parameter_term(p: u64) -> u64 {
    let term = ((0x617f_e3cc_452cu64.wrapping_mul(p).wrapping_add(0x09dc_5db7_1f0e_b440)
        >> 9u64).wrapping_add(718_849_585)) ^ 0x5278_374du64;
    1_252_900_171u64.wrapping_mul(term) >> 15u64
}

/// The key of generic parameter record `index`.
pub fn generic_parameter_key(index: usize) -> (r: u64)
    ensures
        r == generic_parameter_term(index as u64),
{
    let term = ((0x617f_e3cc_452cu64.wrapping_mul(index as u64).wrapping_add(0x09dc_5db7_1f0e_b440)
        >> 9).wrapping_add(718_849_585)) ^ 0x5278_374d;
    1_252_900_171u64.wrapping_mul(term) >> 15
}

/// The key term of parameter record `index`.
pub fn parameter_term(index: usize) -> (r: u32)
    ensures
        r == parameter_term_spec(index as u64),
{
    (#[verifier::truncate] (1_488_482_466u64.wrapping_mul(
        (0x072e_1d74_b12b_u64.wrapping_mul(index as u64).wrapping_add(0x0191_1d05_aff5)) >> 11,
    ) as u32)).wrapping_sub(2_083_554_492)
}


/// The end of the furthest nonempty range among the first `n` of `ranges`; 0 when there is
/// none.
pub open spec fn interface_end(ranges: Seq<InterfaceRange>, n: nat) -> nat
    decreases n,
{
    if n == 0 {
        0
    } else {
        let earlier = interface_end(ranges, (n - 1) as nat);
        let r = ranges[n - 1];
        if r.count != 0 && r.start + r.count > earlier {
            (r.start + r.count) as nat
        } else {
            earlier
        }
    }
}

/// The number of interfaces that the interface ranges of the `type_count` type records from
/// `type_offset` on cover: the end of the furthest nonempty range.
pub fn interface_range_upper_bound(body: &[u8], type_offset: usize, type_count: usize) -> (r: usize)
    ensures
        r == interface_end(
            Seq::new(
                type_count as nat,
                |i: int| interface_range_at(
                    body@,
                    type_offset + 70 * i,
                    match byte_at(body@, type_offset + 68) {
                        Some(b) => b,
                        None => 0,
                    },
                ),
            ),
            type_count as nat,
        ),
{
    let ranges = decode_interface_ranges(body, type_offset, type_count);
    assert(ranges@ =~= Seq::new(
        type_count as nat,
        |i: int| interface_range_at(
            body@,
            type_offset + 70 * i,
            match byte_at(body@, type_offset + 68) {
                Some(b) => b,
                None => 0,
            },
        ),
    ));
    assert forall|j: int| 0 <= j < ranges@.len() implies (#[trigger] ranges@[j]).start <= 0xffff
        && ranges@[j].count <= 0xff by {
        reveal(interface_range_at);
    }
    let mut maximum: usize = 0;
    let mut i: usize = 0;
    while i < ranges.len()
        invariant
            i <= ranges@.len(),
            maximum == interface_end(ranges@, i as nat),
            maximum <= 0x1_00FE,
            forall|j: int| 0 <= j < ranges@.len() ==> (#[trigger] ranges@[j]).start <= 0xffff && ranges@[j].count <= 0xff,
        decreases ranges.len() - i,
    {
        let range = &ranges[i];
        if range.count != 0 {
            let end = range.start + range.count;
            if end > maximum {
                maximum = end;
            }
        }
        i = i + 1;
    }
    maximum
}

/// Whether the 16-byte runtime type record at `off` of `dll` is complete, has no reserved bits
/// and a known type kind.
pub open spec fn runtime_type_ok(dll: Seq<u8>, off: int) -> bool {
    let kind = (le_u32(dll, off + 8) >> 16u32) & 0xff;
    &&& in_bounds(dll, off, 16)
    &&& le_u32(dll, off + 12) == 0
    &&& ((0x01 <= kind <= 0x16) || kind == 0x18 || kind == 0x19 || (0x1b <= kind <= 0x21)
        || kind == 0x40 || kind == 0x41 || kind == 0x45 || kind == 0x55)
}

/// The number of runtime type records from `offset` on before the first one that is not
/// sound.
pub open spec fn runtime_type_count(dll: Seq<u8>, offset: int) -> int {
    choose|n: int| #[trigger] type_run_ends_at(dll, offset, n)
}

/// Whether the run of sound runtime type records from `offset` on has exactly `n` records.
pub open spec fn type_run_ends_at(dll: Seq<u8>, offset: int, n: int) -> bool {
    0 <= n && (forall|k: int| 0 <= k < n ==> #[trigger] runtime_type_ok(dll, offset + 16 * k))
        && !runtime_type_ok(dll, offset + 16 * n)
}

/// The number of runtime type records from `offset` on before the first one that is not
/// sound.
pub fn discover_types_count(dll: &[u8], offset: usize) -> (r: usize)
    ensures
        forall|k: int| 0 <= k < r ==> #[trigger] runtime_type_ok(dll@, offset + 16 * k),
        !runtime_type_ok(dll@, offset + 16 * r),
        r == runtime_type_count(dll@, offset as int),
{
    let mut count: usize = 0;
    loop
        invariant
            forall|k: int| 0 <= k < count ==> #[trigger] runtime_type_ok(dll@, offset + 16 * k),
            count > 0 ==> offset + 16 * count <= dll@.len(),
        ensures
            forall|k: int| 0 <= k < count ==> #[trigger] runtime_type_ok(dll@, offset + 16 * k),
            !runtime_type_ok(dll@, offset + 16 * count),
        decreases dll@.len() + 16 - count * 16,
    {
        assert(dll@.len() == dll.len());
        if offset > dll.len() || count > (dll.len() - offset) / 16 || (dll.len() - offset) - count * 16 < 16 {
            break;
        }
        let start = offset + count * 16;
        let bits = read_u32_at(dll, start + 8);
        let kind = (bits >> 16) & 0xff;
        let reserved = read_u32_at(dll, start + 12);
        assert(start == offset + 16 * count);
        let known = (0x01 <= kind && kind <= 0x16) || kind == 0x18 || kind == 0x19 || (0x1b <= kind
            && kind <= 0x21) || kind == 0x40 || kind == 0x41 || kind == 0x45 || kind == 0x55;
        if reserved != 0 || !known {
            break;
        }
        count = count + 1;
    }
    proof {
        lemma_runtime_type_count(dll@, offset as int, count as int);
    }
    count
}

proof fn lemma_runtime_type_count(dll: Seq<u8>, offset: int, n: int)
    requires
        0 <= n,
        forall|k: int| 0 <= k < n ==> #[trigger] runtime_type_ok(dll, offset + 16 * k),
        !runtime_type_ok(dll, offset + 16 * n),
    ensures
        runtime_type_count(dll, offset) == n,
{
    assert(type_run_ends_at(dll, offset, n));
    let m = runtime_type_count(dll, offset);
    assert(type_run_ends_at(dll, offset, m));
    if m < n {
        assert(runtime_type_ok(dll, offset + 16 * m));
    } else if m > n {
        assert(runtime_type_ok(dll, offset + 16 * n));
    }
}

/// Whether `address` lies in an executable section of `pe`.
pub open spec fn executable_va(pe: PeImage, address: u64) -> bool {
    exists|i: int| pe.executable_section_holds(i, address)
}

/// The 64-bit value at `offset` when `data` holds eight bytes there.
pub fn read_u64_at(data: &[u8], offset: usize) -> (r: Option<u64>)
    ensures
        r == (if in_bounds(data@, offset as int, 8) {
            Some(le_u64(data@, offset as int))
        } else {
            None
        }),
{
    get_u64(data, offset)
}

/// The offsets below `n` at which the eight bytes of `value`, least significant first, stand
/// in `data`, in increasing order.
pub open spec fn qword_hits(data: Seq<u8>, value: u64, n: nat) -> Seq<usize>
    decreases n,
{
    if n == 0 {
        Seq::empty()
    } else {
        let hits = qword_hits(data, value, (n - 1) as nat);
        if in_bounds(data, n - 1, 8) && le_u64(data, n - 1) == value {
            hits.push((n - 1) as usize)
        } else {
            hits
        }
    }
}

/// The offsets at which the eight bytes of `value`, least significant first, stand in `data`,
/// in increasing order.
pub fn find_qword(data: &[u8], value: u64) -> (r: Vec<usize>)
    ensures
        r@ == qword_hits(data@, value, data@.len()),
        forall|k: int| 0 <= k < r@.len() ==> in_bounds(data@, #[trigger] r@[k] as int, 8) && le_u64(data@, r@[k] as int) == value,
        forall|k: int, l: int| 0 <= k < l < r@.len() ==> r@[k] < r@[l],
        forall|i: int| in_bounds(data@, i, 8) && le_u64(data@, i) == value ==> exists|k: int| 0 <= k < r@.len() && r@[k] == i,
{
    let mut found: Vec<usize> = Vec::new();
    if data.len() < 8 {
        proof {
            lemma_qword_hits_tail(data@, value, 0, data@.len());
        }
        return found;
    }
    let last = data.len() - 8;
    let mut offset: usize = 0;
    while offset <= last
        invariant
            found@ == qword_hits(data@, value, offset as nat),
            last + 8 == data@.len(),
            data@.len() == data.len(),
            offset <= last + 1,
            forall|k: int| 0 <= k < found@.len() ==> in_bounds(data@, #[trigger] found@[k] as int, 8) && le_u64(data@, found@[k] as int) == value && found@[k] < offset,
            forall|k: int, l: int| 0 <= k < l < found@.len() ==> found@[k] < found@[l],
            forall|i: int| 0 <= i < offset && le_u64(data@, i) == value ==> exists|k: int| 0 <= k < found@.len() && found@[k] == i,
        decreases last + 1 - offset,
    {
        let ghost before = found@;
        let hit = read_le_u64(data, offset) == value;
        if hit {
            found.push(offset);
        }
        assert forall|i: int| 0 <= i < offset + 1 && le_u64(data@, i) == value implies exists|k: int|
            0 <= k < found@.len() && found@[k] == i by {
            if i < offset {
                let k = choose|k: int| 0 <= k < before.len() && before[k] == i;
                assert(found@[k] == i);
            } else {
                assert(found@[found@.len() - 1] == i);
            }
        }
        offset = offset + 1;
    }
    proof {
        lemma_qword_hits_tail(data@, value, offset as nat, data@.len());
    }
    found
}

proof fn lemma_qword_hits_tail(data: Seq<u8>, value: u64, n: nat, m: nat)
    requires
        n <= m,
        n + 8 > data.len(),
    ensures
        qword_hits(data, value, m) == qword_hits(data, value, n),
    decreases m - n,
{
    if n < m {
        lemma_qword_hits_tail(data, value, n, (m - 1) as nat);
    }
}

/// Whether the `count` 64-bit entries at `offset` of `data` all lie in it and are each zero
/// or an address in an executable section.
pub open spec fn pointer_table_ok(data: Seq<u8>, offset: int, count: int, pe: PeImage) -> bool {
    &&& offset + 8 * count <= data.len()
    &&& forall|k: int|
        0 <= k < count ==> {
            let value = #[trigger] le_u64(data, offset + 8 * k);
            value == 0 || executable_va(pe, value)
        }
}

/// Whether the `count` 64-bit entries at `offset` of `data` are each zero or an executable
/// address; false when they do not all lie in `data`.
pub fn validate_pointer_table(data: &[u8], offset: usize, count: usize, pe: &PeImage) -> (r: bool)
    ensures
        r == pointer_table_ok(data@, offset as int, count as int, *pe),
{
    assert(data@.len() == data.len());
    if offset > data.len() || count > (data.len() - offset) / 8 {
        return false;
    }
    let mut k: usize = 0;
    while k < count
        invariant
            k <= count,
            offset + 8 * count <= data@.len(),
            data@.len() == data.len(),
            forall|j: int|
                0 <= j < k ==> {
                    let value = #[trigger] le_u64(data@, offset + 8 * j);
                    value == 0 || executable_va(*pe, value)
                },
        decreases count - k,
    {
        let value = read_le_u64(data, offset + k * 8);
        assert(le_u64(data@, offset + 8 * k) == value);
        if !(value == 0 || pe.is_executable_va(value)) {
            return false;
        }
        k = k + 1;
    }
    true
}

/// Whether a generic-instance record (argument count, argument table) at `offset` of `dll`
/// is complete, has at most 1024 arguments and, when it has any, a mapped argument table.
pub open spec fn generic_inst_record_ok(dll: Seq<u8>, pe: PeImage, offset: int) -> bool {
    let count = le_u64(dll, offset);
    &&& in_bounds(dll, offset, 16)
    &&& count <= 1024
    &&& (count == 0 || pe.file_offset_of(le_u64(dll, offset + 8)) is Some)
}

/// Whether the generic-instance record at `offset` of `dll` is sound.
pub fn valid_generic_inst_record(dll: &[u8], pe: &PeImage, offset: usize) -> (r: bool)
    ensures
        r == generic_inst_record_ok(dll@, *pe, offset as int),
{
    assert(dll@.len() == dll.len());
    if offset > dll.len() || dll.len() - offset < 16 {
        return false;
    }
    let count = read_le_u64(dll, offset);
    let arguments = read_le_u64(dll, offset + 8);
    count <= 1024 && (count == 0 || pe.va_to_file_offset(arguments).is_some())
}

/// Whether the generic-instance table at `table_va` holds its records inline (`Some(true)`)
/// or through a first pointer (`Some(false)`); `None` when neither reads as a sound record.
/// Whether the generic-instance table at `table_va` holds its records inline (`true`) or
/// through pointers (`false`): the record at the table, or else the one its first entry
/// points to, must be sound.
pub open spec fn generic_inst_layout_spec(dll: Seq<u8>, pe: PeImage, table_va: u64) -> Option<bool> {
    match pe.file_offset_of(table_va) {
        None => None,
        Some(table) => if generic_inst_record_ok(dll, pe, table as int) {
            Some(true)
        } else if !in_bounds(dll, table as int, 8) {
            None
        } else {
            match pe.file_offset_of(le_u64(dll, table as int)) {
                Some(first) => if generic_inst_record_ok(dll, pe, first as int) {
                    Some(false)
                } else {
                    None
                },
                None => None,
            }
        },
    }
}

/// Whether the type table at `table_va` holds its records inline (`true`) or through
/// pointers (`false`).
pub open spec fn type_layout_spec(dll: Seq<u8>, pe: PeImage, table_va: u64) -> Option<bool> {
    match pe.file_offset_of(table_va) {
        None => None,
        Some(table) => if type_record_ok(dll, table as int) {
            Some(true)
        } else if !in_bounds(dll, table as int, 8) {
            None
        } else {
            match pe.file_offset_of(le_u64(dll, table as int)) {
                Some(first) => if type_record_ok(dll, first as int) {
                    Some(false)
                } else {
                    None
                },
                None => None,
            }
        },
    }
}

pub fn discover_generic_inst_layout(dll: &[u8], pe: &PeImage, table_va: u64) -> (r: Option<bool>)
    ensures
        r == generic_inst_layout_spec(dll@, *pe, table_va),
        r == (match pe.file_offset_of(table_va) {
            None => None,
            Some(table) => if generic_inst_record_ok(dll@, *pe, table as int) {
                Some(true)
            } else if !in_bounds(dll@, table as int, 8) {
                None
            } else {
                match pe.file_offset_of(le_u64(dll@, table as int)) {
                    Some(first) => if generic_inst_record_ok(dll@, *pe, first as int) {
                        Some(false)
                    } else {
                        None
                    },
                    None => None,
                }
            },
        }),
{
    let table_offset = match pe.va_to_file_offset(table_va) {
        Some(o) => o,
        None => return None,
    };
    if valid_generic_inst_record(dll, pe, table_offset) {
        return Some(true);
    }
    let first_pointer = match read_u64_at(dll, table_offset) {
        Some(p) => p,
        None => return None,
    };
    let first_offset = match pe.va_to_file_offset(first_pointer) {
        Some(o) => o,
        None => return None,
    };
    if valid_generic_inst_record(dll, pe, first_offset) {
        Some(false)
    } else {
        None
    }
}

/// Whether a 16-byte runtime type record at `offset` of `dll` is complete and has a known
/// kind.
pub open spec fn type_record_ok(dll: Seq<u8>, offset: int) -> bool {
    let kind = (le_u32(dll, offset + 8) >> 16u32) as u8;
    &&& in_bounds(dll, offset, 16)
    &&& ((0x01 <= kind <= 0x21) || kind == 0x40 || kind == 0x41 || kind == 0x45 || kind == 0x55)
}

/// Whether the runtime type record at `offset` of `dll` is complete and has a known kind.
pub fn valid_type_record(dll: &[u8], offset: usize) -> (r: bool)
    ensures
        r == type_record_ok(dll@, offset as int),
{
    assert(dll@.len() == dll.len());
    if offset > dll.len() || dll.len() - offset < 16 {
        return false;
    }
    let kind = #[verifier::truncate] ((read_u32_at(dll, offset + 8) >> 16) as u8);
    (0x01 <= kind && kind <= 0x21) || kind == 0x40 || kind == 0x41 || kind == 0x45 || kind == 0x55
}

/// Whether the runtime type table at `table_va` holds its records inline (`Some(true)`) or
/// through a first pointer (`Some(false)`); `None` when neither reads as a sound record.
pub fn discover_type_layout(dll: &[u8], pe: &PeImage, table_va: u64) -> (r: Option<bool>)
    ensures
        r == type_layout_spec(dll@, *pe, table_va),
        r == (match pe.file_offset_of(table_va) {
            None => None,
            Some(table) => if type_record_ok(dll@, table as int) {
                Some(true)
            } else if !in_bounds(dll@, table as int, 8) {
                None
            } else {
                match pe.file_offset_of(le_u64(dll@, table as int)) {
                    Some(first) => if type_record_ok(dll@, first as int) {
                        Some(false)
                    } else {
                        None
                    },
                    None => None,
                }
            },
        }),
{
    let table_offset = match pe.va_to_file_offset(table_va) {
        Some(o) => o,
        None => return None,
    };
    if valid_type_record(dll, table_offset) {
        return Some(true);
    }
    let first_pointer = match read_u64_at(dll, table_offset) {
        Some(p) => p,
        None => return None,
    };
    let first_offset = match pe.va_to_file_offset(first_pointer) {
        Some(o) => o,
        None => return None,
    };
    if valid_type_record(dll, first_offset) {
        Some(false)
    } else {
        None
    }
}

/// Whether `address` is mapped and the generic-instance and type table pointers of the
/// metadata registration there (at +0x20 and +0x68) are mapped too.
pub open spec fn metadata_registration_ok(dll: Seq<u8>, pe: PeImage, address: u64) -> bool {
    match pe.file_offset_of(address) {
        None => false,
        Some(offset) => {
            &&& offset + 0x20 <= usize::MAX
            &&& offset + 0x68 <= usize::MAX
            &&& in_bounds(dll, offset + 0x20, 8)
            &&& in_bounds(dll, offset + 0x68, 8)
            &&& pe.file_offset_of(le_u64(dll, offset + 0x20)) is Some
            &&& pe.file_offset_of(le_u64(dll, offset + 0x68)) is Some
        },
    }
}

/// Whether `address` looks like a metadata registration: see `metadata_registration_ok`.
pub fn validate_metadata_registration(dll: &[u8], pe: &PeImage, address: u64) -> (r: bool)
    ensures
        r == metadata_registration_ok(dll@, *pe, address),
{
    let offset = match pe.va_to_file_offset(address) {
        Some(o) => o,
        None => return false,
    };
    let generic_insts = match offset.checked_add(0x20) {
        Some(at) => match read_u64_at(dll, at) {
            Some(v) => v,
            None => return false,
        },
        None => return false,
    };
    let types = match offset.checked_add(0x68) {
        Some(at) => match read_u64_at(dll, at) {
            Some(v) => v,
            None => return false,
        },
        None => return false,
    };
    pe.va_to_file_offset(generic_insts).is_some() && pe.va_to_file_offset(types).is_some()
}

/// Whether the seven bytes of `dll` at `p` look like `lea reg, [rip + disp32]`.
pub open spec fn lea_rip_pattern(dll: Seq<u8>, p: int) -> bool {
    dll[p] & 0xf0 == 0x40 && dll[p + 1] == 0x8d && dll[p + 2] & 0xc7 == 0x05
}

/// The address that the first rip-relative `lea` among the `remaining` instructions from
/// `pos` on loads, in the window `dll[start..end]` whose first byte stands at `ip`; `None`
/// when none of them is one.
pub open spec fn probe_lea(dll: Seq<u8>, start: int, end: int, ip: u64, pos: int, remaining: nat) -> Option<u64>
    decreases remaining,
{
    if remaining == 0 || !native::in_run(dll, start, end, pos) {
        None
    } else {
        let insn = decoded_instruction(dll, pos as usize, end as usize, ip_at(ip, start, pos));
        if insn.mnemonic == MNEMONIC_LEA && insn.ip_relative {
            Some(insn.ip_rel_address)
        } else {
            probe_lea(dll, start, end, ip, pos + insn.length, (remaining - 1) as nat)
        }
    }
}

/// The metadata registration that the `lea` at `dll[start + index..]` leads to: the first of
/// the four instructions after it that is a rip-relative `lea`, if it passes
/// `metadata_registration_ok`.
pub open spec fn registration_after(dll: Seq<u8>, pe: PeImage, start: int, end: int, va: u64, index: int) -> Option<u64> {
    let window_end = if end - start < index + 64 {
        end
    } else {
        start + index + 64
    };
    let ip = (va + index) as u64;
    let first = decoded_instruction(dll, (start + index) as usize, window_end as usize, ip);
    match probe_lea(dll, start + index, window_end, ip, start + index + first.length, 4) {
        Some(c) => if metadata_registration_ok(dll, pe, c) {
            Some(c)
        } else {
            None
        },
        None => None,
    }
}

/// The metadata registrations found in `dll[start..end]` (first byte at `va`) from `index`
/// on, added to `found`: after each `lea` of the code registration `code_va`. `None` when an
/// address there overflows.
pub open spec fn registrations_from(
    dll: Seq<u8>,
    pe: PeImage,
    start: int,
    end: int,
    va: u64,
    code_va: u64,
    index: int,
    found: Set<u64>,
) -> Option<Set<u64>>
    decreases end - start - index,
{
    if index < 0 || start + index + 7 > end {
        Some(found)
    } else if !lea_rip_pattern(dll, start + index) {
        registrations_from(dll, pe, start, end, va, code_va, index + 1, found)
    } else if va + index + 7 > u64::MAX {
        None
    } else {
        let next_ip = (va + index + 7) as u64;
        if next_ip.wrapping_add(le_i32(dll, start + index + 3) as i64 as u64) != code_va {
            registrations_from(dll, pe, start, end, va, code_va, index + 1, found)
        } else {
            let f = match registration_after(dll, pe, start, end, va, index) {
                Some(c) => found.insert(c),
                None => found,
            };
            registrations_from(dll, pe, start, end, va, code_va, index + 1, f)
        }
    }
}

/// The metadata registrations found in the first `n` executable ranges; `None` when a range
/// starts past the end of the file or an address overflows.
pub open spec fn registrations(dll: Seq<u8>, pe: PeImage, ranges: Seq<(usize, usize, u64)>, n: nat, code_va: u64) -> Option<Set<u64>>
    decreases n,
{
    if n == 0 || n > ranges.len() {
        Some(Set::empty())
    } else {
        match registrations(dll, pe, ranges, (n - 1) as nat, code_va) {
            None => None,
            Some(found) => {
                let range = ranges[n - 1];
                let end = clipped_end(range, dll.len() as int);
                if range.0 > end {
                    None
                } else {
                    registrations_from(dll, pe, range.0 as int, end, range.2, code_va, 0, found)
                }
            },
        }
    }
}

fn probe_registration(dll: &[u8], pe: &PeImage, start: usize, end: usize, va: u64, index: usize) -> (r: Option<u64>)
    requires
        start + index + 7 <= end <= dll@.len(),
        va + index + 7 <= u64::MAX,
    ensures
        r == registration_after(dll@, *pe, start as int, end as int, va, index as int),
{
    let window_end = if end - start - index < 64 { end } else { start + index + 64 };
    let ip = va + index as u64;
    let first = decode_instruction(dll, start + index, window_end, ip);
    let mut pos = start + index + first.length;
    let mut remaining: usize = 4;
    let ghost s0 = (start + index) as int;
    while remaining > 0
        invariant
            remaining <= 4,
            s0 <= pos <= window_end <= dll@.len(),
            s0 == start + index,
            ip as int == va + index,
            registration_after(dll@, *pe, start as int, end as int, va, index as int) == match probe_lea(
                dll@,
                s0,
                window_end as int,
                ip,
                pos as int,
                remaining as nat,
            ) {
                Some(c) => if metadata_registration_ok(dll@, *pe, c) {
                    Some(c)
                } else {
                    None
                },
                None => None,
            },
        decreases remaining,
    {
        if pos >= window_end {
            return None;
        }
        let insn = decode_instruction(dll, pos, window_end, ip.wrapping_add((pos - (start + index)) as u64));
        if insn.mnemonic == MNEMONIC_LEA && insn.ip_relative {
            let candidate = insn.ip_rel_address;
            if validate_metadata_registration(dll, pe, candidate) {
                return Some(candidate);
            }
            return None;
        }
        pos = pos + insn.length;
        remaining = remaining - 1;
    }
    None
}

fn registrations_range(dll: &[u8], pe: &PeImage, start: usize, end: usize, va: u64, code_va: u64, found: &mut Vec<u64>) -> (ok: bool)
    requires
        start <= end <= dll@.len(),
        old(found)@.no_duplicates(),
    ensures
        final(found)@.no_duplicates(),
        ok ==> registrations_from(dll@, *pe, start as int, end as int, va, code_va, 0, old(found)@.to_set()) == Some(final(found)@.to_set()),
        !ok ==> registrations_from(dll@, *pe, start as int, end as int, va, code_va, 0, old(found)@.to_set()) is None,
{
    let ghost target = registrations_from(dll@, *pe, start as int, end as int, va, code_va, 0, found@.to_set());
    let len = end - start;
    if len < 7 {
        return true;
    }
    let mut index: usize = 0;
    while index <= len - 7
        invariant
            start + len == end <= dll@.len(),
            len >= 7,
            found@.no_duplicates(),
            target == registrations_from(dll@, *pe, start as int, end as int, va, code_va, 0, old(found)@.to_set()),
            target == registrations_from(dll@, *pe, start as int, end as int, va, code_va, index as int, found@.to_set()),
        decreases len - index,
    {
        let p = start + index;
        if dll[p] & 0xf0 == 0x40 && dll[p + 1] == 0x8d && dll[p + 2] & 0xc7 == 0x05 {
            if va > u64::MAX - 7 || index as u64 > u64::MAX - 7 - va {
                assert(lea_rip_pattern(dll@, p as int));
                return false;
            }
            let next_ip = va + index as u64 + 7;
            let displacement = read_i32_at(dll, p + 3);
            if next_ip.wrapping_add(#[verifier::truncate] (displacement as i64 as u64)) == code_va {
                match probe_registration(dll, pe, start, end, va, index) {
                    Some(c) => push_new_u64(found, c),
                    None => {},
                }
            }
        }
        index = index + 1;
    }
    true
}

/// The one metadata registration that the code loads right after loading the code
/// registration at `code_registration_va`; `None` when there is none, more than one, a
/// range starts past the end of the file, or an address overflows.
pub fn find_metadata_registration(dll: &[u8], pe: &PeImage, code_registration_va: u64) -> (r: Option<u64>)
    ensures
        r == metadata_registration_spec(dll@, *pe, code_registration_va),
        ({
            let ranges = pe.executable_ranges_spec();
            match registrations(dll@, *pe, ranges, ranges.len(), code_registration_va) {
                None => r is None,
                Some(found) => match r {
                    Some(m) => found == set![m],
                    None => found.len() != 1 && found.finite(),
                },
            }
        }),
{
    let ranges = pe.executable_mapped_ranges();
    let mut found: Vec<u64> = Vec::new();
    let mut k: usize = 0;
    while k < ranges.len()
        invariant
            k <= ranges@.len(),
            ranges@ == pe.executable_ranges_spec(),
            found@.no_duplicates(),
            registrations(dll@, *pe, ranges@, k as nat, code_registration_va) == Some(found@.to_set()),
        decreases ranges.len() - k,
    {
        let (start, section_end, va) = ranges[k];
        let end = if section_end < dll.len() { section_end } else { dll.len() };
        if start > end {
            proof {
                assert(registrations(dll@, *pe, ranges@, (k + 1) as nat, code_registration_va) is None);
                lemma_registrations_stay_none(dll@, *pe, ranges@, (k + 1) as nat, ranges@.len(), code_registration_va);
            }
            return None;
        }
        if !registrations_range(dll, pe, start, end, va, code_registration_va, &mut found) {
            proof {
                lemma_registrations_stay_none(dll@, *pe, ranges@, (k + 1) as nat, ranges@.len(), code_registration_va);
            }
            return None;
        }
        k = k + 1;
    }
    proof {
        found@.unique_seq_to_set();
    }
    if found.len() != 1 {
        return None;
    }
    assert(found@.to_set() =~= set![found@[0]]);
    assert(set![found@[0]].choose() == found@[0]) by {
        assert(set![found@[0]].contains(set![found@[0]].choose()));
    }
    Some(found[0])
}

/// The metadata registration found after the code registration at `code_va`, when the
/// search completes and finds exactly one.
pub open spec fn metadata_registration_spec(dll: Seq<u8>, pe: PeImage, code_va: u64) -> Option<u64> {
    let ranges = pe.executable_ranges_spec();
    match registrations(dll, pe, ranges, ranges.len(), code_va) {
        None => None,
        Some(found) => if found.len() == 1 {
            Some(found.choose())
        } else {
            None
        },
    }
}

proof fn lemma_registrations_stay_none(dll: Seq<u8>, pe: PeImage, ranges: Seq<(usize, usize, u64)>, n: nat, m: nat, code_va: u64)
    requires
        n <= m <= ranges.len(),
        registrations(dll, pe, ranges, n, code_va) is None,
    ensures
        registrations(dll, pe, ranges, m, code_va) is None,
    decreases m - n,
{
    if n < m {
        lemma_registrations_stay_none(dll, pe, ranges, n, (m - 1) as nat, code_va);
    }
}

/// The number of fields that the first `n` type records at `base` declare.
pub open spec fn declared_fields(body: Seq<u8>, base: int, n: nat) -> int
    decreases n,
{
    if n == 0 {
        0
    } else {
        declared_fields(body, base, (n - 1) as nat) + le_u16(body, base + 70 * (n - 1) + 50).wrapping_add(17_485)
    }
}

/// The number of fields that the `count` type records at `base` declare; `None` when a record
/// does not lie in `body`.
pub fn discover_field_count(body: &[u8], base: usize, count: usize) -> (r: Option<usize>)
    ensures
        r is Some <==> (forall|i: int| 0 <= i < count ==> #[trigger] in_bounds(body@, base + 70 * i, 70))
            && declared_fields(body@, base as int, count as nat) <= usize::MAX,
        r matches Some(total) ==> total == declared_fields(body@, base as int, count as nat),
{
    assert(body@.len() == body.len());
    let mut total: u128 = 0;
    let mut index: usize = 0;
    while index < count
        invariant
            index <= count,
            body@.len() == body.len(),
            forall|i: int| 0 <= i < index ==> #[trigger] in_bounds(body@, base + 70 * i, 70),
            total == declared_fields(body@, base as int, index as nat),
            total <= index * 0xFFFF,
            index > 0 ==> base + 70 * index <= body@.len(),
        decreases count - index,
    {
        if base > body.len() || index > (body.len() - base) / 70 || (body.len() - base) - index * 70 < 70 {
            assert(!in_bounds(body@, base + 70 * index, 70));
            return None;
        }
        let offset = base + index * 70;
        let fields = crate::bytes::read_u16_at(body, offset + 50).wrapping_add(17_485);
        total = total + fields as u128;
        index = index + 1;
    }
    if total > usize::MAX as u128 {
        return None;
    }
    Some(total as usize)
}

/// The end of the furthest parameter range of the first `n` method records at `base`; records
/// with no parameters or no start are skipped.
pub open spec fn declared_parameters(body: Seq<u8>, base: int, n: nat) -> int
    decreases n,
{
    if n == 0 {
        0
    } else {
        let earlier = declared_parameters(body, base, (n - 1) as nat);
        let record = base + 26 * (n - 1);
        let term = method_term((n - 1) as u128);
        let count = body[record + 24] ^ (term as u8) ^ 0xa8;
        let start = le_u32(body, record + 4) ^ term ^ 0x0098_89b8;
        if count == 0 || start == u32::MAX || start + count <= earlier {
            earlier
        } else {
            start + count
        }
    }
}

/// The number of parameters that the `method_count` method records at `base` declare; `None`
/// when a record does not lie in `body`.
pub fn discover_parameter_count(body: &[u8], base: usize, method_count: usize) -> (r: Option<usize>)
    ensures
        r is Some <==> (forall|i: int| 0 <= i < method_count ==> #[trigger] in_bounds(body@, base + 26 * i, 26))
            && declared_parameters(body@, base as int, method_count as nat) <= usize::MAX,
        r matches Some(total) ==> total == declared_parameters(body@, base as int, method_count as nat),
{
    assert(body@.len() == body.len());
    let mut maximum: u64 = 0;
    let mut index: usize = 0;
    while index < method_count
        invariant
            index <= method_count,
            body@.len() == body.len(),
            forall|i: int| 0 <= i < index ==> #[trigger] in_bounds(body@, base + 26 * i, 26),
            maximum == declared_parameters(body@, base as int, index as nat),
            maximum <= 0x1_0000_00FF,
        decreases method_count - index,
    {
        if base > body.len() || index > (body.len() - base) / 26 || (body.len() - base) - index * 26 < 26 {
            assert(!in_bounds(body@, base + 26 * index, 26));
            return None;
        }
        let offset = base + index * 26;
        let term = calc_term(index);
        let count = body[offset + 24] ^ (#[verifier::truncate] (term as u8)) ^ 0xa8;
        let start = read_u32_at(body, offset + 4) ^ term ^ 0x0098_89b8;
        if !(count == 0 || start == u32::MAX) {
            let end = start as u64 + count as u64;
            if end > maximum {
                maximum = end;
            }
        }
        index = index + 1;
    }
    if maximum > usize::MAX as u64 {
        return None;
    }
    Some(maximum as usize)
}

/// A method index decoded with the low 16 bits of `key`: the all-ones value stands for
/// "none" (-1).
pub fn decode_member_accessor(value: u16, key: u64) -> (r: i32)
    ensures
        r == crate::reconstruction::members::accessor_spec(value, key as u16),
{
    crate::reconstruction::members::decode_accessor(value, #[verifier::truncate] (key as u16))
}


/// What automatic discovery found, for a report.
pub struct DiscoveryEvidence {
    pub mhy_file_offset: usize,
    pub metadata_prefix_size: usize,
    pub image_count: usize,
    pub interface_range_upper_bound: usize,
    pub executable_va_minimum: u64,
    pub executable_va_maximum: u64,
    pub code_registration_file_offset: Option<usize>,
    pub runtime: Option<RuntimeProfile>,
    pub discovered_fields: Vec<String>,
}

/// A discovered build profile, the evidence for it, and the header it was read with.
pub struct DiscoveredProfile {
    pub profile: profile::BuildProfile,
    pub evidence: DiscoveryEvidence,
    pub mhy: mhy::MhyHeader,
    pub layout: layout::MhyLayout,
}

/// Where the IL2CPP runtime keeps its registrations and tables in one build.
#[derive(Clone, Copy, Debug)]
pub struct RuntimeProfile {
    pub code_registration_va: u64,
    pub metadata_registration_va: u64,
    pub method_pointers_va: u64,
    pub method_pointers_count: usize,
    pub types_va: u64,
    pub types_count: usize,
    pub generic_insts_va: u64,
    pub generic_insts_count: usize,
    pub generic_insts_are_inline: bool,
    pub types_are_inline: bool,
    pub generic_class_source_offset: usize,
    pub generic_class_count: usize,
}

/// The index of sample `index` when `maximum` of `count` records are sampled evenly.
pub open spec fn sample_index(count: nat, maximum: nat, index: int) -> int {
    vstd::math::min(index * (count - 1), usize::MAX as int) / (maximum - 1)
}

/// The records to look at in a table of `count`: all of them, or `maximum` of them spread
/// evenly from the first to the last.
pub open spec fn samples(count: nat, maximum: nat) -> Seq<usize> {
    if count <= maximum {
        Seq::new(count, |i: int| i as usize)
    } else {
        Seq::new(maximum, |i: int| sample_index(count, maximum, i) as usize)
    }
}

/// The records to look at in a table of `count`: all of them, or `maximum` of them spread
/// evenly from the first to the last.
pub fn sample_indices(count: usize, maximum: usize) -> (r: Vec<usize>)
    requires
        count <= maximum || maximum != 1,
    ensures
        r@ == samples(count as nat, maximum as nat),
        count <= maximum ==> r@ == Seq::new(count as nat, |i: int| i as usize),
        count > maximum ==> r@ == Seq::new(maximum as nat, |i: int| sample_index(count as nat, maximum as nat, i) as usize),
{
    let mut result: Vec<usize> = Vec::new();
    if count <= maximum {
        let mut i: usize = 0;
        while i < count
            invariant
                i <= count,
                result@ == Seq::new(i as nat, |j: int| j as usize),
            decreases count - i,
        {
            result.push(i);
            i = i + 1;
            assert(result@ =~= Seq::new(i as nat, |j: int| j as usize));
        }
        return result;
    }
    let mut index: usize = 0;
    while index < maximum
        invariant
            index <= maximum,
            count > maximum,
            maximum != 1,
            result@ == Seq::new(index as nat, |j: int| sample_index(count as nat, maximum as nat, j) as usize),
        decreases maximum - index,
    {
        let step = count - 1;
        let product = if index > usize::MAX / step {
            assert(index * step > usize::MAX) by (nonlinear_arith)
                requires
                    index > usize::MAX / step,
                    step > 0,
            ;
            usize::MAX
        } else {
            assert(index * step <= usize::MAX) by (nonlinear_arith)
                requires
                    index <= usize::MAX / step,
                    step > 0,
            ;
            index * step
        };
        let value = product / (maximum - 1);
        assert(value == sample_index(count as nat, maximum as nat, index as int));
        result.push(value);
        index = index + 1;
        assert(result@ =~= Seq::new(index as nat, |j: int| sample_index(count as nat, maximum as nat, j) as usize));
    }
    result
}


/// Whether `s` is strictly increasing.
pub open spec fn strictly_increasing(s: Seq<u32>) -> bool {
    forall|i: int, j: int| 0 <= i < j < s.len() ==> s[i] < s[j]
}

/// The distinct values of `values`, in increasing order.
pub open spec fn sorted_distinct(values: Seq<u32>) -> Seq<u32> {
    choose|r: Seq<u32>| strictly_increasing(r) && (forall|x: u32| #[trigger] r.contains(x) <==> values.contains(x))
}

/// Two strictly increasing sequences with the same elements are equal.
pub proof fn lemma_increasing_unique(a: Seq<u32>, b: Seq<u32>)
    requires
        strictly_increasing(a),
        strictly_increasing(b),
        forall|x: u32| #[trigger] a.contains(x) <==> b.contains(x),
    ensures
        a == b,
    decreases a.len(),
{
    if a.len() == 0 {
        if b.len() > 0 {
            assert(b.contains(b[0]));
            assert(a.contains(b[0]));
        }
        assert(a =~= b);
    } else {
        assert(a.contains(a[0]));
        assert(b.contains(a[0]));
        assert(b.len() > 0);
        assert(b.contains(b[0]));
        assert(a.contains(b[0]));
        assert(a[0] == b[0]) by {
            let k = choose|k: int| 0 <= k < b.len() && b[k] == a[0];
            let j = choose|j: int| 0 <= j < a.len() && a[j] == b[0];
            if k > 0 {
                assert(b[0] < b[k]);
            }
            if j > 0 {
                assert(a[0] < a[j]);
            }
        }
        let a1 = a.drop_first();
        let b1 = b.drop_first();
        assert forall|x: u32| #[trigger] a1.contains(x) <==> b1.contains(x) by {
            if a1.contains(x) {
                let j = choose|j: int| 0 <= j < a1.len() && a1[j] == x;
                assert(a[j + 1] == x && a[0] < a[j + 1]);
                assert(a.contains(x));
                let k = choose|k: int| 0 <= k < b.len() && b[k] == x;
                assert(k != 0);
                assert(b1[k - 1] == x);
            }
            if b1.contains(x) {
                let j = choose|j: int| 0 <= j < b1.len() && b1[j] == x;
                assert(b[j + 1] == x && b[0] < b[j + 1]);
                assert(b.contains(x));
                assert(a.contains(x));
                let k = choose|k: int| 0 <= k < a.len() && a[k] == x;
                assert(a[k] == x);
                assert(x != a[0]);
                assert(k != 0);
                assert(a1[k - 1] == x);
            }
        }
        lemma_increasing_unique(a1, b1);
        assert(a =~= b) by {
            assert forall|i: int| 0 <= i < a.len() implies a[i] == b[i] by {
                if i > 0 {
                    assert(a1[i - 1] == b1[i - 1]);
                }
            }
        }
    }
}

/// The distinct values of `values`, in increasing order.
pub fn unique_values(values: &[u32]) -> (r: Vec<u32>)
    ensures
        r@ == sorted_distinct(values@),
        strictly_increasing(r@),
        forall|x: u32| r@.contains(x) <==> values@.contains(x),
{
    let mut result: Vec<u32> = Vec::new();
    let mut i: usize = 0;
    while i < values.len()
        invariant
            i <= values@.len(),
            strictly_increasing(result@),
            forall|x: u32| result@.contains(x) <==> values@.subrange(0, i as int).contains(x),
        decreases values.len() - i,
    {
        let v = values[i];
        let mut p: usize = 0;
        while p < result.len() && result[p] < v
            invariant
                p <= result@.len(),
                forall|j: int| 0 <= j < p ==> result@[j] < v,
            decreases result.len() - p,
        {
            p = p + 1;
        }
        let ghost before = result@;
        assert(forall|x: u32| before.contains(x) <==> values@.subrange(0, i as int).contains(x));
        if p < result.len() && result[p] == v {
        } else {
            result.insert(p, v);
            assert forall|a: int, b: int| 0 <= a < b < result@.len() implies result@[a] < result@[b] by {
                if b < p {
                } else if a < p && b == p {
                } else if a < p {
                    assert(result@[b] == before[b - 1]);
                } else if a == p {
                    assert(result@[b] == before[b - 1]);
                    assert(before[p as int] > v);
                } else {
                    assert(result@[a] == before[a - 1] && result@[b] == before[b - 1]);
                }
            }
        }
        assert forall|x: u32| result@.contains(x) <==> before.contains(x) || x == v by {
            if result@.contains(x) {
                let k = choose|k: int| 0 <= k < result@.len() && result@[k] == x;
                if result@.len() != before.len() {
                    if k < p {
                        assert(before[k] == x);
                    } else if k > p {
                        assert(before[k - 1] == x);
                    }
                } else {
                    assert(before[k] == x);
                }
            }
            if before.contains(x) {
                let k = choose|k: int| 0 <= k < before.len() && before[k] == x;
                if result@.len() != before.len() {
                    if k < p {
                        assert(result@[k] == x);
                    } else {
                        assert(result@[k + 1] == x);
                    }
                } else {
                    assert(result@[k] == x);
                }
            }
            if x == v {
                assert(result@[p as int] == v);
            }
        }
        assert forall|x: u32| values@.subrange(0, i + 1).contains(x) <==> values@.subrange(0, i as int).contains(x) || x == v by {
            let n = values@.subrange(0, i + 1);
            let o = values@.subrange(0, i as int);
            if n.contains(x) {
                let k = choose|k: int| 0 <= k < n.len() && n[k] == x;
                if k < i {
                    assert(o[k] == x);
                }
            }
            if o.contains(x) {
                let k = choose|k: int| 0 <= k < o.len() && o[k] == x;
                assert(n[k] == x);
            }
            if x == v {
                assert(n[i as int] == v);
            }
        }
        assert forall|x: u32| result@.contains(x) <==> values@.subrange(0, i + 1).contains(x) by {
            assert(result@.contains(x) <==> before.contains(x) || x == v);
            assert(before.contains(x) <==> values@.subrange(0, i as int).contains(x));
            assert(values@.subrange(0, i + 1).contains(x) <==> values@.subrange(0, i as int).contains(x) || x == v);
        }
        i = i + 1;
    }
    assert(values@.subrange(0, values@.len() as int) =~= values@);
    proof {
        let w = sorted_distinct(values@);
        assert(strictly_increasing(w) && (forall|x: u32| #[trigger] w.contains(x) <==> values@.contains(x)));
        lemma_increasing_unique(result@, w);
    }
    result
}

/// A value that candidate layouts can be compared by.
pub trait LayoutKey: Sized {
    /// Whether `self` and `other` are the same.
    fn same_as(&self, other: &Self) -> (r: bool)
        ensures
            r == (*self == *other),
    ;
}

impl LayoutKey for usize {
    fn same_as(&self, other: &Self) -> (r: bool) {
        *self == *other
    }
}

impl LayoutKey for (usize, usize) {
    fn same_as(&self, other: &Self) -> (r: bool) {
        self.0 == other.0 && self.1 == other.1
    }
}

impl LayoutKey for (usize, u32) {
    fn same_as(&self, other: &Self) -> (r: bool) {
        self.0 == other.0 && self.1 == other.1
    }
}

impl LayoutKey for (usize, usize, usize, usize) {
    fn same_as(&self, other: &Self) -> (r: bool) {
        self.0 == other.0 && self.1 == other.1 && self.2 == other.2 && self.3 == other.3
    }
}

/// The highest score among the first `n` of `values`; 0 when there is none.
pub open spec fn best_score<T>(values: Seq<(usize, T)>, n: nat) -> usize
    decreases n,
{
    if n == 0 {
        0
    } else {
        let earlier = best_score(values, (n - 1) as nat);
        if n == 1 || values[n - 1].0 > earlier {
            values[n - 1].0
        } else {
            earlier
        }
    }
}

/// The first of `values` whose score is `score`, or `values.len()` when there is none.
pub open spec fn first_with_score<T>(values: Seq<(usize, T)>, score: usize, n: nat) -> int
    decreases n,
{
    if n == 0 {
        values.len() as int
    } else {
        let later = first_with_score(values, score, (n - 1) as nat);
        let i = values.len() - n;
        if values[i].0 == score {
            i
        } else {
            later
        }
    }
}

/// The single best candidate: the first of those with the highest score, when all of those
/// agree on the value; `None` when there is no candidate or the best ones disagree.
pub open spec fn unique_best_spec<T>(values: Seq<(usize, T)>) -> Option<(usize, T)> {
    if values.len() == 0 {
        None
    } else {
        let best = best_score(values, values.len());
        let first = first_with_score(values, best, values.len());
        if forall|i: int| 0 <= i < values.len() && #[trigger] values[i].0 == best ==> values[i].1 == values[first].1 {
            Some(values[first])
        } else {
            None
        }
    }
}

/// The best of the scored candidates, when it is unique: see `unique_best_spec`.
pub fn unique_best<T: LayoutKey + Copy>(values: Vec<(usize, T)>) -> (r: Option<(usize, T)>)
    ensures
        r == unique_best_spec(values@),
{
    if values.len() == 0 {
        return None;
    }
    let mut best: usize = values[0].0;
    let mut i: usize = 1;
    while i < values.len()
        invariant
            1 <= i <= values@.len(),
            best == best_score(values@, i as nat),
        decreases values.len() - i,
    {
        if values[i].0 > best {
            best = values[i].0;
        }
        i = i + 1;
    }
    let mut first: usize = values.len();
    let mut k: usize = values.len();
    while k > 0
        invariant
            k <= values@.len(),
            first == first_with_score(values@, best, (values@.len() - k) as nat),
        decreases k,
    {
        k = k - 1;
        if values[k].0 == best {
            first = k;
        }
    }
    proof {
        lemma_best_score_attained(values@, values@.len());
        lemma_first_with_score(values@, best, values@.len());
    }
    let chosen = values[first];
    let mut j: usize = 0;
    while j < values.len()
        invariant
            j <= values@.len(),
            first < values@.len(),
            best == best_score(values@, values@.len()),
            first == first_with_score(values@, best, values@.len()),
            chosen == values@[first as int],
            forall|i: int| 0 <= i < j && #[trigger] values@[i].0 == best ==> values@[i].1 == chosen.1,
        decreases values.len() - j,
    {
        if values[j].0 == best && !values[j].1.same_as(&chosen.1) {
            assert(values@[j as int].0 == best && values@[j as int].1 != values@[first as int].1);
            return None;
        }
        j = j + 1;
    }
    Some(chosen)
}

pub(crate) proof fn lemma_best_score_attained<T>(values: Seq<(usize, T)>, n: nat)
    requires
        0 < n <= values.len(),
    ensures
        exists|i: int| 0 <= i < n && values[i].0 == best_score(values, n),
    decreases n,
{
    if n > 1 {
        lemma_best_score_attained(values, (n - 1) as nat);
    }
    if values[n - 1].0 == best_score(values, n) {
        assert(values[n - 1].0 == best_score(values, n));
    }
}

pub(crate) proof fn lemma_first_with_score<T>(values: Seq<(usize, T)>, score: usize, n: nat)
    requires
        n <= values.len(),
        exists|i: int| values.len() - n <= i < values.len() && values[i].0 == score,
    ensures
        values.len() - n <= first_with_score(values, score, n) < values.len(),
        values[first_with_score(values, score, n)].0 == score,
    decreases n,
{
    let i = values.len() - n;
    if values[i].0 != score {
        lemma_first_with_score(values, score, (n - 1) as nat);
    }
}


/// The (score, offset) pairs of the first `n` candidates whose table of `size` bytes fits in
/// `body_len` bytes and whose score is not zero.
pub open spec fn scored_candidates(
    candidates: Seq<u32>,
    body_len: nat,
    size: nat,
    scores: Seq<usize>,
    n: nat,
) -> Seq<(usize, usize)>
    decreases n,
{
    if n == 0 {
        Seq::empty()
    } else {
        let earlier = scored_candidates(candidates, body_len, size, scores, (n - 1) as nat);
        let base = candidates[n - 1] as nat;
        if base + size <= body_len && scores[n - 1] != 0 {
            earlier.push((scores[n - 1], base as usize))
        } else {
            earlier
        }
    }
}

/// The offset of the best unique candidate, if any.
pub open spec fn best_offset(scored: Seq<(usize, usize)>) -> Option<usize> {
    match unique_best_spec(scored) {
        Some((_, base)) => Some(base),
        None => None,
    }
}

/// Picks the candidate offset whose table of `size` bytes fits in `body_len` and that `score`
/// rates best, when it is unique; candidates that score zero are dropped.
pub fn select_table_offset(
    candidates: &[u32],
    body_len: usize,
    size: usize,
    score: impl Fn(usize) -> usize,
) -> (r: Option<usize>)
    requires
        forall|base: usize| score.requires((base,)),
    ensures
        exists|scores: Seq<usize>|
            {
                &&& scores.len() == candidates@.len()
                &&& forall|i: int|
                    0 <= i < candidates@.len() && candidates@[i] + size <= body_len ==> score.ensures(
                        (candidates@[i] as usize,),
                        #[trigger] scores[i],
                    )
                &&& r == best_offset(
                    scored_candidates(candidates@, body_len as nat, size as nat, scores, candidates@.len()),
                )
            },
{
    let mut scored: Vec<(usize, usize)> = Vec::new();
    let ghost mut scores: Seq<usize> = Seq::empty();
    let mut i: usize = 0;
    while i < candidates.len()
        invariant
            i <= candidates@.len(),
            forall|base: usize| score.requires((base,)),
            scores.len() == i,
            forall|j: int|
                0 <= j < i && candidates@[j] + size <= body_len ==> score.ensures(
                    (candidates@[j] as usize,),
                    #[trigger] scores[j],
                ),
            scored@ == scored_candidates(candidates@, body_len as nat, size as nat, scores, i as nat),
        decreases candidates.len() - i,
    {
        let base = candidates[i] as usize;
        let ghost old_scores = scores;
        if base <= body_len && size <= body_len - base {
            let value = score(base);
            proof {
                scores = scores.push(value);
            }
            if value != 0 {
                scored.push((value, base));
            }
        } else {
            proof {
                scores = scores.push(0);
            }
        }
        proof {
            lemma_scored_prefix(candidates@, body_len as nat, size as nat, scores, old_scores, i as nat);
            assert(scored_candidates(candidates@, body_len as nat, size as nat, scores, (i + 1) as nat)
                == (if candidates@[i as int] + size <= body_len && scores[i as int] != 0 {
                    scored_candidates(candidates@, body_len as nat, size as nat, scores, i as nat).push((scores[i as int], candidates@[i as int] as usize))
                } else {
                    scored_candidates(candidates@, body_len as nat, size as nat, scores, i as nat)
                }));
        }
        i = i + 1;
    }
    match unique_best(scored) {
        Some((_, base)) => Some(base),
        None => None,
    }
}

/// The offset that `select_table_offset` picks among `candidates` when candidate `i` scores
/// `scores[i]`.
pub open spec fn table_choice(candidates: Seq<u32>, body_len: nat, size: nat, scores: Seq<usize>) -> Option<usize> {
    best_offset(scored_candidates(candidates, body_len, size, scores, candidates.len()))
}

/// When `score` gives each fitting candidate `i` the score `expected[i]`, what
/// `select_table_offset` returns is `table_choice` over `expected`.
pub proof fn lemma_table_choice<F: Fn(usize) -> usize>(
    score: F,
    candidates: Seq<u32>,
    body_len: usize,
    size: usize,
    expected: Seq<usize>,
    r: Option<usize>,
)
    requires
        expected.len() == candidates.len(),
        forall|i: int, v: usize|
            0 <= i < candidates.len() && candidates[i] + size <= body_len && #[trigger] score.ensures(
                (candidates[i] as usize,),
                v,
            ) ==> v == expected[i],
        exists|scores: Seq<usize>|
            {
                &&& scores.len() == candidates.len()
                &&& forall|i: int|
                    0 <= i < candidates.len() && candidates[i] + size <= body_len ==> score.ensures(
                        (candidates[i] as usize,),
                        #[trigger] scores[i],
                    )
                &&& r == best_offset(
                    scored_candidates(candidates, body_len as nat, size as nat, scores, candidates.len()),
                )
            },
    ensures
        r == table_choice(candidates, body_len as nat, size as nat, expected),
{
    let scores = choose|scores: Seq<usize>|
        {
            &&& scores.len() == candidates.len()
            &&& forall|i: int|
                0 <= i < candidates.len() && candidates[i] + size <= body_len ==> score.ensures(
                    (candidates[i] as usize,),
                    #[trigger] scores[i],
                )
            &&& r == best_offset(
                scored_candidates(candidates, body_len as nat, size as nat, scores, candidates.len()),
            )
        };
    assert forall|j: int| 0 <= j < candidates.len() && candidates[j] + size <= body_len implies scores[j]
        == expected[j] by {
        assert(score.ensures((candidates[j] as usize,), scores[j]));
    }
    lemma_scored_agree(candidates, body_len as nat, size as nat, scores, expected, candidates.len());
}

/// The offset that `table_choice` picks leaves room for the table.
pub proof fn lemma_table_choice_fits(candidates: Seq<u32>, body_len: nat, size: nat, scores: Seq<usize>)
    requires
        scores.len() == candidates.len(),
    ensures
        table_choice(candidates, body_len, size, scores) matches Some(base) ==> base + size <= body_len,
{
    let scored = scored_candidates(candidates, body_len, size, scores, candidates.len());
    lemma_scored_fit(candidates, body_len, size, scores, candidates.len());
    if scored.len() > 0 {
        let best = best_score(scored, scored.len());
        lemma_best_score_attained(scored, scored.len());
        lemma_first_with_score(scored, best, scored.len());
    }
}

proof fn lemma_scored_fit(candidates: Seq<u32>, body_len: nat, size: nat, scores: Seq<usize>, n: nat)
    requires
        n <= candidates.len(),
        n <= scores.len(),
    ensures
        forall|k: int| 0 <= k < scored_candidates(candidates, body_len, size, scores, n).len() ==> #[trigger] scored_candidates(candidates, body_len, size, scores, n)[k].1 + size <= body_len,
    decreases n,
{
    if n > 0 {
        lemma_scored_fit(candidates, body_len, size, scores, (n - 1) as nat);
        let earlier = scored_candidates(candidates, body_len, size, scores, (n - 1) as nat);
        let now = scored_candidates(candidates, body_len, size, scores, n);
        assert forall|k: int| 0 <= k < now.len() implies #[trigger] now[k].1 + size <= body_len by {
            if k < earlier.len() {
                assert(now[k] == earlier[k]);
            } else {
                assert(now[k].1 == candidates[n - 1] as usize);
            }
        }
    }
}

proof fn lemma_scored_agree(
    candidates: Seq<u32>,
    body_len: nat,
    size: nat,
    a: Seq<usize>,
    b: Seq<usize>,
    n: nat,
)
    requires
        n <= a.len(),
        n <= b.len(),
        n <= candidates.len(),
        forall|j: int| 0 <= j < n && candidates[j] + size <= body_len ==> a[j] == b[j],
    ensures
        scored_candidates(candidates, body_len, size, a, n) == scored_candidates(candidates, body_len, size, b, n),
    decreases n,
{
    if n > 0 {
        lemma_scored_agree(candidates, body_len, size, a, b, (n - 1) as nat);
    }
}

proof fn lemma_scored_prefix(
    candidates: Seq<u32>,
    body_len: nat,
    size: nat,
    a: Seq<usize>,
    b: Seq<usize>,
    n: nat,
)
    requires
        n <= a.len(),
        n <= b.len(),
        forall|j: int| 0 <= j < n ==> a[j] == b[j],
    ensures
        scored_candidates(candidates, body_len, size, a, n) == scored_candidates(candidates, body_len, size, b, n),
    decreases n,
{
    if n > 0 {
        lemma_scored_prefix(candidates, body_len, size, a, b, (n - 1) as nat);
    }
}


/// Whether every character of `s` is a visible ASCII character.
pub open spec fn ascii_graphic(s: Seq<char>) -> bool {
    forall|i: int| 0 <= i < s.len() ==> '!' <= #[trigger] s[i] && s[i] <= '~'
}

/// How much an image with `type_count` types and the name `name` looks like a real one: a
/// plausible type count, a name that is not a placeholder, ends in `.dll` and is visible
/// ASCII.
pub open spec fn image_score_parts(type_count: u32, name: Seq<char>) -> nat {
    (if type_count < 1_000_000 { 1nat } else { 0 }) + (if !(name.len() >= 6 && name.subrange(0, 6)
        == "Image_"@) {
        2nat
    } else {
        0
    }) + (if name.len() >= 4 && name.subrange(name.len() - 4, name.len() as int) == ".dll"@ {
        3nat
    } else {
        0
    }) + (if name.len() != 0 && ascii_graphic(name) {
        1nat
    } else {
        0
    })
}

/// How much `image` looks like a real one; see `image_score_parts`.
pub open spec fn image_score(image: ImageDef) -> nat {
    image_score_parts(image.type_count, image.name@)
}

/// The score of image record `i` of the table at `base`, read with the names of `body` and
/// `table`.
pub open spec fn image_record_score(startup: Seq<u8>, base: int, body: Seq<u8>, table: nat, i: int) -> nat {
    let off = base + 40 * i;
    let key = image_key(i as u32);
    image_score_parts(
        key ^ le_u32(startup, off + 4) ^ 0x7FDC8C8F ^ 0x1324FE97,
        name_or(
            decrypted_string(body, table, key ^ le_u32(startup, off + 12) ^ 0x4D648371),
            "Image_"@ + decimal_digits(i as nat) + ".dll"@,
        ),
    )
}

/// The total score of the first `n` image records of the table at `base`.
pub open spec fn image_records_score(startup: Seq<u8>, base: int, body: Seq<u8>, table: nat, n: nat) -> nat
    decreases n,
{
    if n == 0 {
        0
    } else {
        image_records_score(startup, base, body, table, (n - 1) as nat) + image_record_score(startup, base, body, table, n - 1)
    }
}

fn is_ascii_graphic(s: &str) -> (r: bool)
    ensures
        r == ascii_graphic(s@),
{
    let n = s.unicode_len();
    let mut i: usize = 0;
    while i < n
        invariant
            i <= n,
            n == s@.len(),
            forall|j: int| 0 <= j < i ==> '!' <= #[trigger] s@[j] && s@[j] <= '~',
        decreases n - i,
    {
        let c = s.get_char(i);
        if !('!' <= c && c <= '~') {
            return false;
        }
        i = i + 1;
    }
    true
}

fn image_score_of(image: &ImageDef) -> (r: usize)
    ensures
        r == image_score(*image),
{
    let name = image.name.as_str();
    let mut score: usize = if image.type_count < 1_000_000 {
        1
    } else {
        0
    };
    proof {
        reveal_strlit("Image_");
        reveal_strlit(".dll");
    }
    if !str_starts_with(name, "Image_") {
        score = score + 2;
    }
    if str_ends_with(name, ".dll") {
        score = score + 3;
    }
    if !name.is_empty() && is_ascii_graphic(name) {
        score = score + 1;
    }
    score
}

/// Rates the `count` images at `base` of `startup`, read with `decryptor`: the sum of the
/// scores of those that lie in it.
pub fn score_images_at(startup: &[u8], base: usize, count: usize, decryptor: &StringDecryptor) -> (r: usize)
    ensures
        r == image_records_score(
            startup@,
            base as int,
            decryptor.body(),
            decryptor.table(),
            image_run(startup@.len(), base as int, count as nat),
        ),
{
    let images = decrypt_images_at(startup, base, count, decryptor);
    assert(startup@.len() == startup.len());
    assert(images@.len() <= usize::MAX / 8);
    let mut total: usize = 0;
    let mut i: usize = 0;
    while i < images.len()
        invariant
            i <= images@.len(),
            total == image_records_score(startup@, base as int, decryptor.body(), decryptor.table(), i as nat),
            total <= 7 * i,
            images@.len() <= usize::MAX / 8,
            forall|j: int|
                0 <= j < images@.len() ==> is_image_record_at(
                    #[trigger] images@[j],
                    startup@,
                    base as int,
                    decryptor.body(),
                    decryptor.table(),
                    j,
                ),
        decreases images.len() - i,
    {
        assert(is_image_record_at(images@[i as int], startup@, base as int, decryptor.body(), decryptor.table(), i as int));
        total = total + image_score_of(&images[i]);
        i = i + 1;
    }
    total
}

/// Rates the images that `mhy` locates in `startup`, read with `decryptor`: the sum of their
/// image scores.
pub fn score_images(startup: &[u8], mhy: &mhy::MhyHeader, decryptor: &StringDecryptor) -> (r: usize)
    ensures
        r == image_records_score(
            startup@,
            mhy.image_off() as int,
            decryptor.body(),
            decryptor.table(),
            image_run(startup@.len(), mhy.image_off() as int, mhy.image_count() as nat),
        ),
{
    score_images_at(startup, mhy.image_off(), mhy.image_count(), decryptor)
}

} // verus!
