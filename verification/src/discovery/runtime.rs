use super::mhy::MhyHeader;
use super::pe::PeImage;
use super::{
    executable_va, find_metadata_registration, find_qword, generic_inst_layout_spec,
    discover_generic_inst_layout, discover_type_layout, discover_types_count, pointer_table_ok,
    metadata_registration_spec, qword_hits, read_u64_at, registrations, runtime_type_count,
    type_layout_spec,
    validate_pointer_table, RuntimeProfile,
};
use crate::bytes::{in_bounds, le_i32, le_u16, le_u32, le_u64, read_i32_at, read_u16_at, read_u32_at};
use vstd::prelude::*;

verus! {

/// The end of the methods that type record `index` at `base` declares, when its first
/// method is plausible (below ten million); `None` otherwise.
pub open spec fn declared_method_end(body: Seq<u8>, base: int, index: int) -> Option<nat> {
    let record = base + 70 * index;
    let start = le_u32(body, record + 8) ^ 0x1a7a_f5fe;
    let count = le_u16(body, record + 52).wrapping_add(24_467);
    if start < 10_000_000 {
        Some((start + count) as nat)
    } else {
        None
    }
}

/// The largest method end that the first `n` type records at `base` declare; 0 when none
/// does.
pub open spec fn largest_method_end(body: Seq<u8>, base: int, n: nat) -> nat
    decreases n,
{
    if n == 0 {
        0
    } else {
        let rest = largest_method_end(body, base, (n - 1) as nat);
        match declared_method_end(body, base, n - 1) {
            Some(end) => if end > rest {
                end
            } else {
                rest
            },
            None => rest,
        }
    }
}

/// How many of `type_count` type records of 70 bytes at `type_offset` lie in `body`.
pub open spec fn complete_type_records(body: Seq<u8>, type_offset: usize, type_count: usize) -> nat {
    let available = if type_offset < body.len() {
        ((body.len() - type_offset) / 70) as nat
    } else {
        0
    };
    if available < type_count {
        available
    } else {
        type_count as nat
    }
}

/// The number of methods that the type table at `type_offset` declares: the largest end of
/// the method ranges of its complete records whose first method is below ten million.
pub fn discover_method_count(global_body: &[u8], type_offset: usize, type_definition_count: usize) -> (r: usize)
    ensures
        r == largest_method_end(
            global_body@,
            type_offset as int,
            complete_type_records(global_body@, type_offset, type_definition_count),
        ),
{
    let rest = if type_offset < global_body.len() {
        global_body.len() - type_offset
    } else {
        0
    };
    let available = rest / 70;
    assert(70 * available <= rest);
    let limit = if available < type_definition_count {
        available
    } else {
        type_definition_count
    };
    let mut maximum: usize = 0;
    let mut index: usize = 0;
    while index < limit
        invariant
            index <= limit,
            limit == complete_type_records(global_body@, type_offset, type_definition_count),
            limit > 0 ==> type_offset + 70 * limit <= global_body@.len(),
            global_body@.len() == global_body.len(),
            maximum == largest_method_end(global_body@, type_offset as int, index as nat),
            maximum <= 10_000_000 + 0x1_0000,
        decreases limit - index,
    {
        assert(index * 70 + 70 <= 70 * limit) by (nonlinear_arith)
            requires
                index < limit,
        ;
        let offset = type_offset + index * 70;
        let start = read_u32_at(global_body, offset + 8) ^ 0x1a7a_f5fe;
        let count = read_u16_at(global_body, offset + 52).wrapping_add(24_467);
        if start < 10_000_000 {
            let end = start as usize + count as usize;
            if end > maximum {
                maximum = end;
            }
        }
        index = index + 1;
    }
    maximum
}

/// The file offsets of the primary and fallback method-pointer tables and of the code
/// registration that points at them.
#[derive(Clone, Copy, Debug, PartialEq, Eq, Structural)]
pub struct MethodPointerTables {
    pub primary: usize,
    pub fallback: usize,
    pub registration: usize,
}


/// The largest method-pointer index of the first `n` six-byte records at `offset`.
pub open spec fn largest_pointer_index(body: Seq<u8>, offset: int, n: nat) -> nat
    decreases n,
{
    if n == 0 {
        0
    } else {
        let rest = largest_pointer_index(body, offset, (n - 1) as nat);
        let value = le_u16(body, offset + 6 * (n - 1) + 4) as nat;
        if value > rest {
            value
        } else {
            rest
        }
    }
}

/// The number of method pointers that the header's method-pointer index table requires:
/// one more than its largest index; `None` when the table is empty or does not lie in
/// `body`.
pub open spec fn required_pointers(body: Seq<u8>, offset: usize, count: usize) -> Option<usize> {
    if count * 6 > usize::MAX || offset + count * 6 > usize::MAX || count == 0 || offset + count
        * 6 > body.len() {
        None
    } else {
        Some((largest_pointer_index(body, offset as int, count as nat) + 1) as usize)
    }
}

/// `found` with `start` appended when the run of executable pointers from `start` to
/// `offset` holds exactly `required` entries.
pub open spec fn close_run(found: Seq<usize>, run: Option<int>, offset: int, required: int) -> Seq<usize> {
    match run {
        Some(start) => if (offset - start) / 8 == required {
            found.push(start as usize)
        } else {
            found
        },
        None => found,
    }
}

/// The starts of the runs of exactly `required` executable 64-bit pointers in
/// `dll[offset..end]`, scanned in steps of eight, appended to `found`.
pub open spec fn pointer_runs(
    dll: Seq<u8>,
    pe: PeImage,
    end: int,
    offset: int,
    run: Option<int>,
    required: int,
    found: Seq<usize>,
) -> Seq<usize>
    decreases end - offset,
{
    if offset + 8 > end {
        close_run(found, run, offset, required)
    } else if executable_va(pe, le_u64(dll, offset)) {
        pointer_runs(dll, pe, end, offset + 8, if run is Some { run } else { Some(offset) }, required, found)
    } else {
        pointer_runs(dll, pe, end, offset + 8, None, required, close_run(found, run, offset, required))
    }
}

/// The starts of runs of exactly `required` executable pointers in the first `n` readable
/// ranges, each scanned from its start rounded up to a multiple of eight.
pub open spec fn primary_candidates(
    dll: Seq<u8>,
    pe: PeImage,
    ranges: Seq<(usize, usize)>,
    n: nat,
    required: int,
) -> Seq<usize>
    decreases n,
{
    if n == 0 || n > ranges.len() {
        Seq::empty()
    } else {
        let found = primary_candidates(dll, pe, ranges, (n - 1) as nat, required);
        let (start, range_end) = ranges[n - 1];
        let end = if range_end < dll.len() {
            range_end as int
        } else {
            dll.len() as int
        };
        if start + 7 > usize::MAX {
            found
        } else {
            let aligned = start + 7 - (start + 7) % 8;
            pointer_runs(dll, pe, end, aligned, None, required, found)
        }
    }
}

/// The tables that the reference at `reference` to a primary table yields: the code
/// registration 0x58 bytes before it, whose fallback table pointer at +0x88 must lead to
/// a table of pointers. `None` when an offset overflows.
pub open spec fn tables_at_reference(
    dll: Seq<u8>,
    pe: PeImage,
    primary: usize,
    reference: usize,
    required: usize,
) -> Option<Option<MethodPointerTables>> {
    if reference < 0x58 {
        Some(None)
    } else if reference - 0x58 + 0x88 > usize::MAX {
        None
    } else {
        let registration = (reference - 0x58) as usize;
        let pointer_at = registration + 0x88;
        if !in_bounds(dll, pointer_at, 8) {
            Some(None)
        } else {
            match pe.file_offset_of(le_u64(dll, pointer_at)) {
                None => Some(None),
                Some(fallback) => {
                    let count = if required < 4096 {
                        required
                    } else {
                        4096
                    };
                    if pointer_table_ok(dll, fallback as int, count as int, pe) {
                        Some(Some(MethodPointerTables { primary, fallback, registration }))
                    } else {
                        Some(None)
                    }
                },
            }
        }
    }
}

/// The tables found through the first `n` of `references` to `primary`, appended to
/// `found`; `None` when an offset overflows.
pub open spec fn tables_from_references(
    dll: Seq<u8>,
    pe: PeImage,
    primary: usize,
    references: Seq<usize>,
    n: nat,
    required: usize,
    found: Seq<MethodPointerTables>,
) -> Option<Seq<MethodPointerTables>>
    decreases n,
{
    if n == 0 || n > references.len() {
        Some(found)
    } else {
        match tables_from_references(dll, pe, primary, references, (n - 1) as nat, required, found) {
            None => None,
            Some(f) => match tables_at_reference(dll, pe, primary, references[n - 1], required) {
                None => None,
                Some(None) => Some(f),
                Some(Some(t)) => Some(f.push(t)),
            },
        }
    }
}

/// The tables found through the references to the first `n` primary candidates; `None`
/// when a candidate is not mapped or an offset overflows.
pub open spec fn tables_from_primaries(
    dll: Seq<u8>,
    pe: PeImage,
    primaries: Seq<usize>,
    n: nat,
    required: usize,
) -> Option<Seq<MethodPointerTables>>
    decreases n,
{
    if n == 0 || n > primaries.len() {
        Some(Seq::empty())
    } else {
        match tables_from_primaries(dll, pe, primaries, (n - 1) as nat, required) {
            None => None,
            Some(found) => match pe.va_of_offset(primaries[n - 1]) {
                None => None,
                Some(va) => {
                    let references = qword_hits(dll, va, dll.len());
                    tables_from_references(dll, pe, primaries[n - 1], references, references.len(), required, found)
                },
            },
        }
    }
}

/// The method-pointer tables, when exactly one code registration leads to them.
pub open spec fn method_pointer_tables_spec(
    global_body: Seq<u8>,
    dll: Seq<u8>,
    map_offset: usize,
    map_count: usize,
    pe: PeImage,
) -> Option<MethodPointerTables> {
    match required_pointers(global_body, map_offset, map_count) {
        None => None,
        Some(required) => {
            let ranges = pe.readable_ranges_spec();
            let primaries = primary_candidates(dll, pe, ranges, ranges.len(), required as int);
            match tables_from_primaries(dll, pe, primaries, primaries.len(), required) {
                Some(found) => if found.len() == 1 {
                    Some(found[0])
                } else {
                    None
                },
                None => None,
            }
        },
    }
}

fn largest_index(body: &[u8], offset: usize, count: usize) -> (r: usize)
    requires
        offset + 6 * count <= body@.len(),
    ensures
        r == largest_pointer_index(body@, offset as int, count as nat),
        r <= 0xffff,
{
    let mut maximum: usize = 0;
    let mut k: usize = 0;
    while k < count
        invariant
            k <= count,
            offset + 6 * count <= body@.len(),
            body@.len() == body.len(),
            maximum == largest_pointer_index(body@, offset as int, k as nat),
            maximum <= 0xffff,
        decreases count - k,
    {
        assert(k * 6 + 6 <= 6 * count) by (nonlinear_arith)
            requires
                k < count,
        ;
        let value = read_u16_at(body, offset + k * 6 + 4) as usize;
        if value > maximum {
            maximum = value;
        }
        k = k + 1;
    }
    maximum
}

fn runs_in_range(
    dll: &[u8],
    pe: &PeImage,
    start: usize,
    end: usize,
    required: usize,
    found: &mut Vec<usize>,
)
    requires
        end <= dll@.len(),
        start + 7 <= usize::MAX,
    ensures
        final(found)@ == pointer_runs(dll@, *pe, end as int, start + 7 - (start + 7) % 8, None, required as int, old(found)@),
{
    let aligned = start + 7 - (start + 7) % 8;
    let ghost target = pointer_runs(dll@, *pe, end as int, aligned as int, None, required as int, found@);
    let mut offset = aligned;
    let mut run: Option<usize> = None;
    while offset <= end && end - offset >= 8
        invariant
            end <= dll@.len(),
            target == pointer_runs(dll@, *pe, end as int, offset as int, match run {
                Some(s) => Some(s as int),
                None => None,
            }, required as int, found@),
            run matches Some(s) ==> s <= offset,
        decreases end - offset,
    {
        let pointer = crate::bytes::read_u64_at(dll, offset);
        if pe.is_executable_va(pointer) {
            if run.is_none() {
                run = Some(offset);
            }
        } else {
            if let Some(s) = run {
                if (offset - s) / 8 == required {
                    found.push(s);
                }
            }
            run = None;
        }
        offset = offset + 8;
    }
    if let Some(s) = run {
        if (offset - s) / 8 == required {
            found.push(s);
        }
    }
}


fn tables_for_primary(
    dll: &[u8],
    pe: &PeImage,
    primary: usize,
    va: u64,
    required: usize,
    found: &mut Vec<MethodPointerTables>,
) -> (ok: bool)
    ensures
        ({
            let references = qword_hits(dll@, va, dll@.len());
            match tables_from_references(dll@, *pe, primary, references, references.len(), required, old(found)@) {
                Some(f) => ok && final(found)@ == f,
                None => !ok,
            }
        }),
{
    let references = find_qword(dll, va);
    let ghost target = tables_from_references(dll@, *pe, primary, references@, references@.len(), required, found@);
    let ghost start = found@;
    let mut k: usize = 0;
    while k < references.len()
        invariant
            k <= references@.len(),
            references@ == qword_hits(dll@, va, dll@.len()),
            start == old(found)@,
            target == tables_from_references(dll@, *pe, primary, references@, references@.len(), required, start),
            tables_from_references(dll@, *pe, primary, references@, k as nat, required, start) == Some(found@),
        decreases references.len() - k,
    {
        let reference = references[k];
        if reference >= 0x58 {
            let registration = reference - 0x58;
            if registration > usize::MAX - 0x88 {
                proof {
                    assert(tables_at_reference(dll@, *pe, primary, reference, required) is None);
                    assert(tables_from_references(dll@, *pe, primary, references@, (k + 1) as nat, required, start) is None);
                    lemma_references_prefix(dll@, *pe, primary, references@, (k + 1) as nat, references@.len(), required, start);
                }
                return false;
            }
            let pointer_at = registration + 0x88;
            match read_u64_at(dll, pointer_at) {
                Some(fallback_va) => match pe.va_to_file_offset(fallback_va) {
                    Some(fallback) => {
                        let count = if required < 4096 { required } else { 4096 };
                        if validate_pointer_table(dll, fallback, count, pe) {
                            found.push(MethodPointerTables { primary, fallback, registration });
                        }
                    },
                    None => {},
                },
                None => {},
            }
        }
        k = k + 1;
    }
    true
}

proof fn lemma_references_prefix(
    dll: Seq<u8>,
    pe: PeImage,
    primary: usize,
    references: Seq<usize>,
    n: nat,
    m: nat,
    required: usize,
    found: Seq<MethodPointerTables>,
)
    requires
        n <= m <= references.len(),
        tables_from_references(dll, pe, primary, references, n, required, found) is None,
    ensures
        tables_from_references(dll, pe, primary, references, m, required, found) is None,
    decreases m - n,
{
    if n < m {
        lemma_references_prefix(dll, pe, primary, references, n, (m - 1) as nat, required, found);
    }
}

proof fn lemma_primaries_prefix(dll: Seq<u8>, pe: PeImage, primaries: Seq<usize>, n: nat, m: nat, required: usize)
    requires
        n <= m <= primaries.len(),
        tables_from_primaries(dll, pe, primaries, n, required) is None,
    ensures
        tables_from_primaries(dll, pe, primaries, m, required) is None,
    decreases m - n,
{
    if n < m {
        lemma_primaries_prefix(dll, pe, primaries, n, (m - 1) as nat, required);
    }
}

/// The primary and fallback method-pointer tables and the code registration that points at
/// them: the primary is a run of exactly as many executable pointers as the header's index
/// table requires, a code registration refers to it at +0x58, and its fallback table at
/// +0x88 holds executable pointers. `None` unless exactly one registration is found.
pub fn discover_method_pointer_tables(
    global_body: &[u8],
    dll: &[u8],
    mhy: &MhyHeader,
    pe: &PeImage,
) -> (r: Option<MethodPointerTables>)
    ensures
        r == method_pointer_tables_spec(global_body@, dll@, mhy.table42_base(), mhy.table42_count(), *pe),
{
    discover_method_pointer_tables_at(global_body, dll, mhy.table42_base(), mhy.table42_count(), pe)
}

/// The method-pointer tables that the method-pointer map of `table_count` six-byte records
/// at `table_offset` of the metadata body calls for, when exactly one code registration of
/// `dll` leads to them; see `method_pointer_tables_spec`.
pub fn discover_method_pointer_tables_at(
    global_body: &[u8],
    dll: &[u8],
    table_offset: usize,
    table_count: usize,
    pe: &PeImage,
) -> (r: Option<MethodPointerTables>)
    ensures
        r == method_pointer_tables_spec(global_body@, dll@, table_offset, table_count, *pe),
{
    if table_count > usize::MAX / 6 || table_offset > usize::MAX - table_count * 6 {
        return None;
    }
    let table_end = table_offset + table_count * 6;
    if table_count == 0 || table_end > global_body.len() {
        return None;
    }
    let required = largest_index(global_body, table_offset, table_count) + 1;
    let ranges = pe.readable_file_ranges();
    let mut primaries: Vec<usize> = Vec::new();
    let mut k: usize = 0;
    while k < ranges.len()
        invariant
            k <= ranges@.len(),
            ranges@ == pe.readable_ranges_spec(),
            primaries@ == primary_candidates(dll@, *pe, ranges@, k as nat, required as int),
        decreases ranges.len() - k,
    {
        let (start, range_end) = ranges[k];
        let end = if range_end < dll.len() { range_end } else { dll.len() };
        if start <= usize::MAX - 7 {
            runs_in_range(dll, pe, start, end, required, &mut primaries);
        }
        k = k + 1;
    }
    assert(primaries@ == primary_candidates(dll@, *pe, ranges@, ranges@.len(), required as int));
    assert(required_pointers(global_body@, table_offset, table_count) == Some(required));
    let mut found: Vec<MethodPointerTables> = Vec::new();
    let mut j: usize = 0;
    while j < primaries.len()
        invariant
            j <= primaries@.len(),
            required_pointers(global_body@, table_offset, table_count) == Some(required),
            primaries@ == primary_candidates(dll@, *pe, pe.readable_ranges_spec(), pe.readable_ranges_spec().len(), required as int),
            tables_from_primaries(dll@, *pe, primaries@, j as nat, required) == Some(found@),
        decreases primaries.len() - j,
    {
        let primary = primaries[j];
        match pe.file_offset_to_va(primary) {
            None => {
                proof {
                    lemma_primaries_prefix(dll@, *pe, primaries@, (j + 1) as nat, primaries@.len(), required);
                }
                return None;
            },
            Some(va) => {
                if !tables_for_primary(dll, pe, primary, va, required, &mut found) {
                    proof {
                        lemma_primaries_prefix(dll@, *pe, primaries@, (j + 1) as nat, primaries@.len(), required);
                    }
                    return None;
                }
            },
        }
        j = j + 1;
    }
    if found.len() == 1 {
        Some(found[0])
    } else {
        None
    }
}


/// The largest non-negative generic-instance index among the first `n` eight-byte generic
/// class records at `source` (the `i32` at +4 of each); `None` when there is none.
pub open spec fn largest_instance(startup: Seq<u8>, source: int, n: nat) -> Option<nat>
    decreases n,
{
    if n == 0 {
        None
    } else {
        let rest = largest_instance(startup, source, (n - 1) as nat);
        let value = le_i32(startup, source + 8 * (n - 1) + 4);
        if value < 0 {
            rest
        } else {
            match rest {
                Some(m) => if value > m {
                    Some(value as nat)
                } else {
                    Some(m)
                },
                None => Some(value as nat),
            }
        }
    }
}

/// What the code registration at file offset `registration` leads to: its address, the
/// metadata registration's address, the generic-instance table's address and layout, and
/// the type table's address and number of sound records. `None` when an address is not
/// mapped, the metadata registration is missing or not unique, the type records are not
/// inline, or there is no sound type record.
#[verifier::opaque]
pub open spec fn registration_targets(dll: Seq<u8>, pe: PeImage, registration: usize) -> Option<(u64, u64, u64, bool, u64, int)> {
    match pe.va_of_offset(registration) {
        None => None,
        Some(code_registration_va) => match metadata_registration_spec(dll, pe, code_registration_va) {
            None => None,
            Some(metadata_registration_va) => match pe.file_offset_of(metadata_registration_va) {
                None => None,
                Some(metadata) => if metadata + 0x68 > usize::MAX || !in_bounds(dll, metadata + 0x20, 8) {
                    None
                } else {
                    let generic_insts_va = le_u64(dll, metadata + 0x20);
                    match generic_inst_layout_spec(dll, pe, generic_insts_va) {
                        None => None,
                        Some(inline) => if !in_bounds(dll, metadata + 0x68, 8) {
                            None
                        } else {
                            let types_va = le_u64(dll, metadata + 0x68);
                            match pe.file_offset_of(types_va) {
                                None => None,
                                Some(types_offset) => {
                                    let types_count = runtime_type_count(dll, types_offset as int);
                                    if type_layout_spec(dll, pe, types_va) != Some(true) || types_count == 0 {
                                        None
                                    } else {
                                        Some((code_registration_va, metadata_registration_va, generic_insts_va, inline, types_va, types_count))
                                    }
                                },
                            }
                        },
                    }
                },
            },
        },
    }
}

/// The IL2CPP runtime tables that the code registration of `tables` leads to; `None` when a
/// step fails: see `registration_targets`, an unmapped method-pointer table, or generic
/// class records that do not lie in `startup` or hold no generic instance.
pub open spec fn runtime_profile_spec(
    global_body: Seq<u8>,
    startup: Seq<u8>,
    dll: Seq<u8>,
    pe: PeImage,
    tables: MethodPointerTables,
    type_definition_count: usize,
    type_definition_offset: usize,
    generic_class_source_offset: usize,
    generic_class_count: usize,
) -> Option<RuntimeProfile> {
    let registration = tables.registration;
    match registration_targets(dll, pe, registration) {
        None => None,
        Some((code_registration_va, metadata_registration_va, generic_insts_va, inline, types_va, types_count)) => {
            if registration + 8 > usize::MAX || !in_bounds(dll, registration + 8, 8) {
                None
            } else {
                let method_pointers_va = le_u64(dll, registration + 8);
                if pe.file_offset_of(method_pointers_va) is None || generic_class_count * 8 > usize::MAX
                    || generic_class_source_offset + generic_class_count * 8 > usize::MAX
                    || generic_class_source_offset + generic_class_count * 8 > startup.len() {
                    None
                } else {
                    match largest_instance(startup, generic_class_source_offset as int, generic_class_count as nat) {
                        None => None,
                        Some(m) => Some(RuntimeProfile {
                            code_registration_va,
                            metadata_registration_va,
                            method_pointers_va,
                            method_pointers_count: largest_method_end(
                                global_body,
                                type_definition_offset as int,
                                complete_type_records(global_body, type_definition_offset, type_definition_count),
                            ) as usize,
                            types_va,
                            types_count: types_count as usize,
                            generic_insts_va,
                            generic_insts_count: (m + 1) as usize,
                            generic_insts_are_inline: inline,
                            types_are_inline: true,
                            generic_class_source_offset,
                            generic_class_count,
                        }),
                    }
                }
            }
        },
    }
}

fn registration_targets_of(dll: &[u8], pe: &PeImage, registration: usize) -> (r: Option<(u64, u64, u64, bool, u64, usize)>)
    ensures
        r == (match registration_targets(dll@, *pe, registration) {
            Some((a, b, c, d, e, f)) => Some((a, b, c, d, e, f as usize)),
            None => None,
        }),
        r matches Some(t) ==> t.5 > 0,
{
    reveal(registration_targets);
    let code_registration_va = pe.file_offset_to_va(registration)?;
    let metadata_registration_va = find_metadata_registration(dll, pe, code_registration_va)?;
    let metadata_registration = pe.va_to_file_offset(metadata_registration_va)?;
    if metadata_registration > usize::MAX - 0x68 {
        return None;
    }
    let generic_insts_va = read_u64_at(dll, metadata_registration + 0x20)?;
    let generic_insts_are_inline = discover_generic_inst_layout(dll, pe, generic_insts_va)?;
    let types_va = read_u64_at(dll, metadata_registration + 0x68)?;
    let types_offset = pe.va_to_file_offset(types_va)?;
    let types_are_inline = discover_type_layout(dll, pe, types_va)?;
    if !types_are_inline {
        return None;
    }
    let types_count = discover_types_count(dll, types_offset);
    if types_count == 0 {
        return None;
    }
    Some((code_registration_va, metadata_registration_va, generic_insts_va, generic_insts_are_inline, types_va, types_count))
}

fn largest_instance_index(startup: &[u8], source: usize, count: usize) -> (r: Option<usize>)
    requires
        source + 8 * count <= startup@.len(),
    ensures
        r == (match largest_instance(startup@, source as int, count as nat) {
            Some(m) => Some(m as usize),
            None => None,
        }),
        r matches Some(m) ==> m <= i32::MAX,
        largest_instance(startup@, source as int, count as nat) matches Some(m) ==> m <= i32::MAX,
{
    let mut maximum: Option<usize> = None;
    let mut k: usize = 0;
    while k < count
        invariant
            k <= count,
            source + 8 * count <= startup@.len(),
            startup@.len() == startup.len(),
            maximum == (match largest_instance(startup@, source as int, k as nat) {
                Some(m) => Some(m as usize),
                None => None,
            }),
            largest_instance(startup@, source as int, k as nat) matches Some(m) ==> m <= i32::MAX,
        decreases count - k,
    {
        assert(k * 8 + 8 <= 8 * count) by (nonlinear_arith)
            requires
                k < count,
        ;
        let value = read_i32_at(startup, source + k * 8 + 4);
        if value >= 0 {
            let v = value as usize;
            maximum = match maximum {
                Some(m) => if v > m { Some(v) } else { Some(m) },
                None => Some(v),
            };
        }
        k = k + 1;
    }
    maximum
}

/// The IL2CPP runtime tables that the code registration of `tables` leads to: the metadata
/// registration, its generic-instance and type tables, the method pointers, and the number
/// of generic instances that the generic class records of `startup` use.
pub fn discover_runtime_profile(
    global_body: &[u8],
    startup: &[u8],
    dll: &[u8],
    pe: &PeImage,
    tables: &MethodPointerTables,
    type_definition_count: usize,
    type_definition_offset: usize,
    generic_class_source_offset: usize,
    generic_class_count: usize,
) -> (r: Option<RuntimeProfile>)
    ensures
        r == runtime_profile_spec(
            global_body@,
            startup@,
            dll@,
            *pe,
            *tables,
            type_definition_count,
            type_definition_offset,
            generic_class_source_offset,
            generic_class_count,
        ),
{
    let (code_registration_va, metadata_registration_va, generic_insts_va, generic_insts_are_inline, types_va, types_count) =
        registration_targets_of(dll, pe, tables.registration)?;
    let types_are_inline = true;
    if tables.registration > usize::MAX - 8 {
        return None;
    }
    let method_pointers_va = read_u64_at(dll, tables.registration + 8)?;
    pe.va_to_file_offset(method_pointers_va)?;
    let method_pointers_count = discover_method_count(global_body, type_definition_offset, type_definition_count);
    if generic_class_count > usize::MAX / 8 || generic_class_source_offset > usize::MAX - generic_class_count * 8 {
        return None;
    }
    if generic_class_source_offset + generic_class_count * 8 > startup.len() {
        return None;
    }
    let maximum = largest_instance_index(startup, generic_class_source_offset, generic_class_count)?;
    Some(RuntimeProfile {
        code_registration_va,
        metadata_registration_va,
        method_pointers_va,
        method_pointers_count,
        types_va,
        types_count,
        generic_insts_va,
        generic_insts_count: maximum + 1,
        generic_insts_are_inline,
        types_are_inline,
        generic_class_source_offset,
        generic_class_count,
    })
}

} // verus!
