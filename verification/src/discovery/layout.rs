use super::pe::PeImage;
use super::tables::{
    constraint_ok, container_record_plausible, count_where, generic_parameter_record_score,
    interface_entry_ok, score_generic_constraint_table, score_generic_container_table,
    score_generic_parameter_table, score_interface_table, sum_at,
};
use super::{
    generic_parameter_key, generic_parameter_term, lemma_table_choice, lemma_table_choice_fits, samples, select_table_offset,
    sorted_distinct, table_choice, unique_best, unique_best_spec, unique_values, RuntimeProfile,
};
use crate::bytes::{in_bounds, le_u16, le_u32, le_u64, read_u16_at, read_u32_at, read_u64_at};
use crate::reconstruction::strings::StringDecryptor;
use vstd::prelude::*;

verus! {

/// The values that the header's decoding expressions produce, grouped by their last step:
/// an addition or subtraction, an xor, or a shift followed by an xor. Discovery tries them
/// as table offsets and counts.
#[derive(Clone, Debug)]
pub struct MhyCandidates {
    pub additive: Vec<u32>,
    pub xor: Vec<u32>,
    pub shift_xor: Vec<u32>,
}

/// Where discovery found each metadata table, and how many records the tables with a
/// separate count hold.
#[derive(Clone, Copy, Debug, PartialEq, Eq, Structural)]
pub struct MhyLayout {
    pub string_table_offset: usize,
    pub image_offset: usize,
    pub image_count: usize,
    pub type_definition_offset: usize,
    pub method_table: usize,
    pub field_table: usize,
    pub parameter_table: usize,
    pub string_literal_offsets: usize,
    pub string_literal_data: u32,
    pub property_table: usize,
    pub event_table: usize,
    pub interface_table: usize,
    pub vtable_method_table: usize,
    pub interface_offset_table: usize,
    pub field_default_table: usize,
    pub field_default_count: usize,
    pub parameter_default_table: usize,
    pub parameter_default_count: usize,
    pub default_value_data: usize,
    pub field_type_map: usize,
    pub field_offset_map: usize,
    pub field_offset_table: usize,
    pub generic_class_source: usize,
    pub generic_class_count: usize,
    pub method_pointer_map: usize,
    pub method_pointer_map_count: usize,
    pub generic_parameter_table: usize,
    pub generic_container_table: usize,
    pub generic_constraint_table: usize,
}

/// The largest generic parameter index that the first `n` runtime type records at
/// `types_offset` use, counting the records of kind 0x13 or 0x1e; the inner `None` when
/// there is none, the outer `None` when a record does not lie in `dll` or its index does
/// not fit a `usize`.
pub open spec fn largest_type_parameter(dll: Seq<u8>, types_offset: usize, n: nat) -> Option<Option<nat>>
    decreases n,
{
    if n == 0 {
        Some(None)
    } else {
        match largest_type_parameter(dll, types_offset, (n - 1) as nat) {
            None => None,
            Some(largest) => {
                let offset = types_offset + 16 * (n - 1);
                if !in_bounds(dll, offset, 16) {
                    None
                } else {
                    let kind = ((le_u32(dll, offset + 8) >> 16u32) & 0xff) as u8;
                    if kind != 0x13 && kind != 0x1e {
                        Some(largest)
                    } else {
                        let parameter = le_u64(dll, offset);
                        if parameter > usize::MAX {
                            None
                        } else {
                            Some(
                                Some(
                                    match largest {
                                        Some(m) => if parameter > m {
                                            parameter as nat
                                        } else {
                                            m
                                        },
                                        None => parameter as nat,
                                    },
                                ),
                            )
                        }
                    }
                }
            },
        }
    }
}

/// The number of generic parameters that the runtime types of `runtime` use.
pub open spec fn generic_parameter_count_spec(dll: Seq<u8>, pe: PeImage, runtime: RuntimeProfile) -> Option<usize> {
    match pe.file_offset_of(runtime.types_va) {
        None => None,
        Some(types_offset) => match largest_type_parameter(dll, types_offset, runtime.types_count as nat) {
            Some(Some(m)) => if m + 1 > usize::MAX {
                None
            } else {
                Some((m + 1) as usize)
            },
            _ => None,
        },
    }
}

fn generic_parameter_count(dll: &[u8], pe: &PeImage, runtime: &RuntimeProfile) -> (r: Option<usize>)
    ensures
        r == generic_parameter_count_spec(dll@, *pe, *runtime),
{
    let types_offset = pe.va_to_file_offset(runtime.types_va)?;
    let mut largest: Option<usize> = None;
    let mut index: usize = 0;
    while index < runtime.types_count
        invariant
            index <= runtime.types_count,
            pe.file_offset_of(runtime.types_va) == Some(types_offset),
            dll@.len() == dll.len(),
            largest_type_parameter(dll@, types_offset, index as nat) == Some(
                match largest {
                    Some(m) => Some(m as nat),
                    None => None,
                },
            ),
        decreases runtime.types_count - index,
    {
        if index > (usize::MAX - types_offset) / 16 {
            proof {
                lemma_type_parameter_stays(dll@, types_offset, (index + 1) as nat, runtime.types_count as nat);
            }
            return None;
        }
        let offset = types_offset + index * 16;
        if offset > dll.len() || dll.len() - offset < 16 {
            proof {
                lemma_type_parameter_stays(dll@, types_offset, (index + 1) as nat, runtime.types_count as nat);
            }
            return None;
        }
        let bits = read_u32_at(dll, offset + 8);
        let kind = ((bits >> 16) & 0xff) as u8;
        if kind == 0x13 || kind == 0x1e {
            let parameter = read_u64_at(dll, offset);
            if parameter > usize::MAX as u64 {
                proof {
                    lemma_type_parameter_stays(dll@, types_offset, (index + 1) as nat, runtime.types_count as nat);
                }
                return None;
            }
            let p = parameter as usize;
            largest = match largest {
                Some(m) => if p > m { Some(p) } else { Some(m) },
                None => Some(p),
            };
        }
        index = index + 1;
    }
    match largest {
        Some(m) => if m == usize::MAX { None } else { Some(m + 1) },
        None => None,
    }
}

proof fn lemma_type_parameter_stays(dll: Seq<u8>, types_offset: usize, n: nat, m: nat)
    requires
        n <= m,
        largest_type_parameter(dll, types_offset, n) is None,
    ensures
        largest_type_parameter(dll, types_offset, m) is None,
    decreases m - n,
{
    if n < m {
        lemma_type_parameter_stays(dll, types_offset, n, (m - 1) as nat);
    }
}


/// The score `score_generic_parameter_table` gives the `count` records at `base`.
pub open spec fn generic_parameter_table_score(body: Seq<u8>, names: Seq<u8>, table: nat, base: usize, count: usize) -> usize {
    sum_at(
        samples(count as nat, 4096),
        |i: int| generic_parameter_record_score(body, names, table, base as int, i),
        samples(count as nat, 4096).len(),
    ) as usize
}

/// The scores of a generic parameter table of `count` records at each of `candidates`.
pub open spec fn generic_parameter_scores(body: Seq<u8>, names: Seq<u8>, table: nat, candidates: Seq<u32>, count: usize) -> Seq<usize> {
    Seq::new(candidates.len(), |i: int| generic_parameter_table_score(body, names, table, candidates[i] as usize, count))
}

/// The score `score_generic_container_table` gives the `count` records at `base`.
pub open spec fn generic_container_table_score(body: Seq<u8>, base: usize, count: usize, parameter_count: usize) -> usize {
    count_where(
        samples(count as nat, 4096).len(),
        |k: int| container_record_plausible(body, base as int, parameter_count, samples(count as nat, 4096)[k] as int),
    ) as usize
}

/// The scores of a generic container table of `count` records at each of `candidates`.
pub open spec fn generic_container_scores(body: Seq<u8>, candidates: Seq<u32>, count: usize, parameter_count: usize) -> Seq<usize> {
    Seq::new(candidates.len(), |i: int| generic_container_table_score(body, candidates[i] as usize, count, parameter_count))
}

/// The score `score_generic_constraint_table` gives the `count` records at `base`.
pub open spec fn generic_constraint_table_score(body: Seq<u8>, base: usize, count: usize, type_count: usize) -> usize {
    count_where(count as nat, |i: int| constraint_ok(body, base as int, type_count, i)) as usize
}

/// The score `score_interface_table` gives the `count` records at `base`.
pub open spec fn interface_table_score(body: Seq<u8>, base: usize, count: usize) -> usize {
    count_where(count as nat, |i: int| interface_entry_ok(body, base as int, i)) as usize
}

/// The key of generic parameter record `index`, cut to 16 bits.
pub open spec fn parameter_key16(index: int) -> u16 {
    generic_parameter_term(index as u64) as u32 as u16
}

/// The container of generic parameter record `index` at `base`.
pub open spec fn parameter_container(body: Seq<u8>, base: int, index: int) -> i16 {
    ((le_u16(body, base + 14 * index + 8) ^ 0x7526u16).wrapping_sub(parameter_key16(index))) as i16
}

/// The first constraint of generic parameter record `index` at `base`.
pub open spec fn parameter_constraint_start(body: Seq<u8>, base: int, index: int) -> i16 {
    ((le_u16(body, base + 14 * index + 4) ^ 0x69b4u16).wrapping_sub(parameter_key16(index))) as i16
}

/// The number of constraints of generic parameter record `index` at `base`.
pub open spec fn parameter_constraint_length(body: Seq<u8>, base: int, index: int) -> i16 {
    ((le_u16(body, base + 14 * index + 6) ^ 0x0fd1u16).wrapping_sub(parameter_key16(index))) as i16
}

/// The largest container (-1 when there is none) and the end of the constraints that the
/// first `n` generic parameter records at `base` use; `None` when a container is negative.
pub open spec fn parameter_scan(body: Seq<u8>, base: int, n: nat) -> Option<(int, nat)>
    decreases n,
{
    if n == 0 {
        Some((-1, 0))
    } else {
        match parameter_scan(body, base, (n - 1) as nat) {
            None => None,
            Some((largest, constraints)) => {
                let i = n - 1;
                let container = parameter_container(body, base, i);
                if container < 0 {
                    None
                } else {
                    let start = parameter_constraint_start(body, base, i);
                    let length = parameter_constraint_length(body, base, i);
                    let end = start + length;
                    Some(
                        (
                            if container > largest {
                                container as int
                            } else {
                                largest
                            },
                            if start >= 0 && length >= 0 && end > constraints {
                                end as nat
                            } else {
                                constraints
                            },
                        ),
                    )
                }
            },
        }
    }
}

proof fn lemma_parameter_scan_stays(body: Seq<u8>, base: int, n: nat, m: nat)
    requires
        n <= m,
        parameter_scan(body, base, n) is None,
    ensures
        parameter_scan(body, base, m) is None,
    decreases m - n,
{
    if n < m {
        lemma_parameter_scan_stays(body, base, n, (m - 1) as nat);
    }
}

fn scan_parameters(body: &[u8], base: usize, count: usize) -> (r: Option<(usize, usize)>)
    requires
        base + 14 * count <= body@.len(),
        count > 0,
    ensures
        match parameter_scan(body@, base as int, count as nat) {
            None => r is None,
            Some((largest, constraints)) => r == Some((largest as usize, constraints as usize)) && 0 <= largest <= i16::MAX,
        },
{
    let mut largest: usize = 0;
    let mut any = false;
    let mut constraints: usize = 0;
    let mut index: usize = 0;
    while index < count
        invariant
            index <= count,
            base + 14 * count <= body@.len(),
            body@.len() == body.len(),
            parameter_scan(body@, base as int, index as nat) == Some((if any { largest as int } else { -1int }, constraints as nat)),
            any == (index > 0),
            largest <= i16::MAX,
            constraints <= 2 * 0x8000,
        decreases count - index,
    {
        assert(index * 14 + 14 <= 14 * count) by (nonlinear_arith)
            requires
                index < count,
        ;
        let offset = base + index * 14;
        let key = generic_parameter_key(index);
        let key16 = #[verifier::truncate] (#[verifier::truncate] (key as u32) as u16);
        let container = #[verifier::truncate] ((read_u16_at(body, offset + 8) ^ 0x7526).wrapping_sub(key16) as i16);
        if container < 0 {
            proof {
                lemma_parameter_scan_stays(body@, base as int, (index + 1) as nat, count as nat);
            }
            return None;
        }
        let c = container as usize;
        if !any || c > largest {
            largest = c;
        }
        any = true;
        let start = #[verifier::truncate] ((read_u16_at(body, offset + 4) ^ 0x69b4).wrapping_sub(key16) as i16);
        let length = #[verifier::truncate] ((read_u16_at(body, offset + 6) ^ 0x0fd1).wrapping_sub(key16) as i16);
        if start >= 0 && length >= 0 {
            let end = start as usize + length as usize;
            if end > constraints {
                constraints = end;
            }
        }
        index = index + 1;
    }
    Some((largest, constraints))
}

/// The constraint and interface table pairs among the first `n` additive candidates: the
/// interface table ends where the constraint table starts, its offset is an xor candidate,
/// and all its `interface_count` entries are plausible; each scored by its constraints.
pub open spec fn constraint_layouts(
    body: Seq<u8>,
    additive: Seq<u32>,
    xor: Seq<u32>,
    interface_count: usize,
    constraint_count: usize,
    type_count: usize,
    n: nat,
) -> Seq<(usize, (usize, usize))>
    decreases n,
{
    if n == 0 {
        Seq::empty()
    } else {
        let earlier = constraint_layouts(body, additive, xor, interface_count, constraint_count, type_count, (n - 1) as nat);
        let constraint_base = additive[n - 1] as usize;
        if interface_count * 4 > usize::MAX || constraint_base < interface_count * 4 {
            earlier
        } else {
            let interface_base = (constraint_base - interface_count * 4) as usize;
            if xor.contains(interface_base as u32) && interface_base <= u32::MAX && interface_table_score(body, interface_base, interface_count)
                == interface_count {
                earlier.push(
                    (
                        generic_constraint_table_score(body, constraint_base, constraint_count, type_count),
                        (constraint_base, interface_base),
                    ),
                )
            } else {
                earlier
            }
        }
    }
}

fn contains_u32(values: &Vec<u32>, value: usize) -> (r: bool)
    ensures
        r == (value <= u32::MAX && values@.contains(value as u32)),
{
    let mut i: usize = 0;
    while i < values.len()
        invariant
            i <= values@.len(),
            forall|j: int| 0 <= j < i ==> values@[j] as usize != value,
        decreases values.len() - i,
    {
        if values[i] as usize == value {
            assert(values@[i as int] == value as u32);
            return true;
        }
        i = i + 1;
    }
    proof {
        if value <= u32::MAX && values@.contains(value as u32) {
            let k = choose|k: int| 0 <= k < values@.len() && values@[k] == value as u32;
            assert(values@[k] as usize == value);
        }
    }
    false
}

fn collect_constraint_layouts(
    body: &[u8],
    additive: &Vec<u32>,
    xor: &Vec<u32>,
    interface_count: usize,
    constraint_count: usize,
    type_count: usize,
) -> (r: Vec<(usize, (usize, usize))>)
    ensures
        r@ == constraint_layouts(body@, additive@, xor@, interface_count, constraint_count, type_count, additive@.len()),
{
    let mut layouts: Vec<(usize, (usize, usize))> = Vec::new();
    let mut k: usize = 0;
    while k < additive.len()
        invariant
            k <= additive@.len(),
            layouts@ == constraint_layouts(body@, additive@, xor@, interface_count, constraint_count, type_count, k as nat),
        decreases additive.len() - k,
    {
        let constraint_base = additive[k] as usize;
        if interface_count <= usize::MAX / 4 && constraint_base >= interface_count * 4 {
            let interface_base = constraint_base - interface_count * 4;
            let score = score_generic_constraint_table(body, constraint_base, constraint_count, type_count);
            if contains_u32(xor, interface_base) && score_interface_table(body, interface_base, interface_count) == interface_count {
                layouts.push((score, (constraint_base, interface_base)));
            }
        }
        k = k + 1;
    }
    layouts
}


/// The generic metadata tables that discovery picks, with the numbers of generic
/// parameters and containers: the parameter table is the additive candidate that scores
/// best for the parameters the runtime types use; its records give the containers and
/// constraints; the container table is the additive candidate that scores best; and the
/// constraint table, with the interface table just before it, is the unique best of
/// `constraint_layouts`. `None` when a step finds nothing or is ambiguous.
#[verifier::opaque]
pub open spec fn generic_metadata_layout_spec(
    body: Seq<u8>,
    names: Seq<u8>,
    table: nat,
    candidates_additive: Seq<u32>,
    candidates_xor: Seq<u32>,
    dll: Seq<u8>,
    pe: PeImage,
    runtime: RuntimeProfile,
    interface_count: usize,
    layout: MhyLayout,
) -> Option<(MhyLayout, usize, usize)> {
    let additive = sorted_distinct(candidates_additive);
    let xor = sorted_distinct(candidates_xor);
    match generic_parameter_count_spec(dll, pe, runtime) {
        None => None,
        Some(parameter_count) => if parameter_count * 14 > usize::MAX {
            None
        } else {
            let parameter_size = (parameter_count * 14) as usize;
            match table_choice(additive, body.len(), parameter_size as nat, generic_parameter_scores(body, names, table, additive, parameter_count)) {
                None => None,
                Some(parameter_base) => match parameter_scan(body, parameter_base as int, parameter_count as nat) {
                    None => None,
                    Some((largest, constraint_count)) => {
                        let container_count = (largest + 1) as usize;
                        if container_count * 16 > usize::MAX {
                            None
                        } else {
                            match table_choice(additive, body.len(), (container_count * 16) as nat, generic_container_scores(body, additive, container_count, parameter_count)) {
                                None => None,
                                Some(container_base) => match unique_best_spec(
                                    constraint_layouts(body, additive, xor, interface_count, constraint_count as usize, runtime.types_count, additive.len()),
                                ) {
                                    None => None,
                                    Some((_, (constraint_base, interface_base))) => Some(
                                        (
                                            MhyLayout {
                                                generic_parameter_table: parameter_base,
                                                generic_container_table: container_base,
                                                generic_constraint_table: constraint_base,
                                                interface_table: interface_base,
                                                ..layout
                                            },
                                            parameter_count,
                                            container_count,
                                        ),
                                    ),
                                },
                            }
                        }
                    },
                },
            }
        },
    }
}

/// Classifies the generic parameter, container and constraint tables and the interface
/// table among the header's candidates; see `generic_metadata_layout_spec`.
pub fn discover_generic_metadata_layout(
    global_body: &[u8],
    layout: MhyLayout,
    candidates: &MhyCandidates,
    dll: &[u8],
    pe: &PeImage,
    runtime: &RuntimeProfile,
    decryptor: &StringDecryptor,
    interface_count: usize,
) -> (r: Option<(MhyLayout, usize, usize)>)
    ensures
        r == generic_metadata_layout_spec(
            global_body@,
            decryptor.body(),
            decryptor.table(),
            candidates.additive@,
            candidates.xor@,
            dll@,
            *pe,
            *runtime,
            interface_count,
            layout,
        ),
{
    reveal(generic_metadata_layout_spec);
    let parameter_count = generic_parameter_count(dll, pe, runtime)?;
    let additive = unique_values(candidates.additive.as_slice());
    let xor = unique_values(candidates.xor.as_slice());
    if parameter_count > usize::MAX / 14 {
        return None;
    }
    let parameter_size = parameter_count * 14;
    let ghost names = decryptor.body();
    let ghost table = decryptor.table();
    let score_parameters = |base: usize| -> (v: usize)
        ensures
            v == generic_parameter_table_score(global_body@, decryptor.body(), decryptor.table(), base, parameter_count),
        { score_generic_parameter_table(global_body, decryptor, base, parameter_count) };
    let parameter_base = select_table_offset(additive.as_slice(), global_body.len(), parameter_size, score_parameters);
    proof {
        lemma_table_choice(score_parameters, additive@, global_body.len(), parameter_size, generic_parameter_scores(global_body@, names, table, additive@, parameter_count), parameter_base);
        lemma_table_choice_fits(additive@, global_body.len() as nat, parameter_size as nat, generic_parameter_scores(global_body@, names, table, additive@, parameter_count));
    }
    let parameter_base = parameter_base?;
    assert(parameter_count >= 1);
    let (largest, constraint_count) = scan_parameters(global_body, parameter_base, parameter_count)?;
    let container_count = largest + 1;
    if container_count > usize::MAX / 16 {
        return None;
    }
    let score_containers = |base: usize| -> (v: usize)
        ensures
            v == generic_container_table_score(global_body@, base, container_count, parameter_count),
        { score_generic_container_table(global_body, base, container_count, parameter_count) };
    let container_size = container_count * 16;
    let container_base = select_table_offset(additive.as_slice(), global_body.len(), container_size, score_containers);
    proof {
        lemma_table_choice(score_containers, additive@, global_body.len(), container_size, generic_container_scores(global_body@, additive@, container_count, parameter_count), container_base);
    }
    let container_base = container_base?;
    let layouts = collect_constraint_layouts(global_body, &additive, &xor, interface_count, constraint_count, runtime.types_count);
    let (_, (constraint_base, interface_base)) = unique_best(layouts)?;
    Some((
        MhyLayout {
            generic_parameter_table: parameter_base,
            generic_container_table: container_base,
            generic_constraint_table: constraint_base,
            interface_table: interface_base,
            ..layout
        },
        parameter_count,
        container_count,
    ))
}

} // verus!
