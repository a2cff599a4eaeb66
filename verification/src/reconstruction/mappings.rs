use super::generics::records_within;
use super::methods::MethodDef;
use super::types::TypeDef;
use crate::bytes::{le_i32, le_u16, le_u64, read_i32_at, read_u16_at, read_u64_at};
use crate::discovery::mhy::MhyHeader;
use crate::discovery::profile::BuildProfile;
use std::collections::HashMap;
use vstd::prelude::*;

verus! {

/// A method and the address of its code.
pub struct MethodMappingEntry {
    pub method_idx: u32,
    pub pointer: u64,
}

/// The pointer slot that each of the first `n` records of the slot table at `base` gives its
/// method (the last record of a method wins).
pub open spec fn pointer_slots(body: Seq<u8>, base: int, n: nat) -> Map<usize, usize>
    decreases n,
{
    if n == 0 {
        Map::empty()
    } else {
        let earlier = pointer_slots(body, base, (n - 1) as nat);
        let record = base + 6 * (n - 1);
        earlier.insert(le_i32(body, record) as usize, le_u16(body, record + 4) as usize)
    }
}

/// The 64-bit entry `index` of the pointer table at `base` of `dll`; 0 where it lies outside.
pub open spec fn table_pointer(dll: Seq<u8>, base: int, index: int) -> u64 {
    if base + 8 * index + 8 <= dll.len() {
        le_u64(dll, base + 8 * index)
    } else {
        0
    }
}

/// The address of method `m`: its entry in the primary table through its pointer slot, or,
/// where that is missing or zero, its entry in the fallback table.
pub open spec fn method_pointer(
    dll: Seq<u8>,
    primary: int,
    fallback: int,
    slots: Map<usize, usize>,
    m: int,
) -> u64 {
    let first = if slots.contains_key(m as usize) {
        table_pointer(dll, primary, slots[m as usize] as int)
    } else {
        0
    };
    if first != 0 {
        first
    } else {
        table_pointer(dll, fallback, m)
    }
}

/// Whether one of the first `k` types is generic and holds method `m`.
pub open spec fn in_generic_type(types: Seq<TypeDef>, k: int, m: int) -> bool {
    exists|t: int|
        0 <= t < k && #[trigger] types[t].generic_container_index >= 0 && types[t].m_start <= m
            < types[t].m_start + types[t].m_count
}

/// Whether method `m` has no code of its own to map: it belongs to a generic type, is
/// generic itself, or carries flag 0x0400.
pub open spec fn method_unavailable(types: Seq<TypeDef>, methods: Seq<MethodDef>, m: int) -> bool {
    ||| in_generic_type(types, types.len() as int, m)
    ||| methods[m].generic_container_index >= 0
    ||| methods[m].flags & 0x0400 != 0
}

/// The mappings of the first `n` methods: each available method whose address lies in
/// `[min_va, max_va)`, in method order.
pub open spec fn method_mappings(
    dll: Seq<u8>,
    types: Seq<TypeDef>,
    methods: Seq<MethodDef>,
    slots: Map<usize, usize>,
    primary: int,
    fallback: int,
    min_va: u64,
    max_va: u64,
    n: nat,
) -> Seq<(u32, u64)>
    decreases n,
{
    if n == 0 {
        Seq::empty()
    } else {
        let earlier = method_mappings(
            dll,
            types,
            methods,
            slots,
            primary,
            fallback,
            min_va,
            max_va,
            (n - 1) as nat,
        );
        let m = n - 1;
        let ptr = method_pointer(dll, primary, fallback, slots, m);
        if !method_unavailable(types, methods, m) && min_va <= ptr < max_va {
            earlier.push((m as u32, ptr))
        } else {
            earlier
        }
    }
}

/// Pairs each method that has code of its own with the address of that code in `dll`, keeping
/// those inside the method-pointer range of `profile`.
pub fn extract_method_mappings(
    global_body: &[u8],
    dll: &[u8],
    mhy: &MhyHeader,
    types: &[TypeDef],
    methods: &[MethodDef],
    profile: &BuildProfile,
) -> (r: Vec<MethodMappingEntry>)
    ensures
        ({
            let expected = method_mappings(
                dll@,
                types@,
                methods@,
                pointer_slots(
                    global_body@,
                    mhy.table42_base() as int,
                    vstd::math::min(
                        mhy.table42_count() as int,
                        records_within(global_body@.len(), mhy.table42_base() as nat, 6) as int,
                    ) as nat,
                ),
                profile.primary_method_pointer_file_offset as int,
                profile.fallback_method_pointer_file_offset as int,
                profile.minimum_method_pointer_va,
                profile.maximum_method_pointer_va,
                methods@.len(),
            );
            &&& r@.len() == expected.len()
            &&& forall|i: int|
                0 <= i < r@.len() ==> (#[trigger] r@[i]).method_idx == expected[i].0
                    && r@[i].pointer == expected[i].1
        }),
{
    broadcast use vstd::std_specs::hash::group_hash_axioms;

    let slots = read_pointer_slots(global_body, mhy.table42_base(), mhy.table42_count());
    let unavailable = unavailable_methods(types, methods);
    let p58_off = profile.primary_method_pointer_file_offset;
    let p17_off = profile.fallback_method_pointer_file_offset;
    let ghost expected = |n: nat|
        method_mappings(
            dll@,
            types@,
            methods@,
            slots@,
            p58_off as int,
            p17_off as int,
            profile.minimum_method_pointer_va,
            profile.maximum_method_pointer_va,
            n,
        );
    let mut mappings: Vec<MethodMappingEntry> = Vec::new();
    let mut m_idx: usize = 0;
    while m_idx < unavailable.len()
        invariant
            m_idx <= unavailable@.len(),
            unavailable@.len() == methods@.len(),
            forall|m: int|
                0 <= m < methods@.len() ==> #[trigger] unavailable@[m] == method_unavailable(
                    types@,
                    methods@,
                    m,
                ),
            p58_off == profile.primary_method_pointer_file_offset,
            p17_off == profile.fallback_method_pointer_file_offset,
            expected == (|n: nat|
                method_mappings(
                    dll@,
                    types@,
                    methods@,
                    slots@,
                    p58_off as int,
                    p17_off as int,
                    profile.minimum_method_pointer_va,
                    profile.maximum_method_pointer_va,
                    n,
                )),
            mappings@.len() == expected(m_idx as nat).len(),
            forall|i: int|
                0 <= i < mappings@.len() ==> (#[trigger] mappings@[i]).method_idx == expected(
                    m_idx as nat,
                )[i].0 && mappings@[i].pointer == expected(m_idx as nat)[i].1,
        decreases unavailable.len() - m_idx,
    {
        if !unavailable[m_idx] {
            let ptr = pointer_of(dll, p58_off, p17_off, &slots, m_idx);
            if profile.minimum_method_pointer_va <= ptr && ptr < profile.maximum_method_pointer_va {
                mappings.push(
                    MethodMappingEntry {
                        method_idx: #[verifier::truncate] (m_idx as u32),
                        pointer: ptr,
                    },
                );
            }
        }
        m_idx = m_idx + 1;
    }
    mappings
}

fn read_pointer_slots(global_body: &[u8], t42_base: usize, t42_count: usize) -> (r: HashMap<
    usize,
    usize,
>)
    ensures
        r@ == pointer_slots(
            global_body@,
            t42_base as int,
            vstd::math::min(
                t42_count as int,
                records_within(global_body@.len(), t42_base as nat, 6) as int,
            ) as nat,
        ),
{
    broadcast use vstd::std_specs::hash::group_hash_axioms;

    let room = if t42_base <= global_body.len() {
        (global_body.len() - t42_base) / 6
    } else {
        0
    };
    let n = if t42_count < room {
        t42_count
    } else {
        room
    };
    let mut slots: HashMap<usize, usize> = HashMap::new();
    let mut i: usize = 0;
    while i < n
        invariant
            i <= n,
            n <= room,
            room == records_within(global_body@.len(), t42_base as nat, 6),
            slots@ == pointer_slots(global_body@, t42_base as int, i as nat),
        decreases n - i,
    {
        assert(global_body@.len() == global_body.len());
        let off = t42_base + i * 6;
        let midx = read_i32_at(global_body, off) as usize;
        let pidx = read_u16_at(global_body, off + 4) as usize;
        slots.insert(midx, pidx);
        i = i + 1;
    }
    slots
}

fn read_table_pointer(dll: &[u8], base: usize, index: usize) -> (r: u64)
    ensures
        r == table_pointer(dll@, base as int, index as int),
{
    assert(dll@.len() == dll.len());
    if base <= dll.len() && index <= (dll.len() - base) / 8 && (dll.len() - base) - index * 8 >= 8 {
        read_u64_at(dll, base + index * 8)
    } else {
        0
    }
}

fn pointer_of(
    dll: &[u8],
    p58_off: usize,
    p17_off: usize,
    slots: &HashMap<usize, usize>,
    m_idx: usize,
) -> (r: u64)
    ensures
        r == method_pointer(dll@, p58_off as int, p17_off as int, slots@, m_idx as int),
{
    broadcast use vstd::std_specs::hash::group_hash_axioms;

    let mut ptr: u64 = 0;
    match slots.get(&m_idx) {
        Some(pidx) => {
            ptr = read_table_pointer(dll, p58_off, *pidx);
        },
        None => {},
    }
    if ptr == 0 {
        ptr = read_table_pointer(dll, p17_off, m_idx);
    }
    ptr
}

fn unavailable_methods(types: &[TypeDef], methods: &[MethodDef]) -> (r: Vec<bool>)
    ensures
        r@.len() == methods@.len(),
        forall|m: int|
            0 <= m < methods@.len() ==> #[trigger] r@[m] == method_unavailable(types@, methods@, m),
{
    let mut unavailable: Vec<bool> = Vec::new();
    let mut i: usize = 0;
    while i < methods.len()
        invariant
            i <= methods@.len(),
            unavailable@.len() == i,
            forall|m: int| 0 <= m < i ==> !#[trigger] unavailable@[m],
        decreases methods.len() - i,
    {
        unavailable.push(false);
        i = i + 1;
    }
    let mut t: usize = 0;
    while t < types.len()
        invariant
            t <= types@.len(),
            unavailable@.len() == methods@.len(),
            forall|m: int|
                0 <= m < methods@.len() ==> #[trigger] unavailable@[m] == in_generic_type(
                    types@,
                    t as int,
                    m,
                ),
        decreases types.len() - t,
    {
        let type_definition = &types[t];
        if type_definition.generic_container_index >= 0 {
            let start = type_definition.m_start as usize;
            let limit = start.saturating_add(type_definition.m_count as usize);
            let end = if limit < unavailable.len() {
                limit
            } else {
                unavailable.len()
            };
            let mut j: usize = start;
            while j < end
                invariant
                    start <= j,
                    j <= end || end < start,
                    end <= unavailable@.len(),
                    unavailable@.len() == methods@.len(),
                    t < types@.len(),
                    types@[t as int].generic_container_index >= 0,
                    start == types@[t as int].m_start,
                    forall|m: int|
                        0 <= m < methods@.len() ==> #[trigger] unavailable@[m] == (
                        in_generic_type(types@, t as int, m) || (start <= m < j)),
                decreases end - j,
            {
                unavailable.set(j, true);
                j = j + 1;
            }
            assert forall|m: int| 0 <= m < methods@.len() implies #[trigger] unavailable@[m]
                == in_generic_type(types@, t + 1, m) by {
                if in_generic_type(types@, t + 1, m) && !in_generic_type(types@, t as int, m) {
                    let w = choose|w: int|
                        0 <= w < t + 1 && #[trigger] types@[w].generic_container_index >= 0
                            && types@[w].m_start <= m < types@[w].m_start + types@[w].m_count;
                    assert(w == t);
                }
                if start <= m < j {
                    assert(types@[t as int].generic_container_index >= 0);
                }
            }
        } else {
            assert forall|m: int| 0 <= m < methods@.len() implies #[trigger] unavailable@[m]
                == in_generic_type(types@, t + 1, m) by {
                if in_generic_type(types@, t + 1, m) {
                    let w = choose|w: int|
                        0 <= w < t + 1 && #[trigger] types@[w].generic_container_index >= 0
                            && types@[w].m_start <= m < types@[w].m_start + types@[w].m_count;
                    assert(w != t);
                }
            }
        }
        t = t + 1;
    }
    let mut index: usize = 0;
    while index < methods.len()
        invariant
            index <= methods@.len(),
            unavailable@.len() == methods@.len(),
            forall|m: int|
                0 <= m < methods@.len() ==> #[trigger] unavailable@[m] == (in_generic_type(
                    types@,
                    types@.len() as int,
                    m,
                ) || (m < index && (methods@[m].generic_container_index >= 0 || methods@[m].flags
                    & 0x0400 != 0))),
        decreases methods.len() - index,
    {
        let method = &methods[index];
        if method.generic_container_index >= 0 || method.flags & 0x0400 != 0 {
            unavailable.set(index, true);
        }
        index = index + 1;
    }
    unavailable
}

} // verus!
