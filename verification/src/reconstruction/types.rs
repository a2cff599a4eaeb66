use super::strings::{
    decimal_digits, decrypted_string, name_or, numbered_name, str_equals, str_starts_with,
    StringDecryptor,
};
use crate::discovery::mhy::MhyHeader;
use crate::discovery::profile::BuildProfile;
use crate::bytes::{
    get_i32, in_bounds, le_i32, le_u16, le_u32, read_i32_at, read_u16_at, read_u32_at,
};
use std::collections::HashMap;
use vstd::prelude::*;

verus! {

/// A type definition, decoded from its 70-byte record.
pub struct TypeDef {
    pub name: String,
    pub ns: String,
    pub name_off: u32,
    pub ns_off: u32,
    pub byval_type_index: i32,
    pub type_index: i32,
    pub declaring_type_index: i32,
    pub parent_index: i32,
    pub generic_container_index: i32,
    pub flags: u32,
    pub bitfield: u32,
    pub f_start: i32,
    pub f_count: u16,
    pub m_start: u32,
    pub m_count: u16,
    pub if_start: i32,
    pub if_count: u16,
    pub nested_start: i32,
    pub nested_count: u16,
    pub property_start: i32,
    pub property_count: u16,
    pub event_start: i32,
    pub event_count: u16,
    pub vtable_start: i32,
    pub vtable_count: u16,
    pub interface_offset_start: i32,
    pub interface_offset_count: u16,
}

/// A field definition.
pub struct FieldDef {
    pub name: String,
    pub name_off: u32,
    pub type_index: i32,
    pub token: u32,
}

/// The runtime offset of field `field_idx_in_type` of type `type_idx`.
pub struct FieldOffsetEntry {
    pub type_idx: u32,
    pub field_idx_in_type: u32,
    pub offset: u32,
}

/// The range of a type's entries in the interface table.
#[derive(Clone, Copy, Debug, PartialEq, Eq)]
pub struct InterfaceRange {
    pub start: usize,
    pub count: usize,
}

/// The byte at `off` of `s`, if there is one.
pub open spec fn byte_at(s: Seq<u8>, off: int) -> Option<u8> {
    if 0 <= off < s.len() {
        Some(s[off])
    } else {
        None
    }
}

fn get_byte(s: &[u8], off: usize) -> (r: Option<u8>)
    ensures
        r == byte_at(s@, off as int),
{
    if off < s.len() {
        Some(s[off])
    } else {
        None
    }
}

fn offset_of(base: usize, index: usize, size: usize, field: usize) -> (r: Option<usize>)
    ensures
        r matches Some(v) ==> v == base + index * size + field,
        r is None ==> base + index * size + field > usize::MAX,
{
    let scaled = index.checked_mul(size)?;
    let with_base = base.checked_add(scaled)?;
    with_base.checked_add(field)
}

/// The interface range of the type record at `offset`, its count taken relative to `bias`.
#[verifier::opaque]
pub open spec fn interface_range_at(body: Seq<u8>, offset: int, bias: u8) -> InterfaceRange {
    InterfaceRange {
        start: if in_bounds(body, offset + 54, 2) {
            (le_u16(body, offset + 54) ^ 0xc28c) as usize
        } else {
            0xffff
        },
        count: match byte_at(body, offset + 68) {
            Some(value) => (bias ^ value) as usize,
            None => 0,
        },
    }
}

/// Reading a type's interface range undoes how it is stored: a record whose start word holds
/// the first interface XORed with 0xC28C and whose count byte holds the count XORed with the
/// table's bias gives back that start and count.
pub proof fn lemma_interface_range_stored(body: Seq<u8>, offset: int, bias: u8, start: u16, count: u8)
    requires
        in_bounds(body, offset + 54, 2),
        0 <= offset + 68 < body.len(),
        le_u16(body, offset + 54) == start ^ 0xC2_8Cu16,
        body[offset + 68] == count ^ bias,
    ensures
        interface_range_at(body, offset, bias) == (InterfaceRange { start: start as usize, count: count as usize }),
{
    reveal(interface_range_at);
    assert((start ^ 0xC28Cu16) ^ 0xC28Cu16 == start) by (bit_vector);
    assert(bias ^ (count ^ bias) == count) by (bit_vector);
}

/// The interface ranges of the `count` type records from `offset` on; the interface count
/// byte of the first record is the bias that every count is taken relative to.
pub fn decode_interface_ranges(
    global_body: &[u8],
    type_definition_offset: usize,
    type_definition_count: usize,
) -> (r: Vec<InterfaceRange>)
    ensures
        r@.len() == type_definition_count,
        forall|i: int|
            0 <= i < type_definition_count ==> #[trigger] r@[i] == interface_range_at(
                global_body@,
                type_definition_offset + 70 * i,
                match byte_at(global_body@, type_definition_offset + 68) {
                    Some(b) => b,
                    None => 0,
                },
            ),
{
    assert(global_body@.len() == global_body.len());
    let count_bias = match offset_of(type_definition_offset, 0, 70, 68) {
        Some(at) => match get_byte(global_body, at) {
            Some(value) => value,
            None => 0,
        },
        None => 0,
    };
    let mut ranges: Vec<InterfaceRange> = Vec::new();
    let mut index: usize = 0;
    while index < type_definition_count
        invariant
            index <= type_definition_count,
            global_body@.len() == global_body.len(),
            count_bias == match byte_at(global_body@, type_definition_offset + 68) {
                Some(b) => b,
                None => 0,
            },
            ranges@.len() == index,
            forall|i: int|
                0 <= i < index ==> #[trigger] ranges@[i] == interface_range_at(
                    global_body@,
                    type_definition_offset + 70 * i,
                    count_bias,
                ),
        decreases type_definition_count - index,
    {
        proof {
            reveal(interface_range_at);
        }
        let start = match offset_of(type_definition_offset, index, 70, 54) {
            Some(at) => if at <= global_body.len() && global_body.len() - at >= 2 {
                (read_u16_at(global_body, at) ^ 0xc28c) as usize
            } else {
                0xffff
            },
            None => 0xffff,
        };
        let count = match offset_of(type_definition_offset, index, 70, 68) {
            Some(at) => match get_byte(global_body, at) {
                Some(value) => (count_bias ^ value) as usize,
                None => 0,
            },
            None => 0,
        };
        ranges.push(InterfaceRange { start, count });
        index = index + 1;
    }
    ranges
}

/// The generic container index of the type record at `offset`, or -1 when it is past the body.
pub open spec fn type_generic_container_at(body: Seq<u8>, offset: int) -> i32 {
    if in_bounds(body, offset + 60, 2) {
        le_u16(body, offset + 60).wrapping_add(21_508) as i16 as i32
    } else {
        -1i32
    }
}

/// Reading a type's generic container undoes how it is stored: a record whose container word
/// holds the container index less 21508 (modulo 2^16, so that no container, -1, is stored as
/// 0xABFB) gives back that index.
pub proof fn lemma_type_container_stored(body: Seq<u8>, offset: int, container: i16)
    requires
        in_bounds(body, offset + 60, 2),
        le_u16(body, offset + 60) == (container as u16).wrapping_sub(21508u16),
    ensures
        type_generic_container_at(body, offset) == container as i32,
{
    let c = container as u16;
    assert(c.wrapping_sub(21508).wrapping_add(21508) == c);
    assert((c as i16) == container) by (bit_vector)
        requires
            c == container as u16,
    ;
}

/// The generic container index of each of the `count` type records from `offset` on.
pub fn decode_type_generic_containers(
    global_body: &[u8],
    type_definition_offset: usize,
    type_definition_count: usize,
) -> (r: Vec<i32>)
    ensures
        r@.len() == type_definition_count,
        forall|i: int|
            0 <= i < type_definition_count ==> #[trigger] r@[i] == type_generic_container_at(
                global_body@,
                type_definition_offset + 70 * i,
            ),
{
    let mut result: Vec<i32> = Vec::new();
    let mut index: usize = 0;
    while index < type_definition_count
        invariant
            index <= type_definition_count,
            global_body@.len() == global_body.len(),
            result@.len() == index,
            forall|i: int|
                0 <= i < index ==> #[trigger] result@[i] == type_generic_container_at(
                    global_body@,
                    type_definition_offset + 70 * i,
                ),
        decreases type_definition_count - index,
    {
        let value = match offset_of(type_definition_offset, index, 70, 60) {
            Some(at) => if at <= global_body.len() && global_body.len() - at >= 2 {
                read_u16_at(global_body, at).wrapping_add(21_508) as i16 as i32
            } else {
                -1
            },
            None => -1,
        };
        result.push(value);
        index = index + 1;
    }
    result
}

/// The state after scanning the first `n` type records for `System.Enum` and
/// `System.ValueType`: their by-value type indices (or -1), and whether the scan has stopped,
/// either at a record past the body or once both are found.
pub open spec fn core_type_scan(
    body: Seq<u8>,
    names: Seq<u8>,
    table: nat,
    offset: int,
    n: nat,
) -> (i32, i32, bool)
    decreases n,
{
    if n == 0 {
        (-1i32, -1i32, false)
    } else {
        let (enum_index, value_type_index, stopped) = core_type_scan(
            body,
            names,
            table,
            offset,
            (n - 1) as nat,
        );
        let record = offset + 70 * (n - 1);
        if stopped {
            (enum_index, value_type_index, true)
        } else if !in_bounds(body, record, 70) {
            (enum_index, value_type_index, true)
        } else {
            let name = decrypted_string(
                names,
                table,
                (le_i32(body, record + 40) as u32).wrapping_sub(369_268_488),
            );
            let namespace = decrypted_string(
                names,
                table,
                (le_i32(body, record + 36) as u32).wrapping_add(0xF1D3_2D89),
            );
            if (name != "Enum"@ && name != "ValueType"@) || namespace != "System"@ {
                (enum_index, value_type_index, false)
            } else {
                let byval = (le_u32(body, record + 16) ^ 0x39F5_4DE4) as i32;
                let (e, v) = if name == "Enum"@ {
                    (byval, value_type_index)
                } else {
                    (enum_index, byval)
                };
                (e, v, e >= 0 && v >= 0)
            }
        }
    }
}

/// The core type indices that the scan reports are those of types that decoding names so: when
/// the scan of the first `n` records reports an index for `System.Enum` (or
/// `System.ValueType`), one of those records lies in the body and decodes to a type named
/// `Enum` (or `ValueType`) in namespace `System` whose by-value type index is that index.
pub proof fn lemma_core_types_are_decoded(
    body: Seq<u8>,
    names: Seq<u8>,
    table: nat,
    offset: int,
    n: nat,
    containers: Seq<i32>,
    enum_index: i32,
    value_type_index: i32,
    interfaces: InterfaceRange,
    f_start: i32,
)
    ensures
        core_type_scan(body, names, table, offset, n).0 != -1 ==> exists|k: int|
            0 <= k < n && in_bounds(body, offset + 70 * k, 70) && {
                let t = #[trigger] decoded_type(
                    body, names, table, containers, enum_index, value_type_index, interfaces, offset + 70 * k, k, f_start,
                );
                t.name == "Enum"@ && t.ns == "System"@ && t.byval_type_index == core_type_scan(
                    body, names, table, offset, n,
                ).0
            },
        core_type_scan(body, names, table, offset, n).1 != -1 ==> exists|k: int|
            0 <= k < n && in_bounds(body, offset + 70 * k, 70) && {
                let t = #[trigger] decoded_type(
                    body, names, table, containers, enum_index, value_type_index, interfaces, offset + 70 * k, k, f_start,
                );
                t.name == "ValueType"@ && t.ns == "System"@ && t.byval_type_index == core_type_scan(
                    body, names, table, offset, n,
                ).1
            },
    decreases n,
{
    if n > 0 {
        lemma_core_types_are_decoded(
            body, names, table, offset, (n - 1) as nat, containers, enum_index, value_type_index, interfaces, f_start,
        );
        let k = n - 1;
        let record = offset + 70 * k;
        let t = decoded_type(body, names, table, containers, enum_index, value_type_index, interfaces, record, k, f_start);
        reveal(decoded_type);
        reveal_strlit("Enum");
        reveal_strlit("ValueType");
        let earlier = core_type_scan(body, names, table, offset, (n - 1) as nat);
        let now = core_type_scan(body, names, table, offset, n);
        if now.0 != earlier.0 {
            assert(t.name == "Enum"@ && t.ns == "System"@ && t.byval_type_index == now.0);
        }
        if now.1 != earlier.1 {
            assert(t.name == "ValueType"@ && t.ns == "System"@ && t.byval_type_index == now.1);
        }
    }
}

/// The by-value type indices of `System.Enum` and `System.ValueType`, or -1 where absent.
pub fn find_core_type_indices(
    global_body: &[u8],
    decryptor: &StringDecryptor,
    type_definition_offset: usize,
    type_definition_count: usize,
) -> (r: (i32, i32))
    ensures
        r.0 == core_type_scan(
            global_body@,
            decryptor.body(),
            decryptor.table(),
            type_definition_offset as int,
            type_definition_count as nat,
        ).0,
        r.1 == core_type_scan(
            global_body@,
            decryptor.body(),
            decryptor.table(),
            type_definition_offset as int,
            type_definition_count as nat,
        ).1,
{
    let mut enum_index: i32 = -1;
    let mut value_type_index: i32 = -1;
    let mut index: usize = 0;
    while index < type_definition_count
        invariant_except_break
            (enum_index, value_type_index, false) == core_type_scan(
                global_body@,
                decryptor.body(),
                decryptor.table(),
                type_definition_offset as int,
                index as nat,
            ),
        invariant
            index <= type_definition_count,
            global_body@.len() == global_body.len(),
        ensures
            enum_index == core_type_scan(
                global_body@,
                decryptor.body(),
                decryptor.table(),
                type_definition_offset as int,
                type_definition_count as nat,
            ).0,
            value_type_index == core_type_scan(
                global_body@,
                decryptor.body(),
                decryptor.table(),
                type_definition_offset as int,
                type_definition_count as nat,
            ).1,
        decreases type_definition_count - index,
    {
        let offset = match offset_of(type_definition_offset, index, 70, 0) {
            Some(value) => value,
            None => {
                proof {
                    lemma_core_scan_stopped(
                        global_body@,
                        decryptor.body(),
                        decryptor.table(),
                        type_definition_offset as int,
                        (index + 1) as nat,
                        type_definition_count as nat,
                    );
                }
                break;
            },
        };
        if offset > global_body.len() || global_body.len() - offset < 70 {
            proof {
                lemma_core_scan_stopped(
                    global_body@,
                    decryptor.body(),
                    decryptor.table(),
                    type_definition_offset as int,
                    (index + 1) as nat,
                    type_definition_count as nat,
                );
            }
            break;
        }
        let name = decryptor.decrypt_string(
            (read_i32_at(global_body, offset + 40) as u32).wrapping_sub(369_268_488),
        );
        let is_enum = str_equals(name.as_str(), "Enum");
        let is_value_type = str_equals(name.as_str(), "ValueType");
        if !is_enum && !is_value_type {
            index = index + 1;
            continue;
        }
        let namespace = decryptor.decrypt_string(
            (read_i32_at(global_body, offset + 36) as u32).wrapping_add(0xF1D3_2D89),
        );
        if !str_equals(namespace.as_str(), "System") {
            index = index + 1;
            continue;
        }
        let byval_type_index = (read_u32_at(global_body, offset + 16) ^ 0x39F5_4DE4) as i32;
        if is_enum {
            enum_index = byval_type_index;
        } else {
            value_type_index = byval_type_index;
        }
        if enum_index >= 0 && value_type_index >= 0 {
            proof {
                lemma_core_scan_stopped(
                    global_body@,
                    decryptor.body(),
                    decryptor.table(),
                    type_definition_offset as int,
                    (index + 1) as nat,
                    type_definition_count as nat,
                );
            }
            break;
        }
        index = index + 1;
    }
    (enum_index, value_type_index)
}

/// Once the scan has stopped, later records change nothing.
pub proof fn lemma_core_scan_stopped(
    body: Seq<u8>,
    names: Seq<u8>,
    table: nat,
    offset: int,
    n: nat,
    m: nat,
)
    requires
        n <= m,
        core_type_scan(body, names, table, offset, n).2,
    ensures
        core_type_scan(body, names, table, offset, m) == core_type_scan(
            body,
            names,
            table,
            offset,
            n,
        ),
    decreases m - n,
{
    if n < m {
        lemma_core_scan_stopped(body, names, table, offset, n, (m - 1) as nat);
    }
}

/// The last type before `n` whose by-value type index is `k`.
pub open spec fn last_with_byval(types: Seq<TypeDef>, k: i32, n: nat) -> Option<int>
    decreases n,
{
    if n == 0 {
        None
    } else if types[n - 1].byval_type_index == k {
        Some(n - 1)
    } else {
        last_with_byval(types, k, (n - 1) as nat)
    }
}

/// The type that declares type `c`: the last one whose by-value type index is the declaring
/// type index of `c`.
pub open spec fn declaring_parent(types: Seq<TypeDef>, c: int) -> Option<int> {
    last_with_byval(types, types[c].declaring_type_index, types.len())
}

/// The types before `n` that type `p` declares, in order.
pub open spec fn nested_children(types: Seq<TypeDef>, p: int, n: nat) -> Seq<i32>
    decreases n,
{
    if n == 0 {
        Seq::empty()
    } else {
        let earlier = nested_children(types, p, (n - 1) as nat);
        if declaring_parent(types, n - 1) == Some(p) {
            earlier.push((n - 1) as i32)
        } else {
            earlier
        }
    }
}

/// The nested-type list of the first `n` types: the children of each, one type after another.
pub open spec fn nested_list(types: Seq<TypeDef>, n: nat) -> Seq<i32>
    decreases n,
{
    if n == 0 {
        Seq::empty()
    } else {
        nested_list(types, (n - 1) as nat) + nested_children(types, n - 1, types.len())
    }
}


/// Whether the nested ranges of `types` are the ones that rebuilding the nested-type list
/// gives: a type without children has none, the children of the others stand one type after
/// another in the order of the types.
pub open spec fn nesting_rebuilt(types: Seq<TypeDef>) -> bool {
    forall|p: int|
        0 <= p < types.len() ==> {
            let children = nested_children(types, p, types.len());
            &&& children.len() == 0 ==> (#[trigger] types[p]).nested_start == -1 && types[p].nested_count == 0
            &&& children.len() != 0 ==> types[p].nested_start == nested_list(types, p as nat).len() as i32
                && types[p].nested_count == children.len() as u16
        }
}

pub(crate) proof fn lemma_last_with_byval_same(a: Seq<TypeDef>, b: Seq<TypeDef>, k: i32, n: nat)
    requires
        n <= a.len(),
        a.len() == b.len(),
        forall|i: int| 0 <= i < a.len() ==> (#[trigger] a[i]).byval_type_index == b[i].byval_type_index,
    ensures
        last_with_byval(a, k, n) == last_with_byval(b, k, n),
    decreases n,
{
    if n > 0 {
        assert(a[n - 1].byval_type_index == b[n - 1].byval_type_index);
        lemma_last_with_byval_same(a, b, k, (n - 1) as nat);
    }
}

pub(crate) proof fn lemma_nested_children_same(a: Seq<TypeDef>, b: Seq<TypeDef>, p: int, n: nat)
    requires
        n <= a.len(),
        a.len() == b.len(),
        forall|i: int|
            0 <= i < a.len() ==> (#[trigger] a[i]).byval_type_index == b[i].byval_type_index
                && a[i].declaring_type_index == b[i].declaring_type_index,
    ensures
        nested_children(a, p, n) == nested_children(b, p, n),
    decreases n,
{
    if n > 0 {
        lemma_nested_children_same(a, b, p, (n - 1) as nat);
        assert(a[n - 1].declaring_type_index == b[n - 1].declaring_type_index);
        lemma_last_with_byval_same(a, b, a[n - 1].declaring_type_index, a.len());
    }
}

pub(crate) proof fn lemma_nested_list_same(a: Seq<TypeDef>, b: Seq<TypeDef>, n: nat)
    requires
        n <= a.len(),
        a.len() == b.len(),
        forall|i: int|
            0 <= i < a.len() ==> (#[trigger] a[i]).byval_type_index == b[i].byval_type_index
                && a[i].declaring_type_index == b[i].declaring_type_index,
    ensures
        nested_list(a, n) == nested_list(b, n),
    decreases n,
{
    if n > 0 {
        lemma_nested_list_same(a, b, (n - 1) as nat);
        lemma_nested_children_same(a, b, n - 1, a.len());
    }
}

proof fn lemma_relinked(unlinked: Seq<TypeDef>, linked: Seq<TypeDef>)
    requires
        linked.len() == unlinked.len(),
        forall|p: int|
            0 <= p < unlinked.len() ==> {
                let children = nested_children(unlinked, p, unlinked.len());
                &&& same_but_nested(#[trigger] linked[p], unlinked[p])
                &&& children.len() == 0 ==> linked[p].nested_start == -1 && linked[p].nested_count == 0
                &&& children.len() != 0 ==> linked[p].nested_start == nested_list(unlinked, p as nat).len() as i32
                    && linked[p].nested_count == children.len() as u16
            },
    ensures
        nesting_rebuilt(linked),
        nested_list(linked, linked.len()) == nested_list(unlinked, unlinked.len()),
{
    let n = linked.len();
    assert forall|i: int| 0 <= i < n implies (#[trigger] linked[i]).byval_type_index == unlinked[i].byval_type_index
        && linked[i].declaring_type_index == unlinked[i].declaring_type_index by {
        assert(same_but_nested(linked[i], unlinked[i]));
    }
    lemma_nested_list_same(linked, unlinked, n);
    assert forall|p: int| 0 <= p < n implies {
        let children = nested_children(linked, p, n);
        &&& children.len() == 0 ==> (#[trigger] linked[p]).nested_start == -1 && linked[p].nested_count == 0
        &&& children.len() != 0 ==> linked[p].nested_start == nested_list(linked, p as nat).len() as i32
            && linked[p].nested_count == children.len() as u16
    } by {
        lemma_nested_children_same(linked, unlinked, p, n);
        lemma_nested_list_same(linked, unlinked, p as nat);
    }
}

/// Whether `a` and `b` agree on every field but the nested-type range.
pub open spec fn same_but_nested(a: TypeDef, b: TypeDef) -> bool {
    &&& a.name == b.name
    &&& a.ns == b.ns
    &&& a.name_off == b.name_off
    &&& a.ns_off == b.ns_off
    &&& a.byval_type_index == b.byval_type_index
    &&& a.type_index == b.type_index
    &&& a.declaring_type_index == b.declaring_type_index
    &&& a.parent_index == b.parent_index
    &&& a.generic_container_index == b.generic_container_index
    &&& a.flags == b.flags
    &&& a.bitfield == b.bitfield
    &&& a.f_start == b.f_start
    &&& a.f_count == b.f_count
    &&& a.m_start == b.m_start
    &&& a.m_count == b.m_count
    &&& a.if_start == b.if_start
    &&& a.if_count == b.if_count
    &&& a.property_start == b.property_start
    &&& a.property_count == b.property_count
    &&& a.event_start == b.event_start
    &&& a.event_count == b.event_count
    &&& a.vtable_start == b.vtable_start
    &&& a.vtable_count == b.vtable_count
    &&& a.interface_offset_start == b.interface_offset_start
    &&& a.interface_offset_count == b.interface_offset_count
}

/// Links every type to the types it declares: fills each type's nested range and returns the
/// nested-type list that the ranges index.
pub fn build_nested_type_indices(types: &mut Vec<TypeDef>) -> (r: Vec<i32>)
    ensures
        final(types)@.len() == old(types)@.len(),
        r@ == nested_list(old(types)@, old(types)@.len()),
        forall|p: int|
            0 <= p < old(types)@.len() ==> {
                let children = nested_children(old(types)@, p, old(types)@.len());
                &&& same_but_nested(#[trigger] final(types)@[p], old(types)@[p])
                &&& children.len() == 0 ==> final(types)@[p].nested_start == -1
                    && final(types)@[p].nested_count == 0
                &&& children.len() != 0 ==> final(types)@[p].nested_start == nested_list(
                    old(types)@,
                    p as nat,
                ).len() as i32 && final(types)@[p].nested_count == children.len() as u16
            },
        nesting_rebuilt(final(types)@),
        r@ == nested_list(final(types)@, final(types)@.len()),
{
    broadcast use vstd::std_specs::hash::group_hash_axioms;

    let n = types.len();
    let ghost unlinked = types@;
    let mut byval_to_definition: HashMap<i32, usize> = HashMap::new();
    let mut index: usize = 0;
    while index < n
        invariant
            index <= n,
            n == unlinked.len(),
            types@ == unlinked,
            forall|k: i32|
                #![trigger byval_to_definition@.contains_key(k)]
                byval_to_definition@.contains_key(k) == (last_with_byval(unlinked, k, index as nat) is Some),
            forall|k: i32|
                #![trigger byval_to_definition@[k]]
                byval_to_definition@.contains_key(k) ==> byval_to_definition@[k] as int == last_with_byval(
                    unlinked,
                    k,
                    index as nat,
                ).unwrap(),
        decreases n - index,
    {
        byval_to_definition.insert(types[index].byval_type_index, index);
        index = index + 1;
    }
    let mut children: Vec<Vec<i32>> = Vec::new();
    let mut index: usize = 0;
    while index < n
        invariant
            index <= n,
            children@.len() == index,
            forall|p: int| 0 <= p < index ==> (#[trigger] children@[p])@.len() == 0,
        decreases n - index,
    {
        children.push(Vec::new());
        index = index + 1;
    }
    let mut child: usize = 0;
    while child < n
        invariant
            child <= n,
            n == unlinked.len(),
            types@ == unlinked,
            children@.len() == n,
            forall|k: i32|
                #![trigger byval_to_definition@.contains_key(k)]
                byval_to_definition@.contains_key(k) == (last_with_byval(unlinked, k, n as nat) is Some),
            forall|k: i32|
                #![trigger byval_to_definition@[k]]
                byval_to_definition@.contains_key(k) ==> byval_to_definition@[k] as int == last_with_byval(
                    unlinked,
                    k,
                    n as nat,
                ).unwrap(),
            forall|p: int|
                0 <= p < n ==> (#[trigger] children@[p])@ == nested_children(
                    unlinked,
                    p,
                    child as nat,
                ),
        decreases n - child,
    {
        let declaring = types[child].declaring_type_index;
        match byval_to_definition.get(&declaring) {
            Some(parent) => {
                let parent = *parent;
                proof {
                    lemma_last_with_byval_bound(unlinked, declaring, n as nat);
                }
                let mut list = Vec::new();
                std::mem::swap(&mut list, &mut children[parent]);
                list.push(#[verifier::truncate] (child as i32));
                std::mem::swap(&mut list, &mut children[parent]);
            },
            None => {},
        }
        proof {
            assert forall|p: int| 0 <= p < n implies (#[trigger] children@[p])@ == nested_children(
                unlinked,
                p,
                (child + 1) as nat,
            ) by {}
        }
        child = child + 1;
    }
    let mut nested_types: Vec<i32> = Vec::new();
    let mut index: usize = 0;
    while index < n
        invariant
            index <= n,
            n == unlinked.len(),
            types@.len() == n,
            children@.len() == n,
            forall|p: int|
                0 <= p < n ==> (#[trigger] children@[p])@ == nested_children(unlinked, p, n as nat),
            nested_types@ == nested_list(unlinked, index as nat),
            forall|p: int| index <= p < n ==> #[trigger] types@[p] == unlinked[p],
            forall|p: int|
                0 <= p < index ==> {
                    let kids = nested_children(unlinked, p, unlinked.len());
                    &&& same_but_nested(#[trigger] types@[p], unlinked[p])
                    &&& kids.len() == 0 ==> types@[p].nested_start == -1 && types@[p].nested_count
                        == 0
                    &&& kids.len() != 0 ==> types@[p].nested_start == nested_list(
                        unlinked,
                        p as nat,
                    ).len() as i32 && types@[p].nested_count == kids.len() as u16
                },
        decreases n - index,
    {
        proof {
            lemma_nested_list_len(unlinked, index as nat);
        }
        if children[index].len() == 0 {
            types[index].nested_start = -1;
            types[index].nested_count = 0;
        } else {
            types[index].nested_start = #[verifier::truncate] (nested_types.len() as i32);
            types[index].nested_count = #[verifier::truncate] (children[index].len() as u16);
            let mut k: usize = 0;
            let ghost before = nested_types@;
            while k < children[index].len()
                invariant
                    index < n,
                    children@.len() == n,
                    k <= children@[index as int]@.len(),
                    nested_types@ == before + children@[index as int]@.take(k as int),
                decreases children@[index as int]@.len() - k,
            {
                nested_types.push(children[index][k]);
                k = k + 1;
                assert(nested_types@ =~= before + children@[index as int]@.take(k as int));
            }
            assert(children@[index as int]@.take(k as int) =~= children@[index as int]@);
        }
        index = index + 1;
    }
    proof {
        lemma_relinked(unlinked, types@);
    }
    nested_types
}

/// A last match lies before the bound that it was searched below.
pub proof fn lemma_last_with_byval_bound(types: Seq<TypeDef>, k: i32, n: nat)
    ensures
        last_with_byval(types, k, n) matches Some(p) ==> 0 <= p < n && types[p].byval_type_index
            == k,
    decreases n,
{
    if n > 0 {
        lemma_last_with_byval_bound(types, k, (n - 1) as nat);
    }
}

/// The children of a type number at most the types searched.
pub proof fn lemma_nested_children_len(types: Seq<TypeDef>, p: int, n: nat)
    ensures
        nested_children(types, p, n).len() <= n,
    decreases n,
{
    if n > 0 {
        lemma_nested_children_len(types, p, (n - 1) as nat);
    }
}

/// The nested list of the first `n` types holds no more entries than `n` times the type count.
pub proof fn lemma_nested_list_len(types: Seq<TypeDef>, n: nat)
    ensures
        nested_list(types, n).len() <= n * types.len(),
    decreases n,
{
    if n > 0 {
        lemma_nested_list_len(types, (n - 1) as nat);
        lemma_nested_children_len(types, n - 1, types.len());
        assert((n - 1) * types.len() + types.len() == n * types.len()) by (nonlinear_arith);
    }
}

/// A type definition as values.
pub struct TypeDefView {
    pub name: Seq<char>,
    pub ns: Seq<char>,
    pub name_off: u32,
    pub ns_off: u32,
    pub byval_type_index: i32,
    pub type_index: i32,
    pub declaring_type_index: i32,
    pub parent_index: i32,
    pub generic_container_index: i32,
    pub flags: u32,
    pub bitfield: u32,
    pub f_start: i32,
    pub f_count: u16,
    pub m_start: u32,
    pub m_count: u16,
    pub if_start: i32,
    pub if_count: u16,
    pub nested_start: i32,
    pub nested_count: u16,
    pub property_start: i32,
    pub property_count: u16,
    pub event_start: i32,
    pub event_count: u16,
    pub vtable_start: i32,
    pub vtable_count: u16,
    pub interface_offset_start: i32,
    pub interface_offset_count: u16,
}

impl View for TypeDef {
    type V = TypeDefView;

    open spec fn view(&self) -> TypeDefView {
        TypeDefView {
            name: self.name@,
            ns: self.ns@,
            name_off: self.name_off,
            ns_off: self.ns_off,
            byval_type_index: self.byval_type_index,
            type_index: self.type_index,
            declaring_type_index: self.declaring_type_index,
            parent_index: self.parent_index,
            generic_container_index: self.generic_container_index,
            flags: self.flags,
            bitfield: self.bitfield,
            f_start: self.f_start,
            f_count: self.f_count,
            m_start: self.m_start,
            m_count: self.m_count,
            if_start: self.if_start,
            if_count: self.if_count,
            nested_start: self.nested_start,
            nested_count: self.nested_count,
            property_start: self.property_start,
            property_count: self.property_count,
            event_start: self.event_start,
            event_count: self.event_count,
            vtable_start: self.vtable_start,
            vtable_count: self.vtable_count,
            interface_offset_start: self.interface_offset_start,
            interface_offset_count: self.interface_offset_count,
        }
    }
}

/// A field definition as values.
pub struct FieldDefView {
    pub name: Seq<char>,
    pub name_off: u32,
    pub type_index: i32,
    pub token: u32,
}

impl View for FieldDef {
    type V = FieldDefView;

    open spec fn view(&self) -> FieldDefView {
        FieldDefView {
            name: self.name@,
            name_off: self.name_off,
            type_index: self.type_index,
            token: self.token,
        }
    }
}

/// Whether `s` starts with `prefix`.
pub open spec fn seq_starts_with(s: Seq<char>, prefix: Seq<char>) -> bool {
    prefix.len() <= s.len() && s.subrange(0, prefix.len() as int) == prefix
}

/// What a type record's attribute word and parent say of its kind, given the runtime indices of
/// `System.Enum` and `System.ValueType`: (interface, enum, struct, static, abstract, sealed).
pub open spec fn type_kind(
    name: Seq<char>,
    parent: i32,
    byval: i32,
    attributes: u32,
    enum_index: i32,
    value_type_index: i32,
) -> (bool, bool, bool, bool, bool, bool) {
    let is_interface = parent == -1 && (((attributes >> 4) & 0xF) == 3 || (attributes & 0xFF)
        == 0x32 || (attributes & 0xFF) == 0x31) && name != "Object"@ && name != "<Module>"@;
    let is_enum = parent == enum_index;
    let is_struct = !is_enum && !is_interface && parent == value_type_index && byval != enum_index;
    let plain = !is_enum && !is_struct && !is_interface;
    let is_static = plain && ((attributes >> 8) & 0xF) == 5;
    let is_abstract = plain && !is_static && ((attributes >> 4) & 0xF) == 1;
    let is_sealed = plain && !is_static && ((attributes >> 8) & 0xF) == 4;
    (is_interface, is_enum, is_struct, is_static, is_abstract, is_sealed)
}

/// The IL2CPP attribute flags of a type of the given kind, nesting and name.
pub open spec fn type_flags(
    kind: (bool, bool, bool, bool, bool, bool),
    nested: bool,
    name: Seq<char>,
) -> u32 {
    let visibility: u32 = if nested {
        if seq_starts_with(name, "<>"@) || seq_starts_with(name, "<Private"@) {
            3
        } else {
            2
        }
    } else {
        1
    };
    if kind.0 {
        visibility | 0x20 | 0x80
    } else if kind.1 {
        visibility | 0x100 | 0x0010_0000
    } else if kind.2 {
        visibility | 0x08 | 0x100 | 0x0010_0000
    } else if kind.3 {
        visibility | 0x80 | 0x100 | 0x0010_0000
    } else if kind.4 {
        visibility | 0x80 | 0x0010_0000
    } else if kind.5 {
        visibility | 0x100 | 0x0010_0000
    } else {
        visibility | 0x0010_0000
    }
}

/// The count and start of a member range whose start is only meaningful when the count is not zero.
pub open spec fn member_range(count: u16, start: i32) -> (u16, i32) {
    (count, if count > 0 {
        start
    } else {
        -1i32
    })
}

/// The type definition that record `i` at `record` decodes to, given the name table, the
/// container of each type, the core type indices, its interface range and the index of its
/// first field.
#[verifier::opaque]
pub open spec fn decoded_type(
    body: Seq<u8>,
    names: Seq<u8>,
    table: nat,
    containers: Seq<i32>,
    enum_index: i32,
    value_type_index: i32,
    interfaces: InterfaceRange,
    record: int,
    i: int,
    f_start: i32,
) -> TypeDefView {
    let name = name_or(
        decrypted_string(names, table, (le_i32(body, record + 40) as u32).wrapping_sub(369268488)),
        "Type_"@ + decimal_digits(i as nat),
    );
    let raw3 = le_i32(body, record + 12);
    let raw1 = le_i32(body, record + 4);
    let declaring = if raw3 != 472568491 {
        raw3.wrapping_sub(472568492)
    } else {
        -1i32
    };
    let parent = if raw1 != 1224299846 {
        raw1.wrapping_sub(1224299847)
    } else {
        -1i32
    };
    let byval = (le_u32(body, record + 16) ^ 0x39F54DE4) as i32;
    let kind = type_kind(name, parent, byval, le_u32(body, record + 20), enum_index, value_type_index);
    let properties = member_range(
        body[record + 65].wrapping_add(31) as u16,
        le_u32(body, record + 28).wrapping_sub(970_393_327) as i32,
    );
    let events = member_range((body[record + 64] ^ 0x73) as u16, (le_u16(body, record + 48) ^ 0x6ECD) as i32);
    let vtables = member_range((body[record + 66] ^ 8) as u16, (le_u32(body, record + 24) ^ 0x4B4C_5F23) as i32);
    let interface_offsets = member_range(
        body[record + 69].wrapping_sub(1) as u16,
        (le_u16(body, record + 62) ^ 0x3E74) as i32,
    );
    TypeDefView {
        name,
        ns: decrypted_string(names, table, (le_i32(body, record + 36) as u32).wrapping_add(0xF1D32D89)),
        name_off: 0,
        ns_off: 0,
        byval_type_index: byval,
        type_index: le_i32(body, record + 44).wrapping_sub(1576109422),
        declaring_type_index: declaring,
        parent_index: if kind.0 {
            -1i32
        } else {
            parent
        },
        generic_container_index: if i < containers.len() {
            containers[i]
        } else {
            -1i32
        },
        flags: type_flags(kind, declaring != -1, name),
        bitfield: if kind.1 {
            2
        } else if kind.2 {
            1
        } else {
            0
        },
        f_start,
        f_count: le_u16(body, record + 50).wrapping_add(17485),
        m_start: le_u32(body, record + 8) ^ 0x1A7AF5FE,
        m_count: le_u16(body, record + 52).wrapping_add(24467),
        if_start: if interfaces.count as u16 > 0 {
            interfaces.start as i32
        } else {
            -1i32
        },
        if_count: interfaces.count as u16,
        nested_start: -1i32,
        nested_count: 0,
        property_start: properties.1,
        property_count: properties.0,
        event_start: events.1,
        event_count: events.0,
        vtable_start: vtables.1,
        vtable_count: vtables.0,
        interface_offset_start: interface_offsets.1,
        interface_offset_count: interface_offsets.0,
    }
}

proof fn lemma_attribute_bits(v: u32)
    by (bit_vector)
    requires
        1 <= v <= 3,
    ensures
        (v | 0x20 | 0x80) & 0x20 != 0,
        (v | 0x20 | 0x80) & 0xA0 == 0xA0,
        (v | 0x20 | 0x80) & 0x0010_0000 == 0,
        (v | 0x20 | 0x80) & 7 == v,
        (v | 0x100 | 0x0010_0000) & 0x20 == 0,
        (v | 0x100 | 0x0010_0000) & 0x188 == 0x100,
        (v | 0x100 | 0x0010_0000) & 0x0010_0000 != 0,
        (v | 0x100 | 0x0010_0000) & 7 == v,
        (v | 0x08 | 0x100 | 0x0010_0000) & 0x20 == 0,
        (v | 0x08 | 0x100 | 0x0010_0000) & 0x188 == 0x108,
        (v | 0x08 | 0x100 | 0x0010_0000) & 0x0010_0000 != 0,
        (v | 0x08 | 0x100 | 0x0010_0000) & 7 == v,
        (v | 0x80 | 0x100 | 0x0010_0000) & 0x20 == 0,
        (v | 0x80 | 0x100 | 0x0010_0000) & 0x188 == 0x180,
        (v | 0x80 | 0x100 | 0x0010_0000) & 0x0010_0000 != 0,
        (v | 0x80 | 0x100 | 0x0010_0000) & 7 == v,
        (v | 0x80 | 0x0010_0000) & 0x20 == 0,
        (v | 0x80 | 0x0010_0000) & 0x188 == 0x80,
        (v | 0x80 | 0x0010_0000) & 0x0010_0000 != 0,
        (v | 0x80 | 0x0010_0000) & 7 == v,
        (v | 0x0010_0000) & 0x20 == 0,
        (v | 0x0010_0000) & 0x188 == 0,
        (v | 0x0010_0000) & 0x0010_0000 != 0,
        (v | 0x0010_0000) & 7 == v,
{
}

/// How a decoded type's attribute flags follow from its kind, as IL2CPP defines them. An
/// interface (flag 0x20) is also abstract (0x80), has no parent and is not BeforeFieldInit
/// (0x100000); every other type is BeforeFieldInit. An enum (bitfield 2) is sealed (0x100)
/// and not abstract; a struct (bitfield 1) is sealed with a sequential layout (0x08). A class
/// whose attribute word has 5 in bits 8..12 is static, that is abstract and sealed; otherwise
/// 1 in bits 4..8 makes it abstract and not sealed, and 4 in bits 8..12 makes it sealed and not
/// abstract; a class that is none of these is neither. A top-level type is public (1), a nested
/// one nested-public or nested-private (2 or 3).
pub proof fn lemma_type_flags_follow_kind(
    body: Seq<u8>,
    names: Seq<u8>,
    table: nat,
    containers: Seq<i32>,
    enum_index: i32,
    value_type_index: i32,
    interfaces: InterfaceRange,
    record: int,
    i: int,
    f_start: i32,
)
    ensures
        ({
            let t = decoded_type(body, names, table, containers, enum_index, value_type_index, interfaces, record, i, f_start);
            let attributes = le_u32(body, record + 20);
            let interface = t.flags & 0x020 != 0;
            let class = !interface && t.bitfield == 0;
            let low = (attributes >>4u32) & 0xF;
            let high = (attributes >>8u32) & 0xF;
            &&& interface ==> t.flags & 0xA0 == 0xA0 && t.parent_index == -1 && t.flags & 0x10_0000 == 0
            &&& !interface ==> t.flags & 0x10_0000 != 0
            &&& !interface && t.bitfield == 2 ==> t.flags & 0x188 == 0x1_00
            &&& !interface && t.bitfield == 1 ==> t.flags & 0x188 == 0x108
            &&& class && high == 5 ==> t.flags & 0x188 == 0x180
            &&& class && high != 5 && low == 1 ==> t.flags & 0x188 == 0x80
            &&& class && high == 4 && low != 1 ==> t.flags & 0x188 == 0x1_00
            &&& class && high != 5 && high != 4 && low != 1 ==> t.flags & 0x188 == 0
            &&& t.declaring_type_index == -1 ==> t.flags & 7 == 1
            &&& t.declaring_type_index != -1 ==> t.flags & 7 == 2 || t.flags & 7 == 3
        }),
{
    reveal(decoded_type);
    lemma_attribute_bits(1);
    lemma_attribute_bits(2);
    lemma_attribute_bits(3);
}

/// Decoding undoes the encoding of a type record's own fields: when the record holds its name
/// index plus 369268488 and its namespace index less 0xF1D32D89 (modulo 2^32), its by-value
/// type index XORed with 0x39F54DE4, its type index plus 1576109422 and its declaring type plus
/// 472568492 and its parent plus 1224299847 (modulo 2^32, so that no declaring type or parent,
/// -1, is stored as 472568491 or 1224299846), its first method XORed with 0x1A7AF5FE, and its
/// method and field counts less 24467 and 17485 (modulo 2^16), the decoded type has those
/// values (the parent where it is not an interface), and that name when it is not empty.
pub proof fn lemma_type_record_decodes_encoded(
    body: Seq<u8>,
    names: Seq<u8>,
    table: nat,
    containers: Seq<i32>,
    enum_index: i32,
    value_type_index: i32,
    interfaces: InterfaceRange,
    record: int,
    i: int,
    f_start: i32,
    name_index: u32,
    namespace_index: u32,
    byval: i32,
    type_index: i32,
    declaring: i32,
    parent: i32,
    method_start: u32,
    method_count: u16,
    field_count: u16,
)
    requires
        0 <= i,
        le_i32(body, record + 40) as u32 == name_index.wrapping_add(369_268_488u32),
        le_i32(body, record + 36) as u32 == namespace_index.wrapping_sub(0xF1D3_2D89u32),
        le_u32(body, record + 16) == (byval as u32) ^ 0x39F5_4DE4u32,
        le_i32(body, record + 44) == type_index.wrapping_add(1_576_109_422i32),
        le_i32(body, record + 12) == declaring.wrapping_add(472_568_492i32),
        le_i32(body, record + 4) == parent.wrapping_add(1_224_299_847i32),
        le_u32(body, record + 8) == method_start ^ 0x1A7A_F5FEu32,
        le_u16(body, record + 52) == method_count.wrapping_sub(24_467u16),
        le_u16(body, record + 50) == field_count.wrapping_sub(17_485u16),
    ensures
        ({
            let t = decoded_type(body, names, table, containers, enum_index, value_type_index, interfaces, record, i, f_start);
            &&& t.name == name_or(decrypted_string(names, table, name_index), "Type_"@ + decimal_digits(i as nat))
            &&& t.ns == decrypted_string(names, table, namespace_index)
            &&& t.byval_type_index == byval
            &&& t.type_index == type_index
            &&& t.declaring_type_index == declaring
            &&& t.flags & 0x020 == 0 ==> t.parent_index == parent
            &&& t.m_start == method_start
            &&& t.m_count == method_count
            &&& t.f_count == field_count
        }),
{
    reveal(decoded_type);
    let b = byval as u32;
    assert(((b ^ 0x39F5_4DE4u32) ^ 0x39F5_4DE4u32) as i32 == byval) by (bit_vector)
        requires
            b == byval as u32,
    ;
    assert((method_start ^ 0x1A7A_F5FEu32) ^ 0x1A7A_F5FEu32 == method_start) by (bit_vector);
    lemma_attribute_bits(1);
    lemma_attribute_bits(2);
    lemma_attribute_bits(3);
}

/// Decoding undoes the encoding of a type record's member ranges: when the record holds its
/// property count less 31 and its first property plus 970393327, its event count XORed with
/// 0x73 and its first event XORed with 0x6ECD, its vtable size XORed with 8 and its first
/// vtable slot XORed with 0x4B4C5F23, and its interface offset count plus 1 and its first
/// interface offset XORed with 0x3E74 (each modulo its width), the decoded type has those
/// counts, and those starts where the count is not zero (-1 where it is).
pub proof fn lemma_type_ranges_decode_encoded(
    body: Seq<u8>,
    names: Seq<u8>,
    table: nat,
    containers: Seq<i32>,
    enum_index: i32,
    value_type_index: i32,
    interfaces: InterfaceRange,
    record: int,
    i: int,
    f_start: i32,
    property_count: u8,
    property_start: u32,
    event_count: u8,
    event_start: u16,
    vtable_count: u8,
    vtable_start: u32,
    offset_count: u8,
    offset_start: u16,
)
    requires
        body[record + 65] == property_count.wrapping_sub(31u8),
        le_u32(body, record + 28) == property_start.wrapping_add(970393_327u32),
        body[record + 64] == event_count ^ 0x7_3u8,
        le_u16(body, record + 48) == event_start ^ 0x6E_CDu16,
        body[record + 66] == vtable_count ^ 0x0_8u8,
        le_u32(body, record + 24) == vtable_start ^ 0x4B4C_5F23u32,
        body[record + 69] == offset_count.wrapping_add(1u8),
        le_u16(body, record + 62) == offset_start ^ 0x3E_74u16,
    ensures
        ({
            let t = decoded_type(body, names, table, containers, enum_index, value_type_index, interfaces, record, i, f_start);
            &&& t.property_count == property_count as u16
            &&& t.property_start == (if property_count > 0 { property_start as i32 } else { -1i32 })
            &&& t.event_count == event_count as u16
            &&& t.event_start == (if event_count > 0 { event_start as i32 } else { -1i32 })
            &&& t.vtable_count == vtable_count as u16
            &&& t.vtable_start == (if vtable_count > 0 { vtable_start as i32 } else { -1i32 })
            &&& t.interface_offset_count == offset_count as u16
            &&& t.interface_offset_start == (if offset_count > 0 { offset_start as i32 } else { -1i32 })
        }),
{
    reveal(decoded_type);
    assert((event_count ^ 0x73u8) ^ 0x73u8 == event_count) by (bit_vector);
    assert((event_start ^ 0x6ECDu16) ^ 0x6ECDu16 == event_start) by (bit_vector);
    assert((vtable_count ^ 8u8) ^ 8u8 == vtable_count) by (bit_vector);
    assert((vtable_start ^ 0x4B4C_5F23u32) ^ 0x4B4C_5F23u32 == vtable_start) by (bit_vector);
    assert((offset_start ^ 0x3E74u16) ^ 0x3E74u16 == offset_start) by (bit_vector);
}

/// The key of field `j` of a type whose field-start word is `raw_start`.
pub open spec fn field_key(raw_start: i32, j: nat) -> u32
    decreases j,
{
    if j == 0 {
        (-1388221511i32).wrapping_sub(744344320i32.wrapping_mul(raw_start)) as u32
    } else {
        field_key(raw_start, (j - 1) as nat).wrapping_sub(744344320)
    }
}

proof fn lemma_field_key_first(raw_start: i32)
    ensures
        field_key(raw_start, 0) == 0xAD41_6BB9u32.wrapping_sub(744_344_320u32.wrapping_mul(raw_start as u32)),
{
    let m = 744344320i32.wrapping_mul(raw_start);
    assert(((-1388221511i32).wrapping_sub(m) as u32) == 0xAD41_6BB9u32.wrapping_sub(m as u32)) by (bit_vector);
    assert((744344320i32.wrapping_mul(raw_start) as u32) == 744_344_320u32.wrapping_mul(raw_start as u32))
        by (bit_vector);
}

proof fn lemma_field_key_closed(raw_start: i32, j: nat)
    ensures
        field_key(raw_start, j) as int == (0xAD41_6BB9 - 744_344_320 * (raw_start as u32) - 744_344_320 * j)
            % 0x1_0000_0000,
    decreases j,
{
    let r = raw_start as u32;
    if j == 0 {
        lemma_field_key_first(raw_start);
        let product = 744_344_320u32.wrapping_mul(r);
        assert(product as int == (744_344_320 * r) % 0x1_0000_0000);
        assert(0xAD41_6BB9u32.wrapping_sub(product) as int == (0xAD41_6BB9 - product) % 0x1_0000_0000);
        vstd::arithmetic::div_mod::lemma_sub_mod_noop_right(0xAD41_6BB9, 744_344_320 * r, 0x1_0000_0000);
    } else {
        lemma_field_key_closed(raw_start, (j - 1) as nat);
        let before: int = 0xAD41_6BB9 - 744_344_320 * r - 744_344_320 * (j - 1);
        let k = field_key(raw_start, (j - 1) as nat);
        assert(k.wrapping_sub(744344320) as int == (k - 744_344_320) % 0x1_0000_0000);
        vstd::arithmetic::div_mod::lemma_sub_mod_noop(before, 744_344_320, 0x1_0000_0000);
        vstd::arithmetic::div_mod::lemma_small_mod(744_344_320, 0x1_0000_0000);
        assert(before - 744_344_320 == 0xAD41_6BB9 - 744_344_320 * r - 744_344_320 * j) by (nonlinear_arith)
            requires
                before == 0xAD41_6BB9 - 744_344_320 * r - 744_344_320 * (j - 1),
        ;
    }
}

/// Decoding undoes the encoding of field records: when field `j` of a type whose field-start
/// word is `raw_start` holds its name index and runtime type index, each less the field's key
/// (and the name index also less 716162949, modulo 2^32), where the key of field `j` is
/// `0xAD416BB9 - 744344320 * raw_start - 744344320 * j` modulo 2^32, the decoded field has that
/// type index, and that name when it is not empty.
pub proof fn lemma_field_decodes_encoded(
    body: Seq<u8>,
    names: Seq<u8>,
    table: nat,
    field_base: usize,
    record: int,
    j: nat,
    name_index: u32,
    type_index: i32,
)
    requires
        ({
            let raw_start = le_i32(body, record + 32);
            let at = field_base + 8 * ((raw_start as u32).wrapping_sub(1_954_887_780u32) as usize + j);
            let key = ((0xAD41_6BB9 - 744_344_320 * (raw_start as u32) - 744_344_320 * j) % 0x1_0000_0000) as u32;
            &&& in_bounds(body, at, 8)
            &&& le_u32(body, at) == name_index.wrapping_sub(716_162_949u32).wrapping_sub(key)
            &&& le_u32(body, at + 4) == (type_index as u32).wrapping_sub(key)
        }),
    ensures
        decoded_field(body, names, table, field_base, record, j) == (
            name_or(decrypted_string(names, table, name_index), "field_"@ + decimal_digits(j)),
            type_index,
        ),
{
    reveal(decoded_field);
    let raw_start = le_i32(body, record + 32);
    lemma_field_key_closed(raw_start, j);
    let t = type_index as u32;
    let key = field_key(raw_start, j);
    assert(key.wrapping_add(t.wrapping_sub(key)) == t);
    assert((t as i32) == type_index) by (bit_vector)
        requires
            t == type_index as u32,
    ;
}

/// The name and runtime type index of field `j` of the type record at `record`.
#[verifier::opaque]
pub open spec fn decoded_field(
    body: Seq<u8>,
    names: Seq<u8>,
    table: nat,
    field_base: usize,
    record: int,
    j: nat,
) -> (Seq<char>, i32) {
    let raw_start = le_i32(body, record + 32);
    let start = (raw_start as u32).wrapping_sub(1954887780) as usize;
    let at = field_base + 8 * (start + j);
    let key = field_key(raw_start, j);
    let default_name = "field_"@ + decimal_digits(j);
    if in_bounds(body, at, 8) {
        (
            name_or(
                decrypted_string(names, table, key.wrapping_add(le_u32(body, at)).wrapping_add(716162949)),
                default_name,
            ),
            key.wrapping_add(le_u32(body, at + 4)) as i32,
        )
    } else {
        (default_name, -1i32)
    }
}

/// The index of the first field-offset entry of type `i`, looked up through the two tables
/// that the header's values 96 and 39 locate; 0 where a lookup runs past the body.
#[verifier::opaque]
pub open spec fn field_offset_base(body: Seq<u8>, mhy: MhyHeader, i: int) -> i32 {
    let by_type = mhy.mhy96().wrapping_sub(455350429) as usize + 4 * i;
    if in_bounds(body, by_type, 4) {
        let entry = mhy.mhy39().wrapping_sub(1132541481) as usize + 12 * (le_i32(body, by_type) as usize);
        if in_bounds(body, entry, 12) {
            le_i32(body, entry + 8)
        } else {
            0
        }
    } else {
        0
    }
}

/// The runtime offset of field `j` of a type whose first field-offset entry is `base`.
#[verifier::opaque]
pub open spec fn decoded_field_offset(body: Seq<u8>, mhy: MhyHeader, base: i32, j: nat) -> u32 {
    let at = mhy.offset_table_base() + 4 * ((j as i32).wrapping_add(base) as usize);
    if in_bounds(body, at, 4) {
        le_u32(body, at) & 0xFF_FFFF
    } else {
        0
    }
}

/// The number of fields of the type record at `record`.
pub open spec fn field_count_at(body: Seq<u8>, record: int) -> nat {
    le_u16(body, record + 50).wrapping_add(17485) as nat
}

/// The number of fields of the first `n` type records from `offset` on.
pub open spec fn fields_before(body: Seq<u8>, offset: int, n: nat) -> nat
    decreases n,
{
    if n == 0 {
        0
    } else {
        fields_before(body, offset, (n - 1) as nat) + field_count_at(body, offset + 70 * (n - 1))
    }
}

/// Where field `j` of type `i` stands in the field list.
pub open spec fn field_position(body: Seq<u8>, offset: int, i: nat, j: nat) -> int {
    (fields_before(body, offset, i) + j) as int
}

/// Whether type record `i` of the table at `offset` lies in `body`.
pub open spec fn type_record_fits(body: Seq<u8>, offset: int, i: int) -> bool {
    offset + 70 * i + 70 <= body.len()
}

fn classify_type(
    name: &String,
    parent_idx: i32,
    byval_idx: i32,
    raw_i32_5: u32,
    enum_type_index: i32,
    value_type_index: i32,
    is_nested: bool,
) -> (r: (u32, u32, bool))
    ensures
        ({
            let kind = type_kind(name@, parent_idx, byval_idx, raw_i32_5, enum_type_index, value_type_index);
            &&& r.0 == type_flags(kind, is_nested, name@)
            &&& r.1 == (if kind.1 {
                2u32
            } else if kind.2 {
                1u32
            } else {
                0u32
            })
            &&& r.2 == kind.0
        }),
{
    let is_interface = parent_idx == -1 && (((raw_i32_5 >> 4) & 0xF) == 3 || (raw_i32_5 & 0xFF)
        == 0x32 || (raw_i32_5 & 0xFF) == 0x31) && !str_equals(name.as_str(), "Object")
        && !str_equals(name.as_str(), "<Module>");
    let is_enum = parent_idx == enum_type_index;
    let is_struct = !is_enum && !is_interface && parent_idx == value_type_index && byval_idx
        != enum_type_index;
    let is_static = !is_enum && !is_struct && !is_interface && (((raw_i32_5 >> 8) & 0xF) == 5);
    let is_abstract = !is_enum && !is_struct && !is_interface && !is_static && (((raw_i32_5 >> 4)
        & 0xF) == 1);
    let is_sealed = !is_enum && !is_struct && !is_interface && !is_static && (((raw_i32_5 >> 8)
        & 0xF) == 4);
    let visibility: u32 = if is_nested {
        if str_starts_with(name.as_str(), "<>") || str_starts_with(name.as_str(), "<Private") {
            0x00000003
        } else {
            0x00000002
        }
    } else {
        0x00000001
    };
    let flags = if is_interface {
        visibility | 0x00000020 | 0x00000080
    } else if is_enum {
        visibility | 0x00000100 | 0x00100000
    } else if is_struct {
        visibility | 0x00000008 | 0x00000100 | 0x00100000
    } else if is_static {
        visibility | 0x00000080 | 0x00000100 | 0x00100000
    } else if is_abstract {
        visibility | 0x00000080 | 0x00100000
    } else if is_sealed {
        visibility | 0x00000100 | 0x00100000
    } else {
        visibility | 0x00100000
    };
    let bitfield = if is_enum {
        2
    } else if is_struct {
        1
    } else {
        0
    };
    (flags, bitfield, is_interface)
}

fn decode_type_record(
    global_body: &[u8],
    decryptor: &StringDecryptor,
    type_generic_containers: &[i32],
    enum_type_index: i32,
    value_type_index: i32,
    interface_range: InterfaceRange,
    t_off: usize,
    i: usize,
    f_start: i32,
) -> (r: TypeDef)
    requires
        t_off + 70 <= global_body@.len(),
    ensures
        r@ == decoded_type(
            global_body@,
            decryptor.body(),
            decryptor.table(),
            type_generic_containers@,
            enum_type_index,
            value_type_index,
            interface_range,
            t_off as int,
            i as int,
            f_start,
        ),
{
    reveal(decoded_type);
    assert(global_body@.len() == global_body.len());
    let raw_i32_9 = read_i32_at(global_body, t_off + 36);
    let raw_i32_10 = read_i32_at(global_body, t_off + 40);
    let raw_i32_1 = read_i32_at(global_body, t_off + 4);
    let raw_i32_3 = read_i32_at(global_body, t_off + 12);
    let raw_i32_4 = read_u32_at(global_body, t_off + 16);
    let raw_i32_11 = read_i32_at(global_body, t_off + 44);
    let raw_i32_2 = read_u32_at(global_body, t_off + 8);
    let raw_u16_26 = read_u16_at(global_body, t_off + 52);
    let raw_u16_25 = read_u16_at(global_body, t_off + 50);
    let raw_i32_5 = read_u32_at(global_body, t_off + 20);
    let property_count = global_body[t_off + 65].wrapping_add(31) as u16;
    let property_start = if property_count > 0 {
        read_u32_at(global_body, t_off + 28).wrapping_sub(970_393_327) as i32
    } else {
        -1
    };
    let event_count = (global_body[t_off + 64] ^ 0x73) as u16;
    let event_start = if event_count > 0 {
        (read_u16_at(global_body, t_off + 48) ^ 0x6ECD) as i32
    } else {
        -1
    };
    let vtable_count = (global_body[t_off + 66] ^ 8) as u16;
    let vtable_start = if vtable_count > 0 {
        (read_u32_at(global_body, t_off + 24) ^ 0x4B4C_5F23) as i32
    } else {
        -1
    };
    let interface_offset_count = global_body[t_off + 69].wrapping_sub(1) as u16;
    let interface_offset_start = if interface_offset_count > 0 {
        (read_u16_at(global_body, t_off + 62) ^ 0x3E74) as i32
    } else {
        -1
    };
    let name_idx = (raw_i32_10 as u32).wrapping_sub(369268488);
    let ns_idx = (raw_i32_9 as u32).wrapping_add(0xF1D32D89);
    let mut name = decryptor.decrypt_string(name_idx);
    if name.as_str().is_empty() {
        name = numbered_name("Type_", i, "");
        proof {
            reveal_strlit("");
            assert(name@ =~= "Type_"@ + decimal_digits(i as nat));
        }
    }
    let ns = decryptor.decrypt_string(ns_idx);
    let decl_idx = if raw_i32_3 != 472568491 {
        raw_i32_3.wrapping_sub(472568492)
    } else {
        -1
    };
    let is_nested = decl_idx != -1;
    let mut parent_idx = if raw_i32_1 != 1224299846 {
        raw_i32_1.wrapping_sub(1224299847)
    } else {
        -1
    };
    let byval_idx = (raw_i32_4 ^ 0x39F54DE4) as i32;
    let (flags, bitfield, is_interface) = classify_type(
        &name,
        parent_idx,
        byval_idx,
        raw_i32_5,
        enum_type_index,
        value_type_index,
        is_nested,
    );
    if is_interface {
        parent_idx = -1;
    }
    let type_idx = raw_i32_11.wrapping_sub(1576109422);
    let m_start = raw_i32_2 ^ 0x1A7AF5FE;
    let m_count = raw_u16_26.wrapping_add(24467);
    let f_count = raw_u16_25.wrapping_add(17485);
    let if_count = interface_range.count as u16;
    let if_start = if if_count > 0 {
        interface_range.start as i32
    } else {
        -1
    };
    let gc_idx = if i < type_generic_containers.len() {
        type_generic_containers[i]
    } else {
        -1
    };
    TypeDef {
        name,
        ns,
        name_off: 0,
        ns_off: 0,
        byval_type_index: byval_idx,
        type_index: type_idx,
        declaring_type_index: decl_idx,
        parent_index: parent_idx,
        generic_container_index: gc_idx,
        flags,
        bitfield,
        f_start,
        f_count,
        m_start,
        m_count,
        if_start,
        if_count,
        nested_start: -1,
        nested_count: 0,
        property_start,
        property_count,
        event_start,
        event_count,
        vtable_start,
        vtable_count,
        interface_offset_start,
        interface_offset_count,
    }
}

fn field_offset_base_of(global_body: &[u8], mhy: &MhyHeader, i: usize) -> (r: i32)
    ensures
        r == field_offset_base(global_body@, *mhy, i as int),
{
    reveal(field_offset_base);
    assert(global_body@.len() == global_body.len());
    let mhy96_off = mhy.mhy96().wrapping_sub(455350429) as usize;
    let mhy39_off = mhy.mhy39().wrapping_sub(1132541481) as usize;
    let by_type = match offset_of(mhy96_off, i, 4, 0) {
        Some(v) => v,
        None => return 0,
    };
    let t_idx_in_96 = match get_i32(global_body, by_type) {
        Some(v) => v,
        None => return 0,
    };
    let entry = match offset_of(mhy39_off, t_idx_in_96 as usize, 12, 0) {
        Some(v) => v,
        None => return 0,
    };
    if entry <= global_body.len() && global_body.len() - entry >= 12 {
        read_i32_at(global_body, entry + 8)
    } else {
        0
    }
}

fn decode_type_fields(
    global_body: &[u8],
    decryptor: &StringDecryptor,
    mhy: &MhyHeader,
    t_off: usize,
    i: usize,
    fields: &mut Vec<FieldDef>,
    field_offsets: &mut Vec<FieldOffsetEntry>,
)
    requires
        t_off + 70 <= global_body@.len(),
    ensures
        final(fields)@.len() == old(fields)@.len() + field_count_at(global_body@, t_off as int),
        final(field_offsets)@.len() == old(field_offsets)@.len() + field_count_at(
            global_body@,
            t_off as int,
        ),
        forall|g: int| 0 <= g < old(fields)@.len() ==> #[trigger] final(fields)@[g] == old(fields)@[g],
        forall|g: int|
            0 <= g < old(field_offsets)@.len() ==> #[trigger] final(field_offsets)@[g] == old(
                field_offsets,
            )@[g],
        forall|g: int|
            old(fields)@.len() <= g < final(fields)@.len() ==> {
                let field = decoded_field(
                    global_body@,
                    decryptor.body(),
                    decryptor.table(),
                    mhy.field_table_base(),
                    t_off as int,
                    (g - old(fields)@.len()) as nat,
                );
                (#[trigger] final(fields)@[g])@ == FieldDefView {
                    name: field.0,
                    name_off: 0,
                    type_index: field.1,
                    token: 0x0400_0000 | (g as u32).wrapping_add(1),
                }
            },
        forall|g: int|
            old(field_offsets)@.len() <= g < final(field_offsets)@.len() ==> {
                let j = g - old(field_offsets)@.len();
                &&& (#[trigger] final(field_offsets)@[g]).type_idx == i as u32
                &&& final(field_offsets)@[g].field_idx_in_type == j as u32
                &&& final(field_offsets)@[g].offset == decoded_field_offset(
                    global_body@,
                    *mhy,
                    field_offset_base(global_body@, *mhy, i as int),
                    j as nat,
                )
            },
{
    assert(global_body@.len() == global_body.len());
    let field_base = mhy.field_table_base();
    let offset_base = mhy.offset_table_base();
    let raw_i32_8 = read_i32_at(global_body, t_off + 32);
    let f_start_raw = (raw_i32_8 as u32).wrapping_sub(1954887780) as usize;
    let f_count = read_u16_at(global_body, t_off + 50).wrapping_add(17485);
    let v55_rec_2 = field_offset_base_of(global_body, mhy, i);
    let mut v38_key = (-1388221511i32).wrapping_sub(744344320i32.wrapping_mul(raw_i32_8)) as u32;
    let ghost fields0 = fields@;
    let ghost offsets0 = field_offsets@;
    let mut v40: usize = 0;
    while v40 < f_count as usize
        invariant
            v40 <= f_count,
            f_count as nat == field_count_at(global_body@, t_off as int),
            global_body@.len() == global_body.len(),
            field_base == mhy.field_table_base(),
            offset_base == mhy.offset_table_base(),
            raw_i32_8 == le_i32(global_body@, t_off + 32),
            f_start_raw == (raw_i32_8 as u32).wrapping_sub(1954887780) as usize,
            v55_rec_2 == field_offset_base(global_body@, *mhy, i as int),
            v38_key == field_key(raw_i32_8, v40 as nat),
            fields@.len() == fields0.len() + v40,
            field_offsets@.len() == offsets0.len() + v40,
            forall|g: int| 0 <= g < fields0.len() ==> #[trigger] fields@[g] == fields0[g],
            forall|g: int| 0 <= g < offsets0.len() ==> #[trigger] field_offsets@[g] == offsets0[g],
            forall|g: int|
                fields0.len() <= g < fields@.len() ==> {
                    let field = decoded_field(
                        global_body@,
                        decryptor.body(),
                        decryptor.table(),
                        mhy.field_table_base(),
                        t_off as int,
                        (g - fields0.len()) as nat,
                    );
                    (#[trigger] fields@[g])@ == FieldDefView {
                        name: field.0,
                        name_off: 0,
                        type_index: field.1,
                        token: 0x0400_0000 | (g as u32).wrapping_add(1),
                    }
                },
            forall|g: int|
                offsets0.len() <= g < field_offsets@.len() ==> {
                    let j = g - offsets0.len();
                    &&& (#[trigger] field_offsets@[g]).type_idx == i as u32
                    &&& field_offsets@[g].field_idx_in_type == j as u32
                    &&& field_offsets@[g].offset == decoded_field_offset(
                        global_body@,
                        *mhy,
                        field_offset_base(global_body@, *mhy, i as int),
                        j as nat,
                    )
                },
        decreases f_count - v40,
    {
        let at = match f_start_raw.checked_add(v40) {
            Some(index) => offset_of(field_base, index, 8, 0),
            None => None,
        };
        let (fname, ftype_idx) = match at {
            Some(f_off) if f_off <= global_body.len() && global_body.len() - f_off >= 8 => {
                let raw_0 = read_u32_at(global_body, f_off);
                let raw_1 = read_u32_at(global_body, f_off + 4);
                let fname_idx = v38_key.wrapping_add(raw_0).wrapping_add(716162949);
                let ftype = v38_key.wrapping_add(raw_1) as i32;
                let mut fnm = decryptor.decrypt_string(fname_idx);
                if fnm.as_str().is_empty() {
                    fnm = numbered_name("field_", v40, "");
                    proof {
                        reveal_strlit("");
                        assert(fnm@ =~= "field_"@ + decimal_digits(v40 as nat));
                    }
                }
                (fnm, ftype)
            },
            _ => {
                let fnm = numbered_name("field_", v40, "");
                proof {
                    reveal_strlit("");
                    assert(fnm@ =~= "field_"@ + decimal_digits(v40 as nat));
                }
                (fnm, -1i32)
            },
        };
        let off_idx = (v40 as i32).wrapping_add(v55_rec_2) as usize;
        proof {
            reveal(decoded_field_offset);
            reveal(decoded_field);
        }
        let foff = match offset_of(offset_base, off_idx, 4, 0) {
            Some(at) => if at <= global_body.len() && global_body.len() - at >= 4 {
                read_u32_at(global_body, at) & 0xFFFFFF
            } else {
                0
            },
            None => 0,
        };
        field_offsets.push(
            FieldOffsetEntry { type_idx: i as u32, field_idx_in_type: v40 as u32, offset: foff },
        );
        let token = 0x04000000 | (#[verifier::truncate] (fields.len() as u32)).wrapping_add(1);
        fields.push(FieldDef { name: fname, name_off: 0, type_index: ftype_idx, token });
        let ghost old_v40 = v40;
        v38_key = v38_key.wrapping_sub(744344320);
        v40 = v40 + 1;
        assert(field_key(raw_i32_8, v40 as nat) == field_key(raw_i32_8, old_v40 as nat).wrapping_sub(
            744344320,
        ));
    }
}

/// The interface-count bias of the type table at `offset`: the count byte of its first record.
pub open spec fn interface_bias(body: Seq<u8>, offset: int) -> u8 {
    match byte_at(body, offset + 68) {
        Some(b) => b,
        None => 0,
    }
}

/// The type definition that record `i` of the table at `offset` decodes to.
pub open spec fn table_type(
    body: Seq<u8>,
    names: Seq<u8>,
    table: nat,
    containers: Seq<i32>,
    core: (i32, i32),
    offset: int,
    i: int,
) -> TypeDefView {
    decoded_type(
        body,
        names,
        table,
        containers,
        core.0,
        core.1,
        interface_range_at(body, offset + 70 * i, interface_bias(body, offset)),
        offset + 70 * i,
        i,
        fields_before(body, offset, i as nat) as i32,
    )
}

/// Whether `fields` and `field_offsets` hold, at each field's position, the decoded field and
/// its runtime offset, for every field of the first `n` type records of the table at `offset`.
pub open spec fn fields_decoded(
    body: Seq<u8>,
    names: Seq<u8>,
    table: nat,
    mhy: MhyHeader,
    offset: int,
    n: nat,
    fields: Seq<FieldDef>,
    field_offsets: Seq<FieldOffsetEntry>,
) -> bool {
    forall|k: nat, j: nat|
        #![trigger fields[field_position(body, offset, k, j)]]
        k < n && j < field_count_at(body, offset + 70 * k) ==> {
            let g = field_position(body, offset, k, j);
            let field = decoded_field(body, names, table, mhy.field_table_base(), offset + 70 * k, j);
            &&& fields[g]@ == FieldDefView {
                name: field.0,
                name_off: 0,
                type_index: field.1,
                token: 0x0400_0000 | (g as u32).wrapping_add(1),
            }
            &&& field_offsets[g].type_idx == k as u32
            &&& field_offsets[g].field_idx_in_type == j as u32
            &&& field_offsets[g].offset == decoded_field_offset(
                body,
                mhy,
                field_offset_base(body, mhy, k as int),
                j,
            )
        }
}

/// Decodes the type records that the profile locates, their fields, and the runtime offset
/// of every field; decoding stops at the first type record that runs past the body.
pub fn decrypt_types_and_fields(
    global_body: &[u8],
    mhy: &MhyHeader,
    decryptor: &StringDecryptor,
    type_generic_containers: &[i32],
    profile: &BuildProfile,
) -> (r: (Vec<TypeDef>, Vec<FieldDef>, Vec<FieldOffsetEntry>))
    ensures
        ({
            let (types, fields, field_offsets) = r;
            let offset = profile.type_definition_offset as int;
            let core = core_type_scan(
                global_body@,
                decryptor.body(),
                decryptor.table(),
                offset,
                profile.type_definition_count as nat,
            );
            let n = types@.len();
            &&& n <= profile.type_definition_count
            &&& forall|i: int| 0 <= i < n ==> type_record_fits(global_body@, offset, i)
            &&& n == profile.type_definition_count || !type_record_fits(global_body@, offset, n as int)
            &&& forall|i: int|
                0 <= i < n ==> (#[trigger] types@[i])@ == table_type(
                    global_body@,
                    decryptor.body(),
                    decryptor.table(),
                    type_generic_containers@,
                    (core.0, core.1),
                    offset,
                    i,
                )
            &&& fields@.len() == fields_before(global_body@, offset, n)
            &&& field_offsets@.len() == fields@.len()
            &&& fields_decoded(
                global_body@,
                decryptor.body(),
                decryptor.table(),
                *mhy,
                offset,
                n,
                fields@,
                field_offsets@,
            )
        }),
{
    let total_types = profile.type_definition_count;
    let type_def_off = profile.type_definition_offset;
    let interface_ranges = decode_interface_ranges(global_body, type_def_off, total_types);
    let (enum_type_index, value_type_index) = find_core_type_indices(
        global_body,
        decryptor,
        type_def_off,
        total_types,
    );
    let ghost offset = type_def_off as int;
    let limit = if type_def_off > global_body.len() {
        0
    } else {
        (global_body.len() - type_def_off) / 70
    };
    let count = if total_types < limit {
        total_types
    } else {
        limit
    };
    assert(count == total_types || !type_record_fits(global_body@, offset, count as int));
    let mut types: Vec<TypeDef> = Vec::new();
    let mut fields: Vec<FieldDef> = Vec::new();
    let mut field_offsets: Vec<FieldOffsetEntry> = Vec::new();
    let mut i: usize = 0;
    while i < count
        invariant
            i <= count,
            count <= total_types,
            count == total_types || !type_record_fits(global_body@, offset, count as int),
            count <= limit,
            limit == (if type_def_off > global_body@.len() {
                0
            } else {
                (global_body@.len() - type_def_off) / 70
            }),
            total_types == profile.type_definition_count,
            type_def_off == profile.type_definition_offset,
            offset == type_def_off,
            global_body@.len() == global_body.len(),
            interface_ranges@.len() == total_types,
            forall|k: int|
                0 <= k < total_types ==> #[trigger] interface_ranges@[k] == interface_range_at(
                    global_body@,
                    type_def_off + 70 * k,
                    interface_bias(global_body@, offset),
                ),
            enum_type_index == core_type_scan(
                global_body@,
                decryptor.body(),
                decryptor.table(),
                offset,
                total_types as nat,
            ).0,
            value_type_index == core_type_scan(
                global_body@,
                decryptor.body(),
                decryptor.table(),
                offset,
                total_types as nat,
            ).1,
            types@.len() == i,
            forall|k: int| 0 <= k < i ==> type_record_fits(global_body@, offset, k),
            forall|k: int|
                0 <= k < i ==> (#[trigger] types@[k])@ == table_type(
                    global_body@,
                    decryptor.body(),
                    decryptor.table(),
                    type_generic_containers@,
                    (enum_type_index, value_type_index),
                    offset,
                    k,
                ),
            fields@.len() == fields_before(global_body@, offset, i as nat),
            field_offsets@.len() == fields@.len(),
            fields_decoded(
                global_body@,
                decryptor.body(),
                decryptor.table(),
                *mhy,
                offset,
                i as nat,
                fields@,
                field_offsets@,
            ),
        decreases count - i,
    {
        let t_off = type_def_off + i * 70;
        let f_start = #[verifier::truncate] (fields.len() as i32);
        let type_definition = decode_type_record(
            global_body,
            decryptor,
            type_generic_containers,
            enum_type_index,
            value_type_index,
            interface_ranges[i],
            t_off,
            i,
            f_start,
        );
        let ghost fields_old = fields@;
        let ghost offsets_old = field_offsets@;
        decode_type_fields(global_body, decryptor, mhy, t_off, i, &mut fields, &mut field_offsets);
        types.push(type_definition);
        proof {
            assert forall|k: nat, j: nat|
                k < i + 1 && j < field_count_at(global_body@, offset + 70 * k) implies {
                    let g = field_position(global_body@, offset, k, j);
                    let field = decoded_field(
                        global_body@,
                        decryptor.body(),
                        decryptor.table(),
                        mhy.field_table_base(),
                        offset + 70 * k,
                        j,
                    );
                    &&& #[trigger] fields@[field_position(global_body@, offset, k, j)]@ == FieldDefView {
                        name: field.0,
                        name_off: 0,
                        type_index: field.1,
                        token: 0x0400_0000 | (g as u32).wrapping_add(1),
                    }
                    &&& field_offsets@[g].type_idx == k as u32
                    &&& field_offsets@[g].field_idx_in_type == j as u32
                    &&& field_offsets@[g].offset == decoded_field_offset(
                        global_body@,
                        *mhy,
                        field_offset_base(global_body@, *mhy, k as int),
                        j,
                    )
                } by {
                let g = field_position(global_body@, offset, k, j);
                if k < i {
                    lemma_fields_before_monotone(global_body@, offset, k + 1, i as nat);
                    assert(fields@[g] == fields_old[g]);
                    assert(field_offsets@[g] == offsets_old[g]);
                } else {
                    assert(g - fields_old.len() == j);
                }
            }
        }
        i = i + 1;
    }
    (types, fields, field_offsets)
}

/// Counting the fields of more types never gives fewer.
pub proof fn lemma_fields_before_monotone(body: Seq<u8>, offset: int, a: nat, b: nat)
    requires
        a <= b,
    ensures
        fields_before(body, offset, a) <= fields_before(body, offset, b),
    decreases b - a,
{
    if a < b {
        lemma_fields_before_monotone(body, offset, a, (b - 1) as nat);
    }
}

} // verus!
