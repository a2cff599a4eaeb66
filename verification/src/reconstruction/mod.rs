pub mod defaults;
pub mod generics;
pub mod images;
pub mod input;
pub mod literals;
pub mod mappings;
pub mod members;
pub mod methods;
pub mod model;
pub mod naming;
pub mod strings;
pub mod types;

use crate::discovery::mhy::MhyHeader;
use crate::bytes::{in_bounds, le_i16, le_i32, le_u16, le_u32, read_i16_at, read_i32_at, read_u32_at};
use crate::discovery::profile::BuildProfile;
use crate::errors::ReconstructError;
use crate::reconstruction::defaults::{decode as decode_default_values, clamped_range, default_record, default_record_count};
use crate::reconstruction::generics::{decrypt_generics, generics_decoded, is_decoded_generic_parameter, records_within};
use crate::reconstruction::images::{decrypt_images, image_run, is_image_record, ImageDef};
use crate::reconstruction::input::ReconstructionInputs;
use crate::reconstruction::literals::{decrypt as decrypt_string_literals, literal_datas};
use crate::reconstruction::mappings::{extract_method_mappings, method_mappings, pointer_slots};
use crate::reconstruction::members::{
    decode_events, decode_properties, event_table_len, is_decoded_event, is_decoded_property, max_range_end, property_table_len,
    range_end, record_fits, EventDef, PropertyDef,
};
use crate::reconstruction::methods::{decrypt_methods, decrypt_parameters, is_decoded_method, is_decoded_parameter, method_term, parameter_range, MethodDef, ParamDef};
use crate::reconstruction::model::{DecodedMetadata, GenericClassEntry, InterfaceOffsetEntry};
use crate::reconstruction::naming::{
    interned, name_events, name_fields, name_generic_parameters, name_images, name_methods,
    name_parameters, name_properties, name_types, pool_sound,
};
use crate::reconstruction::strings::{StringDecryptor, StringPool};
use crate::reconstruction::types::{
    lemma_nested_children_same, lemma_nested_list_same,
    build_nested_type_indices, core_type_scan, decode_type_generic_containers, decrypt_types_and_fields, last_with_byval,
    decoded_field, decoded_field_offset, field_count_at, field_offset_base, field_position, fields_before, fields_decoded,
    nested_children, nested_list, table_type, type_generic_container_at, FieldDef, FieldDefView,
    TypeDef, TypeDefView,
};
use vstd::prelude::*;

verus! {

/// The smaller of `count` and the number of `size`-byte records that fit in `body` from `base`
/// on.
pub open spec fn fitting(body: Seq<u8>, base: usize, size: nat, count: nat) -> nat {
    vstd::math::min(count as int, records_within(body.len(), base as nat, size) as int) as nat
}

/// The end of the furthest nonempty method range among the first `n` types; 0 when there is
/// none.
pub open spec fn declared_method_end(types: Seq<TypeDef>, n: nat) -> int
    decreases n,
{
    if n == 0 {
        0
    } else {
        let earlier = declared_method_end(types, (n - 1) as nat);
        let t = types[n - 1];
        if t.m_count > 0 && t.m_start + t.m_count > earlier {
            t.m_start + t.m_count
        } else {
            earlier
        }
    }
}

/// The end of the furthest parameter range among the first `n` methods that have one; 0 when
/// there is none.
pub open spec fn declared_parameter_end(methods: Seq<MethodDef>, n: nat) -> int
    decreases n,
{
    if n == 0 {
        0
    } else {
        let earlier = declared_parameter_end(methods, (n - 1) as nat);
        let k = methods[n - 1];
        if k.parameter_start >= 0 && k.parameter_start + k.parameter_count > earlier {
            k.parameter_start + k.parameter_count
        } else {
            earlier
        }
    }
}

/// The number of interface entries that the types' interface ranges cover.
pub open spec fn interface_table_len(types: Seq<TypeDef>) -> nat {
    max_range_end(types, types.len(), |t: TypeDef| range_end(t.if_start, t.if_count))
}

/// The number of vtable entries that the types' vtable ranges cover.
pub open spec fn vtable_table_len(types: Seq<TypeDef>) -> nat {
    max_range_end(types, types.len(), |t: TypeDef| range_end(t.vtable_start, t.vtable_count))
}

/// The number of interface-offset entries that the types' ranges cover.
pub open spec fn interface_offset_table_len(types: Seq<TypeDef>) -> nat {
    max_range_end(
        types,
        types.len(),
        |t: TypeDef| range_end(t.interface_offset_start, t.interface_offset_count),
    )
}

fn interface_table_len_of(types: &Vec<TypeDef>) -> (r: usize)
    ensures
        r == interface_table_len(types@),
{
    let mut maximum: usize = 0;
    let mut i: usize = 0;
    while i < types.len()
        invariant
            i <= types@.len(),
            maximum == max_range_end(types@, i as nat, |t: TypeDef| range_end(t.if_start, t.if_count)),
        decreases types@.len() - i,
    {
        let t = &types[i];
        if t.if_count > 0 && t.if_start >= 0 {
            let end = t.if_start as usize + t.if_count as usize;
            if end > maximum {
                maximum = end;
            }
        }
        i = i + 1;
    }
    maximum
}

fn vtable_table_len_of(types: &Vec<TypeDef>) -> (r: usize)
    ensures
        r == vtable_table_len(types@),
{
    let mut maximum: usize = 0;
    let mut i: usize = 0;
    while i < types.len()
        invariant
            i <= types@.len(),
            maximum == max_range_end(types@, i as nat, |t: TypeDef| range_end(t.vtable_start, t.vtable_count)),
        decreases types@.len() - i,
    {
        let t = &types[i];
        if t.vtable_count > 0 && t.vtable_start >= 0 {
            let end = t.vtable_start as usize + t.vtable_count as usize;
            if end > maximum {
                maximum = end;
            }
        }
        i = i + 1;
    }
    maximum
}

fn interface_offset_table_len_of(types: &Vec<TypeDef>) -> (r: usize)
    ensures
        r == interface_offset_table_len(types@),
{
    let mut maximum: usize = 0;
    let mut i: usize = 0;
    while i < types.len()
        invariant
            i <= types@.len(),
            maximum == max_range_end(
                types@,
                i as nat,
                |t: TypeDef| range_end(t.interface_offset_start, t.interface_offset_count),
            ),
        decreases types@.len() - i,
    {
        let t = &types[i];
        if t.interface_offset_count > 0 && t.interface_offset_start >= 0 {
            let end = t.interface_offset_start as usize + t.interface_offset_count as usize;
            if end > maximum {
                maximum = end;
            }
        }
        i = i + 1;
    }
    maximum
}

fn record_room(len: usize, base: usize, size: usize, count: usize) -> (r: usize)
    requires
        size > 0,
    ensures
        r == vstd::math::min(count as int, records_within(len as nat, base as nat, size as nat) as int),
{
    let room = if base <= len {
        (len - base) / size
    } else {
        0
    };
    if count < room {
        count
    } else {
        room
    }
}

/// The interface table: as many of the entries that the types' interface ranges cover as fit
/// in `global_body`.
pub fn decode_interfaces(global_body: &[u8], mhy: &MhyHeader, types: &Vec<TypeDef>) -> (r: Vec<i32>)
    ensures
        r@.len() == fitting(global_body@, mhy.interface_table_base(), 4, interface_table_len(types@)),
        forall|i: int| 0 <= i < r@.len() ==> #[trigger] r@[i] == le_i32(global_body@, mhy.interface_table_base() + 4 * i),
{
    let base = mhy.interface_table_base();
    let n = record_room(global_body.len(), base, 4, interface_table_len_of(types));
    let mut result: Vec<i32> = Vec::new();
    let mut i: usize = 0;
    while i < n
        invariant
            i <= n,
            n <= records_within(global_body@.len(), base as nat, 4),
            result@.len() == i,
            forall|j: int| 0 <= j < i ==> #[trigger] result@[j] == le_i32(global_body@, base + 4 * j),
        decreases n - i,
    {
        assert(global_body@.len() == global_body.len());
        result.push(read_i32_at(global_body, base + i * 4));
        i = i + 1;
    }
    result
}

/// The vtable-method table: as many of the entries that the types' vtable ranges cover as fit
/// in `global_body`.
pub fn decode_vtable_methods(global_body: &[u8], mhy: &MhyHeader, types: &Vec<TypeDef>) -> (r: Vec<u32>)
    ensures
        r@.len() == fitting(global_body@, mhy.vtable_method_table_base(), 4, vtable_table_len(types@)),
        forall|i: int| 0 <= i < r@.len() ==> #[trigger] r@[i] == le_u32(global_body@, mhy.vtable_method_table_base() + 4 * i),
{
    let base = mhy.vtable_method_table_base();
    let n = record_room(global_body.len(), base, 4, vtable_table_len_of(types));
    let mut result: Vec<u32> = Vec::new();
    let mut i: usize = 0;
    while i < n
        invariant
            i <= n,
            n <= records_within(global_body@.len(), base as nat, 4),
            result@.len() == i,
            forall|j: int| 0 <= j < i ==> #[trigger] result@[j] == le_u32(global_body@, base + 4 * j),
        decreases n - i,
    {
        assert(global_body@.len() == global_body.len());
        result.push(read_u32_at(global_body, base + i * 4));
        i = i + 1;
    }
    result
}

/// The interface-offset table: as many of the entries that the types' ranges cover as fit in
/// `global_body`; each is a type index and a 16-bit slot offset.
pub fn decode_interface_offsets(global_body: &[u8], mhy: &MhyHeader, types: &Vec<TypeDef>) -> (r: Vec<InterfaceOffsetEntry>)
    ensures
        r@.len() == fitting(global_body@, mhy.interface_offset_table_base(), 6, interface_offset_table_len(types@)),
        forall|i: int|
            0 <= i < r@.len() ==> (#[trigger] r@[i]).type_index == le_i32(global_body@, mhy.interface_offset_table_base() + 6 * i)
                && r@[i].offset == le_i16(global_body@, mhy.interface_offset_table_base() + 6 * i + 4) as i32,
{
    let base = mhy.interface_offset_table_base();
    let n = record_room(global_body.len(), base, 6, interface_offset_table_len_of(types));
    let mut result: Vec<InterfaceOffsetEntry> = Vec::new();
    let mut i: usize = 0;
    while i < n
        invariant
            i <= n,
            n <= records_within(global_body@.len(), base as nat, 6),
            result@.len() == i,
            forall|j: int|
                0 <= j < i ==> (#[trigger] result@[j]).type_index == le_i32(global_body@, base + 6 * j)
                    && result@[j].offset == le_i16(global_body@, base + 6 * j + 4) as i32,
        decreases n - i,
    {
        assert(global_body@.len() == global_body.len());
        let offset = base + i * 6;
        result.push(InterfaceOffsetEntry {
            type_index: read_i32_at(global_body, offset),
            offset: read_i16_at(global_body, offset + 4) as i32,
        });
        i = i + 1;
    }
    result
}

/// The generic-class table of `startup_metadata`: as many of the `count` 8-byte records at
/// `base` as fit, each a type definition and a generic instance.
pub fn decode_generic_classes(startup_metadata: &[u8], count: usize, base: usize) -> (r: Vec<GenericClassEntry>)
    ensures
        r@.len() == fitting(startup_metadata@, base, 8, count as nat),
        forall|i: int|
            0 <= i < r@.len() ==> (#[trigger] r@[i]).type_definition_index == le_i32(startup_metadata@, base + 8 * i)
                && r@[i].generic_inst_index == le_i32(startup_metadata@, base + 8 * i + 4),
{
    let n = record_room(startup_metadata.len(), base, 8, count);
    let mut result: Vec<GenericClassEntry> = Vec::new();
    let mut i: usize = 0;
    while i < n
        invariant
            i <= n,
            n <= records_within(startup_metadata@.len(), base as nat, 8),
            result@.len() == i,
            forall|j: int|
                0 <= j < i ==> (#[trigger] result@[j]).type_definition_index == le_i32(startup_metadata@, base + 8 * j)
                    && result@[j].generic_inst_index == le_i32(startup_metadata@, base + 8 * j + 4),
        decreases n - i,
    {
        assert(startup_metadata@.len() == startup_metadata.len());
        let offset = base + i * 8;
        result.push(GenericClassEntry {
            type_definition_index: read_i32_at(startup_metadata, offset),
            generic_inst_index: read_i32_at(startup_metadata, offset + 4),
        });
        i = i + 1;
    }
    result
}

/// How many of the `count` type records at `offset` lie in `body`: they stop at the first
/// that does not.
pub open spec fn type_run(body: Seq<u8>, offset: int, count: nat) -> nat {
    if offset > body.len() {
        0
    } else {
        vstd::math::min(count as int, (body.len() - offset) / 70) as nat
    }
}

/// The end of the furthest nonempty method range that the first `n` type records at `offset`
/// declare; 0 when there is none.
pub open spec fn record_method_end(body: Seq<u8>, offset: int, n: nat) -> int
    decreases n,
{
    if n == 0 {
        0
    } else {
        let earlier = record_method_end(body, offset, (n - 1) as nat);
        let record = offset + 70 * (n - 1);
        let start = le_u32(body, record + 8) ^ 0x1A7AF5FE;
        let count = le_u16(body, record + 52).wrapping_add(24467);
        if count > 0 && start + count > earlier {
            start + count
        } else {
            earlier
        }
    }
}

/// The end of the furthest parameter range that the first `n` method records at `base`
/// declare, in a parameter table of `total_params` records; 0 when there is none.
pub open spec fn record_parameter_end(body: Seq<u8>, base: int, total_params: nat, n: nat) -> int
    decreases n,
{
    if n == 0 {
        0
    } else {
        let earlier = record_parameter_end(body, base, total_params, (n - 1) as nat);
        let m = n - 1;
        let record = base + 26 * m;
        let term = method_term(m as u128);
        let range = parameter_range(
            (body[record + 24] ^ (term as u8) ^ 0xA8) as u16,
            le_u32(body, record + 4) ^ term ^ 0x9889B8,
            total_params,
        );
        if range.0 >= 0 && range.0 + range.1 > earlier {
            range.0 + range.1
        } else {
            earlier
        }
    }
}

/// The number of methods that the type table of `profile` declares.
pub open spec fn declared_method_count(body: Seq<u8>, profile: BuildProfile) -> int {
    let offset = profile.type_definition_offset as int;
    record_method_end(body, offset, type_run(body, offset, profile.type_definition_count as nat))
}

/// Whether some method is declared and the bytes that decoding reads of the last declared
/// method record (the first 25 of its 26) run past the end of the body.
pub open spec fn method_table_overflows(body: Seq<u8>, mhy: MhyHeader, profile: BuildProfile) -> bool {
    let count = declared_method_count(body, profile);
    count > 0 && mhy.method_table_base() + 26 * count - 1 > body.len()
}

/// The type that record `i` of the type table that `profile` locates decodes to, before it
/// is named and linked to its nested types.
pub open spec fn decoded_type_at(body: Seq<u8>, mhy: MhyHeader, profile: BuildProfile, i: int) -> TypeDefView {
    let offset = profile.type_definition_offset as int;
    let count = profile.type_definition_count as nat;
    let table = mhy.string_table_off() as nat;
    let core = core_type_scan(body, body, table, offset, count);
    table_type(
        body,
        body,
        table,
        Seq::new(count, |k: int| type_generic_container_at(body, offset + 70 * k)),
        (core.0, core.1),
        offset,
        i,
    )
}

proof fn lemma_field_position_below(body: Seq<u8>, offset: int, n: nat, k: nat, j: nat)
    requires
        k < n,
        j < field_count_at(body, offset + 70 * k),
    ensures
        field_position(body, offset, k, j) < fields_before(body, offset, n),
    decreases n,
{
    if k + 1 < n {
        lemma_field_position_below(body, offset, (n - 1) as nat, k, j);
    }
}




proof fn lemma_range_ends_same(a: Seq<TypeDef>, b: Seq<TypeDef>, n: nat, ends: spec_fn(TypeDef) -> Option<nat>)
    requires
        n <= a.len(),
        a.len() == b.len(),
        forall|i: int| 0 <= i < a.len() ==> ends(#[trigger] a[i]) == ends(b[i]),
    ensures
        max_range_end(a, n, ends) == max_range_end(b, n, ends),
    decreases n,
{
    if n > 0 {
        lemma_range_ends_same(a, b, (n - 1) as nat, ends);
        assert(ends(a[n - 1]) == ends(b[n - 1]));
    }
}

/// How many eight-byte parameter records fit in `body` after the parameter table's start.
pub open spec fn parameter_capacity(body: Seq<u8>, mhy: MhyHeader) -> nat {
    let base = mhy.param_table_base();
    if base <= body.len() {
        ((body.len() - base) / 8) as nat
    } else {
        0
    }
}

/// Whether some parameter is declared and the last parameter record that the declared
/// methods use runs past the end of the body.
pub open spec fn parameter_table_overflows(body: Seq<u8>, mhy: MhyHeader, profile: BuildProfile) -> bool {
    let count = record_parameter_end(
        body,
        mhy.method_table_base() as int,
        parameter_capacity(body, mhy),
        declared_method_count(body, profile) as nat,
    );
    count > 0 && mhy.param_table_base() + 8 * count > body.len()
}

proof fn lemma_record_method_end(types: Seq<TypeDef>, body: Seq<u8>, offset: int, n: nat)
    requires
        n <= types.len(),
        forall|i: int|
            0 <= i < n ==> (#[trigger] types[i]).m_start == le_u32(body, offset + 70 * i + 8) ^ 0x1A7AF5FE
                && types[i].m_count == le_u16(body, offset + 70 * i + 52).wrapping_add(24467),
    ensures
        declared_method_end(types, n) == record_method_end(body, offset, n),
    decreases n,
{
    if n > 0 {
        lemma_record_method_end(types, body, offset, (n - 1) as nat);
        assert(types[n - 1].m_start == le_u32(body, offset + 70 * (n - 1) + 8) ^ 0x1A7AF5FE);
    }
}

proof fn lemma_record_parameter_end(methods: Seq<MethodDef>, body: Seq<u8>, base: int, total_params: nat, n: nat)
    requires
        n <= methods.len(),
        forall|m: int|
            0 <= m < n ==> {
                let record = base + 26 * m;
                let term = method_term(m as u128);
                let range = parameter_range(
                    (body[record + 24] ^ (term as u8) ^ 0xA8) as u16,
                    le_u32(body, record + 4) ^ term ^ 0x9889B8,
                    total_params,
                );
                (#[trigger] methods[m]).parameter_start == range.0 && methods[m].parameter_count == range.1
            },
    ensures
        declared_parameter_end(methods, n) == record_parameter_end(body, base, total_params, n),
    decreases n,
{
    if n > 0 {
        lemma_record_parameter_end(methods, body, base, total_params, (n - 1) as nat);
        assert(methods[n - 1].parameter_start == methods[n - 1].parameter_start);
    }
}

proof fn lemma_method_end_same(a: Seq<TypeDef>, b: Seq<TypeDef>, n: nat)
    requires
        n <= a.len(),
        a.len() == b.len(),
        forall|i: int| 0 <= i < a.len() ==> #[trigger] a[i].m_start == b[i].m_start && a[i].m_count == b[i].m_count,
    ensures
        declared_method_end(a, n) == declared_method_end(b, n),
    decreases n,
{
    if n > 0 {
        lemma_method_end_same(a, b, (n - 1) as nat);
        assert(a[n - 1].m_start == b[n - 1].m_start);
    }
}

proof fn lemma_parameter_end_same(a: Seq<MethodDef>, b: Seq<MethodDef>, n: nat)
    requires
        n <= a.len(),
        a.len() == b.len(),
        forall|i: int|
            0 <= i < a.len() ==> #[trigger] a[i].parameter_start == b[i].parameter_start
                && a[i].parameter_count == b[i].parameter_count,
    ensures
        declared_parameter_end(a, n) == declared_parameter_end(b, n),
    decreases n,
{
    if n > 0 {
        lemma_parameter_end_same(a, b, (n - 1) as nat);
        assert(a[n - 1].parameter_start == b[n - 1].parameter_start);
    }
}

fn method_count_of(types: &Vec<TypeDef>) -> (r: u64)
    ensures
        r == declared_method_end(types@, types@.len()),
{
    let mut maximum: u64 = 0;
    let mut i: usize = 0;
    while i < types.len()
        invariant
            i <= types@.len(),
            maximum == declared_method_end(types@, i as nat),
            maximum <= 0x1_0001_0000,
        decreases types.len() - i,
    {
        let t = &types[i];
        if t.m_count > 0 {
            let end = t.m_start as u64 + t.m_count as u64;
            if end > maximum {
                maximum = end;
            }
        }
        i = i + 1;
    }
    maximum
}

fn parameter_count_of(methods: &Vec<MethodDef>) -> (r: u64)
    ensures
        r == declared_parameter_end(methods@, methods@.len()),
{
    let mut maximum: u64 = 0;
    let mut i: usize = 0;
    while i < methods.len()
        invariant
            i <= methods@.len(),
            maximum == declared_parameter_end(methods@, i as nat),
            maximum <= 0x8001_0000,
        decreases methods.len() - i,
    {
        let k = &methods[i];
        if k.parameter_start >= 0 {
            let end = k.parameter_start as u64 + k.parameter_count as u64;
            if end > maximum {
                maximum = end;
            }
        }
        i = i + 1;
    }
    maximum
}

/// Whether `m` is what `decode` gives for `inputs` and `profile`: every table decoded from
/// the metadata body, the startup metadata and the dll as the header and the profile locate
/// it, every name interned in one sound string pool.
pub open spec fn is_decoding(m: DecodedMetadata, inputs: ReconstructionInputs, profile: BuildProfile) -> bool {
    let body = inputs.global_body@;
    let mhy = inputs.mhy;
    &&& m.interfaces@.len() == fitting(body, mhy.interface_table_base(), 4, interface_table_len(m.types@))
    &&& (forall|i: int| 0 <= i < m.interfaces@.len() ==> #[trigger] m.interfaces@[i] == le_i32(body, mhy.interface_table_base() + 4 * i))
    &&& m.vtable_methods@.len() == fitting(body, mhy.vtable_method_table_base(), 4, vtable_table_len(m.types@))
    &&& (forall|i: int| 0 <= i < m.vtable_methods@.len() ==> #[trigger] m.vtable_methods@[i] == le_u32(body, mhy.vtable_method_table_base() + 4 * i))
    &&& m.interface_offsets@.len() == fitting(body, mhy.interface_offset_table_base(), 6, interface_offset_table_len(m.types@))
    &&& (forall|i: int|
        0 <= i < m.interface_offsets@.len() ==> (#[trigger] m.interface_offsets@[i]).type_index == le_i32(body, mhy.interface_offset_table_base() + 6 * i)
            && m.interface_offsets@[i].offset == le_i16(body, mhy.interface_offset_table_base() + 6 * i + 4) as i32)
    &&& m.generic_classes@.len() == fitting(inputs.startup_metadata@, inputs.generic_class_source_offset, 8, inputs.generic_class_count as nat)
    &&& (forall|i: int|
        0 <= i < m.generic_classes@.len() ==> (#[trigger] m.generic_classes@[i]).type_definition_index == le_i32(inputs.startup_metadata@, inputs.generic_class_source_offset + 8 * i)
            && m.generic_classes@[i].generic_inst_index == le_i32(inputs.startup_metadata@, inputs.generic_class_source_offset + 8 * i + 4))
    &&& m.string_literals@.len() == literal_datas(body, mhy, profile.string_literal_count as nat).len()
    &&& (forall|k: int| 0 <= k < m.string_literals@.len() ==> (#[trigger] m.string_literals@[k]).data@ == literal_datas(body, mhy, profile.string_literal_count as nat)[k])
    &&& m.field_defaults@.len() == default_record_count(body, mhy.field_default_table_base(), mhy.field_default_count())
    &&& (forall|i: int|
        0 <= i < m.field_defaults@.len() ==> {
            let rec = default_record(body, mhy.field_default_table_base() as int, i);
            &&& (#[trigger] m.field_defaults@[i]).type_index == rec[0]
            &&& m.field_defaults@[i].data_index == rec[1]
            &&& m.field_defaults@[i].field_index == rec[2]
        })
    &&& m.parameter_defaults@.len() == default_record_count(body, mhy.parameter_default_table_base(), mhy.parameter_default_count())
    &&& (forall|i: int|
        0 <= i < m.parameter_defaults@.len() ==> {
            let rec = default_record(body, mhy.parameter_default_table_base() as int, i);
            &&& (#[trigger] m.parameter_defaults@[i]).type_index == rec[0]
            &&& m.parameter_defaults@[i].parameter_index == rec[1]
            &&& m.parameter_defaults@[i].data_index == rec[2]
        })
    &&& m.default_value_data@ == clamped_range(body, mhy.default_value_data_base() as nat, profile.type_definition_offset as nat)
    &&& m.expected_field_default_count == mhy.field_default_count()
    &&& m.expected_parameter_default_count == mhy.parameter_default_count()
    &&& m.types@.len() == type_run(body, profile.type_definition_offset as int, profile.type_definition_count as nat)
    &&& (forall|i: int|
        0 <= i < m.types@.len() ==> (#[trigger] m.types@[i])@ == TypeDefView {
            name_off: m.types@[i].name_off,
            ns_off: m.types@[i].ns_off,
            nested_start: m.types@[i].nested_start,
            nested_count: m.types@[i].nested_count,
            ..decoded_type_at(body, mhy, profile, i)
        })
    &&& m.nested_types@ == nested_list(m.types@, m.types@.len())
    &&& (forall|p: int|
        0 <= p < m.types@.len() ==> {
            let children = nested_children(m.types@, p, m.types@.len());
            &&& children.len() == 0 ==> (#[trigger] m.types@[p]).nested_start == -1 && m.types@[p].nested_count == 0
            &&& children.len() != 0 ==> m.types@[p].nested_start == nested_list(m.types@, p as nat).len() as i32
                && m.types@[p].nested_count == children.len() as u16
        })
    &&& m.fields@.len() == fields_before(body, profile.type_definition_offset as int, m.types@.len())
    &&& m.field_offsets@.len() == m.fields@.len()
    &&& fields_decoded(
        body,
        body,
        mhy.string_table_off() as nat,
        mhy,
        profile.type_definition_offset as int,
        m.types@.len(),
        m.fields@.map_values(|f: FieldDef| FieldDef { name_off: 0, ..f }),
        m.field_offsets@,
    )
    &&& generics_decoded(
        m.generics,
        body,
        body,
        mhy.string_table_off() as nat,
        mhy,
        profile,
        Seq::new(
            profile.type_definition_count as nat,
            |k: int| type_generic_container_at(body, profile.type_definition_offset + 70 * k),
        ),
    )
    &&& m.properties@.len() <= property_table_len(m.types@)
    &&& (m.properties@.len() == property_table_len(m.types@) || !in_bounds(body, mhy.property_table_base() + 10 * m.properties@.len(), 10))
    &&& (forall|i: int|
        0 <= i < m.properties@.len() ==> record_fits(body, mhy.property_table_base() as int, 10, i) && is_decoded_property(
            PropertyDef { name_off: 0, ..#[trigger] m.properties@[i] },
            body,
            body,
            mhy.string_table_off() as nat,
            mhy.property_table_base() as int,
            i,
        ))
    &&& m.events@.len() <= event_table_len(m.types@)
    &&& (m.events@.len() == event_table_len(m.types@) || !in_bounds(body, mhy.event_table_base() + 14 * m.events@.len(), 14))
    &&& (forall|i: int|
        0 <= i < m.events@.len() ==> record_fits(body, mhy.event_table_base() as int, 14, i) && is_decoded_event(
            EventDef { name_off: 0, ..#[trigger] m.events@[i] },
            body,
            body,
            mhy.string_table_off() as nat,
            mhy.event_table_base() as int,
            i,
        ))
    &&& m.methods@.len() == declared_method_end(m.types@, m.types@.len())
    &&& (forall|k: int|
        0 <= k < m.methods@.len() ==> is_decoded_method(
            MethodDef { name_off: 0, ..#[trigger] m.methods@[k] },
            body,
            body,
            mhy.string_table_off() as nat,
            mhy.method_table_base() as int,
            parameter_capacity(body, mhy),
            m.generics.method_to_container@,
            k,
        ))
    &&& m.parameters@.len() == declared_parameter_end(m.methods@, m.methods@.len())
    &&& (forall|i: int|
        0 <= i < m.parameters@.len() ==> is_decoded_parameter(
            ParamDef { name_off: 0, ..#[trigger] m.parameters@[i] },
            body,
            body,
            mhy.string_table_off() as nat,
            mhy.param_table_base() as int,
            i,
        ))
    &&& m.images@.len() == image_run(inputs.startup_metadata@.len(), mhy.image_off() as int, mhy.image_count() as nat)
    &&& (forall|i: int|
        0 <= i < m.images@.len() ==> is_image_record(
            ImageDef { name_off: 0, ..#[trigger] m.images@[i] },
            inputs.startup_metadata@,
            mhy,
            body,
            mhy.string_table_off() as nat,
            i,
        ))
    &&& ({
        let expected = method_mappings(
            inputs.dll@,
            m.types@,
            m.methods@,
            pointer_slots(body, mhy.table42_base() as int, fitting(body, mhy.table42_base(), 6, mhy.table42_count() as nat)),
            profile.primary_method_pointer_file_offset as int,
            profile.fallback_method_pointer_file_offset as int,
            profile.minimum_method_pointer_va,
            profile.maximum_method_pointer_va,
            m.methods@.len(),
        );
        &&& m.method_mappings@.len() == expected.len()
        &&& forall|i: int| 0 <= i < m.method_mappings@.len() ==> (#[trigger] m.method_mappings@[i]).method_idx == expected[i].0 && m.method_mappings@[i].pointer == expected[i].1
    })
    &&& pool_sound(m.strings)
    &&& (forall|i: int| 0 <= i < m.types@.len() ==> interned(m.strings, (#[trigger] m.types@[i]).name@, m.types@[i].name_off) && interned(m.strings, m.types@[i].ns@, m.types@[i].ns_off))
    &&& (forall|i: int| 0 <= i < m.methods@.len() ==> interned(m.strings, (#[trigger] m.methods@[i]).name@, m.methods@[i].name_off))
    &&& (forall|i: int| 0 <= i < m.parameters@.len() ==> interned(m.strings, (#[trigger] m.parameters@[i]).name@, m.parameters@[i].name_off))
    &&& (forall|i: int| 0 <= i < m.fields@.len() ==> interned(m.strings, (#[trigger] m.fields@[i]).name@, m.fields@[i].name_off))
    &&& (forall|i: int| 0 <= i < m.properties@.len() ==> interned(m.strings, (#[trigger] m.properties@[i]).name@, m.properties@[i].name_off))
    &&& (forall|i: int| 0 <= i < m.events@.len() ==> interned(m.strings, (#[trigger] m.events@[i]).name@, m.events@[i].name_off))
    &&& (forall|i: int| 0 <= i < m.images@.len() ==> interned(m.strings, (#[trigger] m.images@[i]).name@, m.images@[i].name_off))
    &&& m.generics.gp_name_offs@.len() == m.generics.gp_names@.len()
    &&& (forall|i: int| 0 <= i < m.generics.gp_names@.len() ==> #[trigger] interned(m.strings, m.generics.gp_names@[i]@, m.generics.gp_name_offs@[i]))
}

/// Decodes every table of the metadata and names them all in one string pool. Fails where the
/// method or parameter table that the decoded types and methods declare runs past the metadata
/// body.
pub fn decode(inputs: &ReconstructionInputs, profile: &BuildProfile) -> (r: Result<DecodedMetadata, ReconstructError>)
    ensures
        (r == Err::<DecodedMetadata, ReconstructError>(ReconstructError::MethodTableOutOfBounds)) == method_table_overflows(inputs.global_body@, inputs.mhy, *profile),
        (r == Err::<DecodedMetadata, ReconstructError>(ReconstructError::ParameterTableOutOfBounds)) == (!method_table_overflows(inputs.global_body@, inputs.mhy, *profile)
            && parameter_table_overflows(inputs.global_body@, inputs.mhy, *profile)),
        r matches Err(e) ==> e == ReconstructError::MethodTableOutOfBounds || e == ReconstructError::ParameterTableOutOfBounds,
        r matches Ok(m) ==> is_decoding(m, *inputs, *profile),
{
    let body = inputs.global_body.as_slice();
    let mhy = &inputs.mhy;
    let decryptor = StringDecryptor::new(body, mhy.string_table_off());
    let mut images = decrypt_images(inputs.startup_metadata.as_slice(), mhy, &decryptor);
    let type_generic_containers = decode_type_generic_containers(body, profile.type_definition_offset, profile.type_definition_count);
    let mut generics = decrypt_generics(body, mhy, &decryptor, profile, type_generic_containers.as_slice());
    let (mut types, mut fields, field_offsets) = decrypt_types_and_fields(body, mhy, &decryptor, type_generic_containers.as_slice(), profile);
    let ghost raw_types = types@;
    let nested_types = build_nested_type_indices(&mut types);
    proof {
        let offset = profile.type_definition_offset as int;
        let count = profile.type_definition_count as nat;
        let n = types@.len();
        assert(n == type_run(body@, offset, count)) by {
            if offset <= body@.len() {
                if n < count {
                    assert(!crate::reconstruction::types::type_record_fits(body@, offset, n as int));
                }
                if n > 0 {
                    assert(crate::reconstruction::types::type_record_fits(body@, offset, n - 1));
                }
            } else if n > 0 {
                assert(crate::reconstruction::types::type_record_fits(body@, offset, 0));
            }
        }
        assert forall|i: int| 0 <= i < n implies (#[trigger] types@[i]).m_start == le_u32(body@, offset + 70 * i + 8) ^ 0x1A7AF5FE
            && types@[i].m_count == le_u16(body@, offset + 70 * i + 52).wrapping_add(24467) by {
            assert(crate::reconstruction::types::same_but_nested(types@[i], raw_types[i]));
            let core = crate::reconstruction::types::core_type_scan(body@, decryptor.body(), decryptor.table(), offset, count);
            assert(raw_types[i]@ == crate::reconstruction::types::table_type(
                body@,
                decryptor.body(),
                decryptor.table(),
                type_generic_containers@,
                (core.0, core.1),
                offset,
                i,
            ));
            reveal(crate::reconstruction::types::decoded_type);
        }
        lemma_record_method_end(types@, body@, offset, n);
    }
    let mut properties = decode_properties(body, mhy, &decryptor, types.as_slice());
    let mut events = decode_events(body, mhy, &decryptor, types.as_slice());
    let parameter_capacity = if mhy.param_table_base() <= body.len() {
        (body.len() - mhy.param_table_base()) / 8
    } else {
        0
    };
    let method_count_wide = method_count_of(&types);
    let method_base = mhy.method_table_base();
    if method_count_wide > 0 && (method_base as u128) + 26 * (method_count_wide as u128) - 1 > body.len() as u128 {
        return Err(ReconstructError::MethodTableOutOfBounds);
    }
    let method_count = method_count_wide as usize;
    let mut methods = decrypt_methods(body, mhy, &decryptor, method_count, parameter_capacity, &generics.method_to_container);
    proof {
        assert forall|m: int| 0 <= m < methods@.len() implies {
            let record = method_base + 26 * m;
            let term = method_term(m as u128);
            let range = parameter_range(
                (body@[record + 24] ^ (term as u8) ^ 0xA8) as u16,
                le_u32(body@, record + 4) ^ term ^ 0x9889B8,
                parameter_capacity as nat,
            );
            (#[trigger] methods@[m]).parameter_start == range.0 && methods@[m].parameter_count == range.1
        } by {
            assert(crate::reconstruction::methods::is_decoded_method(
                methods@[m],
                body@,
                decryptor.body(),
                decryptor.table(),
                method_base as int,
                parameter_capacity as nat,
                generics.method_to_container@,
                m,
            ));
        }
        lemma_record_parameter_end(methods@, body@, method_base as int, parameter_capacity as nat, methods@.len());
    }
    let parameter_count_wide = parameter_count_of(&methods);
    let parameter_base = mhy.param_table_base();
    if parameter_count_wide > 0 && (parameter_base as u128) + 8 * (parameter_count_wide as u128) > body.len() as u128 {
        return Err(ReconstructError::ParameterTableOutOfBounds);
    }
    let parameter_count = parameter_count_wide as usize;
    let mut parameters = decrypt_parameters(body, mhy, &decryptor, parameter_count);
    let ghost decoded_types = types@;
    let ghost decoded_methods = methods@;
    let ghost decoded_fields = fields@;
    let mut strings = StringPool::new();
    name_types(&mut types, &mut strings);
    name_methods(&mut methods, &mut strings);
    name_parameters(&mut parameters, &mut strings);
    name_fields(&mut fields, &mut strings);
    name_properties(&mut properties, &mut strings);
    name_events(&mut events, &mut strings);
    name_images(&mut images, &mut strings);
    let ghost decoded_generics = generics;
    generics.gp_name_offs = name_generic_parameters(&generics.gp_names, &mut strings);
    proof {
        let offset = profile.type_definition_offset as int;
        let count = profile.type_definition_count as nat;
        let n = types@.len();
        let names = decryptor.body();
        let table = decryptor.table();
        let mapped = fields@.map_values(|f: FieldDef| FieldDef { name_off: 0, ..f });
        assert forall|k: nat, j: nat|
            k < n && j < field_count_at(body@, offset + 70 * k) implies {
                let g = field_position(body@, offset, k, j);
                let field = decoded_field(body@, names, table, mhy.field_table_base(), offset + 70 * k, j);
                &&& #[trigger] mapped[field_position(body@, offset, k, j)]@ == FieldDefView {
                    name: field.0,
                    name_off: 0,
                    type_index: field.1,
                    token: 0x0400_0000 | (g as u32).wrapping_add(1),
                }
                &&& field_offsets@[g].type_idx == k as u32
                &&& field_offsets@[g].field_idx_in_type == j as u32
                &&& field_offsets@[g].offset == decoded_field_offset(body@, *mhy, field_offset_base(body@, *mhy, k as int), j)
            } by {
            lemma_field_position_below(body@, offset, n, k, j);
            let g = field_position(body@, offset, k, j);
            assert(decoded_fields[g]@.name_off == 0);
            assert(fields@[g] == FieldDef { name_off: fields@[g].name_off, ..decoded_fields[g] });
        }
        assert(type_generic_containers@ =~= Seq::new(count, |k: int| type_generic_container_at(body@, offset + 70 * k)));
        assert forall|p: int|
            0 <= p < generics.gp_names@.len() implies #[trigger] is_decoded_generic_parameter(
                generics,
                body@,
                names,
                table,
                mhy.gp_table_base() as int,
                p,
            ) by {
            assert(is_decoded_generic_parameter(decoded_generics, body@, names, table, mhy.gp_table_base() as int, p));
        }
    }
    proof {
        lemma_method_end_same(types@, decoded_types, types@.len());
        lemma_parameter_end_same(methods@, decoded_methods, methods@.len());
        lemma_range_ends_same(types@, decoded_types, types@.len(), |t: TypeDef| range_end(t.property_start, t.property_count));
        lemma_range_ends_same(types@, decoded_types, types@.len(), |t: TypeDef| range_end(t.event_start, t.event_count));
        lemma_nested_list_same(types@, raw_types, types@.len());
        assert forall|p: int| 0 <= p <= types@.len() implies #[trigger] nested_list(types@, p as nat) == nested_list(raw_types, p as nat) by {
            lemma_nested_list_same(types@, raw_types, p as nat);
        }
        assert forall|p: int| 0 <= p < types@.len() implies #[trigger] nested_children(types@, p, types@.len()) == nested_children(raw_types, p, types@.len()) by {
            lemma_nested_children_same(types@, raw_types, p, types@.len());
        }
        let offset = profile.type_definition_offset as int;
        let count = profile.type_definition_count as nat;
        assert(type_generic_containers@ =~= Seq::new(count, |k: int| type_generic_container_at(body@, offset + 70 * k)));
        assert forall|i: int| 0 <= i < types@.len() implies (#[trigger] types@[i])@ == TypeDefView {
            name_off: types@[i].name_off,
            ns_off: types@[i].ns_off,
            nested_start: types@[i].nested_start,
            nested_count: types@[i].nested_count,
            ..decoded_type_at(body@, *mhy, *profile, i)
        } by {
            assert(crate::reconstruction::types::same_but_nested(decoded_types[i], raw_types[i]));
            let core = core_type_scan(body@, decryptor.body(), decryptor.table(), offset, count);
            assert(raw_types[i]@ == table_type(
                body@,
                decryptor.body(),
                decryptor.table(),
                type_generic_containers@,
                (core.0, core.1),
                offset,
                i,
            ));
        }
    }
    let interfaces = decode_interfaces(body, mhy, &types);
    let vtable_methods = decode_vtable_methods(body, mhy, &types);
    let interface_offsets = decode_interface_offsets(body, mhy, &types);
    let method_mappings = extract_method_mappings(body, inputs.dll.as_slice(), mhy, types.as_slice(), methods.as_slice(), profile);
    let generic_classes = decode_generic_classes(inputs.startup_metadata.as_slice(), inputs.generic_class_count, inputs.generic_class_source_offset);
    let string_literals = decrypt_string_literals(body, mhy, profile.string_literal_count);
    let default_values = decode_default_values(body, mhy, profile);
    Ok(DecodedMetadata {
        images,
        generics,
        types,
        fields,
        field_offsets,
        parameters,
        methods,
        interfaces,
        vtable_methods,
        interface_offsets,
        method_mappings,
        generic_classes,
        string_literals,
        nested_types,
        properties,
        events,
        field_defaults: default_values.fields,
        parameter_defaults: default_values.parameters,
        default_value_data: default_values.data,
        expected_field_default_count: default_values.expected_field_count,
        expected_parameter_default_count: default_values.expected_parameter_count,
        strings,
    })
}

} // verus!
