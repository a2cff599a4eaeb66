use crate::bytes::{
    i16_le_bytes, i32_le_bytes, le_i32, le_u32, le_u64, lemma_u32_bytes_roundtrip, lemma_u64_bytes_roundtrip, u16_bytes,
    u16_le_bytes, u32_bytes, u32_le_bytes, u64_bytes, u64_le_bytes,
};
use crate::reconstruction::defaults::{FieldDefaultValue, ParameterDefaultValue};
use crate::reconstruction::images::ImageDef;
use crate::reconstruction::mappings::MethodMappingEntry;
use crate::reconstruction::members::{EventDef, PropertyDef};
use crate::reconstruction::methods::{MethodDef, ParamDef};
use crate::reconstruction::model::{
    DecodedMetadata, GenericClassEntry, InterfaceOffsetEntry, OutputArtifacts,
};
use crate::reconstruction::types::{FieldDef, FieldOffsetEntry, TypeDef};
use vstd::prelude::*;

verus! {

// ---------------------------------------------------------------------------------------------
// Little-endian encoding.

/// The four bytes of `v`, least significant first.
pub open spec fn i32_bytes(v: i32) -> Seq<u8> {
    u32_bytes(v as u32)
}

/// The two bytes of `v`, least significant first.
pub open spec fn i16_bytes(v: i16) -> Seq<u8> {
    u16_bytes(v as u16)
}

/// `n` zero bytes.
pub open spec fn zeros(n: nat) -> Seq<u8> {
    Seq::new(n, |i: int| 0u8)
}

/// The records `g(0)`, ..., `g(n - 1)`, one after another.
pub open spec fn chunks(n: nat, g: spec_fn(int) -> Seq<u8>) -> Seq<u8> {
    Seq::new(n, g).flatten()
}

/// One more record at the end adds its bytes at the end.
pub proof fn lemma_chunks_push(n: nat, g: spec_fn(int) -> Seq<u8>)
    ensures
        chunks(n + 1, g) == chunks(n, g) + g(n as int),
{
    assert(Seq::new(n + 1, g) =~= Seq::new(n, g).push(g(n as int)));
    Seq::new(n, g).lemma_flatten_push(g(n as int));
}

fn append(output: &mut Vec<u8>, bytes: &[u8])
    ensures
        final(output)@ == old(output)@ + bytes@,
{
    let ghost start = output@;
    let mut i: usize = 0;
    while i < bytes.len()
        invariant
            i <= bytes@.len(),
            output@ == start + bytes@.subrange(0, i as int),
        decreases bytes.len() - i,
    {
        output.push(bytes[i]);
        i = i + 1;
        assert(output@ =~= start + bytes@.subrange(0, i as int));
    }
    assert(bytes@.subrange(0, bytes@.len() as int) =~= bytes@);
}

fn push_zeros(output: &mut Vec<u8>, n: usize)
    ensures
        final(output)@ == old(output)@ + zeros(n as nat),
{
    let ghost start = output@;
    let mut i: usize = 0;
    while i < n
        invariant
            i <= n,
            output@ == start + zeros(i as nat),
        decreases n - i,
    {
        output.push(0);
        i = i + 1;
        assert(output@ =~= start + zeros(i as nat));
    }
}

/// Appends the two bytes of `value`, least significant first.
pub fn push_i16(output: &mut Vec<u8>, value: i16)
    ensures
        final(output)@ == old(output)@ + i16_bytes(value),
{
    let bytes = i16_le_bytes(value);
    append(output, &bytes);
}

/// Appends the two bytes of `value`, least significant first.
pub fn push_u16(output: &mut Vec<u8>, value: u16)
    ensures
        final(output)@ == old(output)@ + u16_bytes(value),
{
    let bytes = u16_le_bytes(value);
    append(output, &bytes);
}

/// Appends the four bytes of `value`, least significant first.
pub fn push_i32(output: &mut Vec<u8>, value: i32)
    ensures
        final(output)@ == old(output)@ + i32_bytes(value),
{
    let bytes = i32_le_bytes(value);
    append(output, &bytes);
}

/// Appends the four bytes of `value`, least significant first.
pub fn push_u32(output: &mut Vec<u8>, value: u32)
    ensures
        final(output)@ == old(output)@ + u32_bytes(value),
{
    let bytes = u32_le_bytes(value);
    append(output, &bytes);
}

/// Appends the eight bytes of `value`, least significant first.
pub fn push_u64(output: &mut Vec<u8>, value: u64)
    ensures
        final(output)@ == old(output)@ + u64_bytes(value),
{
    let bytes = u64_le_bytes(value);
    append(output, &bytes);
}

// ---------------------------------------------------------------------------------------------
// The records of the rebuilt metadata.

/// A property record: name, getter, setter, attributes, token.
pub open spec fn property_record(v: PropertyDef) -> Seq<u8> {
    u32_bytes(v.name_off) + i32_bytes(v.get) + i32_bytes(v.set) + u32_bytes(v.attrs) + u32_bytes(v.token)
}

/// An event record: name, type, add, remove and raise methods, token.
pub open spec fn event_record(v: EventDef) -> Seq<u8> {
    u32_bytes(v.name_off) + i32_bytes(v.type_index) + i32_bytes(v.add) + i32_bytes(v.remove)
        + i32_bytes(v.raise) + u32_bytes(v.token)
}

/// A parameter-default record: parameter, type, data index.
pub open spec fn parameter_default_record(v: ParameterDefaultValue) -> Seq<u8> {
    i32_bytes(v.parameter_index) + i32_bytes(v.type_index) + i32_bytes(v.data_index)
}

/// A field-default record: field, type, data index.
pub open spec fn field_default_record(v: FieldDefaultValue) -> Seq<u8> {
    i32_bytes(v.field_index) + i32_bytes(v.type_index) + i32_bytes(v.data_index)
}

/// A generic-container record: owner, parameter count, whether a method owns it, first
/// parameter.
pub open spec fn generic_container_record(v: (i32, i32, i32, i32)) -> Seq<u8> {
    i32_bytes(v.0) + i32_bytes(v.1) + i32_bytes(v.2) + i32_bytes(v.3)
}

/// An interface-offset record: interface type and slot offset.
pub open spec fn interface_offset_record(v: InterfaceOffsetEntry) -> Seq<u8> {
    i32_bytes(v.type_index) + i32_bytes(v.offset)
}

/// A parameter record: name, token, type.
pub open spec fn parameter_record(v: ParamDef) -> Seq<u8> {
    u32_bytes(v.name_off) + u32_bytes(v.token) + i32_bytes(v.type_index)
}

/// A method record: name, declaring type (none), return type, first parameter, generic
/// container, token, flags, implementation flags (none), slot, parameter count.
pub open spec fn method_record(v: MethodDef) -> Seq<u8> {
    u32_bytes(v.name_off) + i32_bytes(-1i32) + i32_bytes(v.return_type) + i32_bytes(v.parameter_start)
        + i32_bytes(v.generic_container_index) + u32_bytes(v.token) + u16_bytes(v.flags)
        + u16_bytes(0u16) + u16_bytes(v.slot) + u16_bytes(v.parameter_count)
}

/// A field record: name, type, token.
pub open spec fn field_record(v: FieldDef) -> Seq<u8> {
    u32_bytes(v.name_off) + i32_bytes(v.type_index) + u32_bytes(v.token)
}

/// A field-offset record of the sidecar: type, field within the type, offset.
pub open spec fn field_offset_record(v: FieldOffsetEntry) -> Seq<u8> {
    u32_bytes(v.type_idx) + u32_bytes(v.field_idx_in_type) + u32_bytes(v.offset)
}

/// A method-mapping record of the sidecar: method and address.
pub open spec fn method_mapping_record(v: MethodMappingEntry) -> Seq<u8> {
    u32_bytes(v.method_idx) + u64_bytes(v.pointer)
}

/// A generic-class record of the sidecar: type definition and generic instance.
pub open spec fn generic_class_record(v: GenericClassEntry) -> Seq<u8> {
    i32_bytes(v.type_definition_index) + i32_bytes(v.generic_inst_index)
}

/// The names, indices, generic container and flags of a type record.
pub open spec fn type_record_head(v: TypeDef) -> Seq<u8> {
    u32_bytes(v.name_off) + u32_bytes(v.ns_off) + i32_bytes(v.byval_type_index) + i32_bytes(
        v.type_index,
    ) + i32_bytes(v.declaring_type_index) + i32_bytes(v.parent_index) + i32_bytes(-1i32)
        + i32_bytes(v.generic_container_index) + u32_bytes(v.flags)
}

/// The first field, method, event, property, nested type, interface, vtable slot and
/// interface offset of a type record.
pub open spec fn type_record_starts(v: TypeDef) -> Seq<u8> {
    i32_bytes(v.f_start) + i32_bytes(v.m_start as i32) + i32_bytes(v.event_start) + i32_bytes(
        v.property_start,
    ) + i32_bytes(v.nested_start) + i32_bytes(v.if_start) + i32_bytes(v.vtable_start) + i32_bytes(
        v.interface_offset_start,
    )
}

/// The member counts, bitfield and token of the record of type `index`.
pub open spec fn type_record_tail(v: TypeDef, index: int) -> Seq<u8> {
    u16_bytes(v.m_count) + u16_bytes(v.property_count) + u16_bytes(v.f_count) + u16_bytes(
        v.event_count,
    ) + u16_bytes(v.nested_count) + u16_bytes(v.vtable_count) + u16_bytes(v.if_count) + u16_bytes(
        v.interface_offset_count,
    ) + u32_bytes(v.bitfield) + u32_bytes(0x0200_0000u32 | (index as u32).wrapping_add(1))
}

/// The record of type `index`: its names, indices, flags, member ranges and token.
pub open spec fn type_record(v: TypeDef, index: int) -> Seq<u8> {
    type_record_head(v) + type_record_starts(v) + type_record_tail(v, index)
}

/// The record of generic parameter `i`: container, name, constraint range, ordinal, flags.
pub open spec fn generic_parameter_record(m: DecodedMetadata, i: int) -> Seq<u8> {
    i32_bytes(m.generics.gp_containers@[i] as i32) + u32_bytes(m.generics.gp_name_offs@[i])
        + i16_bytes(m.generics.gp_constraint_starts@[i]) + i16_bytes(
        m.generics.gp_constraint_counts@[i],
    ) + u16_bytes(m.generics.gp_nums@[i]) + u16_bytes(m.generics.gp_flags@[i])
}

/// The first type of image `n`: the number of types of the images before it, in 32-bit
/// wrapping arithmetic.
pub open spec fn image_type_start(images: Seq<ImageDef>, n: nat) -> u32
    decreases n,
{
    if n == 0 {
        0
    } else {
        image_type_start(images, (n - 1) as nat).wrapping_add(images[n - 1].type_count)
    }
}

/// The record of image `index`: name, assembly, first type, type count, and 24 zero bytes.
pub open spec fn image_record(images: Seq<ImageDef>, index: int) -> Seq<u8> {
    let v = images[index];
    i32_bytes(v.name_off as i32) + i32_bytes(index as i32) + i32_bytes(
        image_type_start(images, index as nat) as i32,
    ) + i32_bytes(v.type_count as i32) + zeros(24)
}

/// The record of assembly `index`: its image, 12 zero bytes, its name, 48 zero bytes.
pub open spec fn assembly_record(v: ImageDef, index: int) -> Seq<u8> {
    i32_bytes(index as i32) + zeros(12) + i32_bytes(v.name_off as i32) + zeros(48)
}

/// Whether the generic-parameter columns of `m` have an entry for every parameter name.
pub open spec fn generic_columns_complete(m: DecodedMetadata) -> bool {
    let n = m.generics.gp_names@.len();
    &&& m.generics.gp_containers@.len() >= n
    &&& m.generics.gp_name_offs@.len() >= n
    &&& m.generics.gp_constraint_starts@.len() >= n
    &&& m.generics.gp_constraint_counts@.len() >= n
    &&& m.generics.gp_nums@.len() >= n
    &&& m.generics.gp_flags@.len() >= n
}

/// The nested-type section: each index as four bytes.
fn build_nested_types(metadata: &DecodedMetadata) -> (r: Vec<u8>)
    ensures
        r@ == chunks(metadata.nested_types@.len(), |j: int| i32_bytes(metadata.nested_types@[j])),
{
    let ghost g = |j: int| i32_bytes(metadata.nested_types@[j]);
    let mut output: Vec<u8> = Vec::new();
    let mut i: usize = 0;
    while i < metadata.nested_types.len()
        invariant
            i <= metadata.nested_types@.len(),
            g == (|j: int| i32_bytes(metadata.nested_types@[j])),
            output@ == chunks(i as nat, g),
        decreases metadata.nested_types.len() - i,
    {
        let ghost before = output@;
        push_i32(&mut output, metadata.nested_types[i]);
        proof {
            lemma_chunks_push(i as nat, g);
            assert(output@ =~= before + g(i as int));
        }
        i = i + 1;
    }
    output
}

/// The property section.
fn build_properties(metadata: &DecodedMetadata) -> (r: Vec<u8>)
    ensures
        r@ == chunks(metadata.properties@.len(), |j: int| property_record(metadata.properties@[j])),
{
    let ghost g = |j: int| property_record(metadata.properties@[j]);
    let mut output: Vec<u8> = Vec::new();
    let mut i: usize = 0;
    while i < metadata.properties.len()
        invariant
            i <= metadata.properties@.len(),
            g == (|j: int| property_record(metadata.properties@[j])),
            output@ == chunks(i as nat, g),
        decreases metadata.properties.len() - i,
    {
        let ghost before = output@;
        let value = &metadata.properties[i];
        push_u32(&mut output, value.name_off);
        push_i32(&mut output, value.get);
        push_i32(&mut output, value.set);
        push_u32(&mut output, value.attrs);
        push_u32(&mut output, value.token);
        proof {
            lemma_chunks_push(i as nat, g);
            assert(output@ =~= before + g(i as int));
        }
        i = i + 1;
    }
    output
}

/// The event section.
fn build_events(metadata: &DecodedMetadata) -> (r: Vec<u8>)
    ensures
        r@ == chunks(metadata.events@.len(), |j: int| event_record(metadata.events@[j])),
{
    let ghost g = |j: int| event_record(metadata.events@[j]);
    let mut output: Vec<u8> = Vec::new();
    let mut i: usize = 0;
    while i < metadata.events.len()
        invariant
            i <= metadata.events@.len(),
            g == (|j: int| event_record(metadata.events@[j])),
            output@ == chunks(i as nat, g),
        decreases metadata.events.len() - i,
    {
        let ghost before = output@;
        let value = &metadata.events[i];
        push_u32(&mut output, value.name_off);
        push_i32(&mut output, value.type_index);
        push_i32(&mut output, value.add);
        push_i32(&mut output, value.remove);
        push_i32(&mut output, value.raise);
        push_u32(&mut output, value.token);
        proof {
            lemma_chunks_push(i as nat, g);
            assert(output@ =~= before + g(i as int));
        }
        i = i + 1;
    }
    output
}

/// The generic-constraint section: each type index as four bytes.
fn build_generic_constraints(metadata: &DecodedMetadata) -> (r: Vec<u8>)
    ensures
        r@ == chunks(metadata.generics.constraints@.len(), |j: int| i32_bytes(metadata.generics.constraints@[j])),
{
    let ghost g = |j: int| i32_bytes(metadata.generics.constraints@[j]);
    let mut output: Vec<u8> = Vec::new();
    let mut i: usize = 0;
    while i < metadata.generics.constraints.len()
        invariant
            i <= metadata.generics.constraints@.len(),
            g == (|j: int| i32_bytes(metadata.generics.constraints@[j])),
            output@ == chunks(i as nat, g),
        decreases metadata.generics.constraints.len() - i,
    {
        let ghost before = output@;
        push_i32(&mut output, metadata.generics.constraints[i]);
        proof {
            lemma_chunks_push(i as nat, g);
            assert(output@ =~= before + g(i as int));
        }
        i = i + 1;
    }
    output
}

/// The parameter-default section.
fn build_parameter_defaults(metadata: &DecodedMetadata) -> (r: Vec<u8>)
    ensures
        r@ == chunks(metadata.parameter_defaults@.len(), |j: int| parameter_default_record(metadata.parameter_defaults@[j])),
{
    let ghost g = |j: int| parameter_default_record(metadata.parameter_defaults@[j]);
    let mut output: Vec<u8> = Vec::new();
    let mut i: usize = 0;
    while i < metadata.parameter_defaults.len()
        invariant
            i <= metadata.parameter_defaults@.len(),
            g == (|j: int| parameter_default_record(metadata.parameter_defaults@[j])),
            output@ == chunks(i as nat, g),
        decreases metadata.parameter_defaults.len() - i,
    {
        let ghost before = output@;
        let value = &metadata.parameter_defaults[i];
        push_i32(&mut output, value.parameter_index);
        push_i32(&mut output, value.type_index);
        push_i32(&mut output, value.data_index);
        proof {
            lemma_chunks_push(i as nat, g);
            assert(output@ =~= before + g(i as int));
        }
        i = i + 1;
    }
    output
}

/// The field-default section.
fn build_field_defaults(metadata: &DecodedMetadata) -> (r: Vec<u8>)
    ensures
        r@ == chunks(metadata.field_defaults@.len(), |j: int| field_default_record(metadata.field_defaults@[j])),
{
    let ghost g = |j: int| field_default_record(metadata.field_defaults@[j]);
    let mut output: Vec<u8> = Vec::new();
    let mut i: usize = 0;
    while i < metadata.field_defaults.len()
        invariant
            i <= metadata.field_defaults@.len(),
            g == (|j: int| field_default_record(metadata.field_defaults@[j])),
            output@ == chunks(i as nat, g),
        decreases metadata.field_defaults.len() - i,
    {
        let ghost before = output@;
        let value = &metadata.field_defaults[i];
        push_i32(&mut output, value.field_index);
        push_i32(&mut output, value.type_index);
        push_i32(&mut output, value.data_index);
        proof {
            lemma_chunks_push(i as nat, g);
            assert(output@ =~= before + g(i as int));
        }
        i = i + 1;
    }
    output
}

/// The generic-container section.
fn build_generic_containers(metadata: &DecodedMetadata) -> (r: Vec<u8>)
    ensures
        r@ == chunks(metadata.generics.containers@.len(), |j: int| generic_container_record(metadata.generics.containers@[j])),
{
    let ghost g = |j: int| generic_container_record(metadata.generics.containers@[j]);
    let mut output: Vec<u8> = Vec::new();
    let mut i: usize = 0;
    while i < metadata.generics.containers.len()
        invariant
            i <= metadata.generics.containers@.len(),
            g == (|j: int| generic_container_record(metadata.generics.containers@[j])),
            output@ == chunks(i as nat, g),
        decreases metadata.generics.containers.len() - i,
    {
        let ghost before = output@;
        let (owner, parameter_count, is_method, parameter_start) = metadata.generics.containers[i];
        push_i32(&mut output, owner);
        push_i32(&mut output, parameter_count);
        push_i32(&mut output, is_method);
        push_i32(&mut output, parameter_start);
        proof {
            lemma_chunks_push(i as nat, g);
            assert(output@ =~= before + g(i as int));
        }
        i = i + 1;
    }
    output
}

/// The interface section: each type index as four bytes.
fn build_interfaces(metadata: &DecodedMetadata) -> (r: Vec<u8>)
    ensures
        r@ == chunks(metadata.interfaces@.len(), |j: int| i32_bytes(metadata.interfaces@[j])),
{
    let ghost g = |j: int| i32_bytes(metadata.interfaces@[j]);
    let mut output: Vec<u8> = Vec::new();
    let mut i: usize = 0;
    while i < metadata.interfaces.len()
        invariant
            i <= metadata.interfaces@.len(),
            g == (|j: int| i32_bytes(metadata.interfaces@[j])),
            output@ == chunks(i as nat, g),
        decreases metadata.interfaces.len() - i,
    {
        let ghost before = output@;
        push_i32(&mut output, metadata.interfaces[i]);
        proof {
            lemma_chunks_push(i as nat, g);
            assert(output@ =~= before + g(i as int));
        }
        i = i + 1;
    }
    output
}

/// The vtable section: each encoded method as four bytes.
fn build_vtable_methods(metadata: &DecodedMetadata) -> (r: Vec<u8>)
    ensures
        r@ == chunks(metadata.vtable_methods@.len(), |j: int| u32_bytes(metadata.vtable_methods@[j])),
{
    let ghost g = |j: int| u32_bytes(metadata.vtable_methods@[j]);
    let mut output: Vec<u8> = Vec::new();
    let mut i: usize = 0;
    while i < metadata.vtable_methods.len()
        invariant
            i <= metadata.vtable_methods@.len(),
            g == (|j: int| u32_bytes(metadata.vtable_methods@[j])),
            output@ == chunks(i as nat, g),
        decreases metadata.vtable_methods.len() - i,
    {
        let ghost before = output@;
        push_u32(&mut output, metadata.vtable_methods[i]);
        proof {
            lemma_chunks_push(i as nat, g);
            assert(output@ =~= before + g(i as int));
        }
        i = i + 1;
    }
    output
}

/// The interface-offset section.
fn build_interface_offsets(metadata: &DecodedMetadata) -> (r: Vec<u8>)
    ensures
        r@ == chunks(metadata.interface_offsets@.len(), |j: int| interface_offset_record(metadata.interface_offsets@[j])),
{
    let ghost g = |j: int| interface_offset_record(metadata.interface_offsets@[j]);
    let mut output: Vec<u8> = Vec::new();
    let mut i: usize = 0;
    while i < metadata.interface_offsets.len()
        invariant
            i <= metadata.interface_offsets@.len(),
            g == (|j: int| interface_offset_record(metadata.interface_offsets@[j])),
            output@ == chunks(i as nat, g),
        decreases metadata.interface_offsets.len() - i,
    {
        let ghost before = output@;
        let value = &metadata.interface_offsets[i];
        push_i32(&mut output, value.type_index);
        push_i32(&mut output, value.offset);
        proof {
            lemma_chunks_push(i as nat, g);
            assert(output@ =~= before + g(i as int));
        }
        i = i + 1;
    }
    output
}

fn push_type_record(output: &mut Vec<u8>, value: &TypeDef, index: usize)
    ensures
        final(output)@ == old(output)@ + type_record(*value, index as int),
{
    let ghost start = output@;
    push_type_head(output, value);
    push_type_starts(output, value);
    push_type_tail(output, value, index);
    assert(output@ =~= start + type_record(*value, index as int));
}

fn push_type_head(output: &mut Vec<u8>, value: &TypeDef)
    ensures
        final(output)@ == old(output)@ + type_record_head(*value),
{
    let ghost start = output@;
    push_u32(output, value.name_off);
    push_u32(output, value.ns_off);
    push_i32(output, value.byval_type_index);
    push_i32(output, value.type_index);
    push_i32(output, value.declaring_type_index);
    push_i32(output, value.parent_index);
    push_i32(output, -1);
    push_i32(output, value.generic_container_index);
    push_u32(output, value.flags);
    assert(output@ =~= start + type_record_head(*value));
}

fn push_type_starts(output: &mut Vec<u8>, value: &TypeDef)
    ensures
        final(output)@ == old(output)@ + type_record_starts(*value),
{
    let ghost start = output@;
    push_i32(output, value.f_start);
    push_i32(output, #[verifier::truncate] (value.m_start as i32));
    push_i32(output, value.event_start);
    push_i32(output, value.property_start);
    push_i32(output, value.nested_start);
    push_i32(output, value.if_start);
    push_i32(output, value.vtable_start);
    push_i32(output, value.interface_offset_start);
    assert(output@ =~= start + type_record_starts(*value));
}

fn push_type_tail(output: &mut Vec<u8>, value: &TypeDef, index: usize)
    ensures
        final(output)@ == old(output)@ + type_record_tail(*value, index as int),
{
    let ghost start = output@;
    push_u16(output, value.m_count);
    push_u16(output, value.property_count);
    push_u16(output, value.f_count);
    push_u16(output, value.event_count);
    push_u16(output, value.nested_count);
    push_u16(output, value.vtable_count);
    push_u16(output, value.if_count);
    push_u16(output, value.interface_offset_count);
    push_u32(output, value.bitfield);
    push_u32(output, 0x02000000 | (#[verifier::truncate] (index as u32)).wrapping_add(1));
    assert(output@ =~= start + type_record_tail(*value, index as int));
}

/// The type section.
fn build_types(metadata: &DecodedMetadata) -> (r: Vec<u8>)
    ensures
        r@ == chunks(metadata.types@.len(), |j: int| type_record(metadata.types@[j], j)),
{
    let ghost g = |j: int| type_record(metadata.types@[j], j);
    let mut output: Vec<u8> = Vec::new();
    let mut i: usize = 0;
    while i < metadata.types.len()
        invariant
            i <= metadata.types@.len(),
            g == (|j: int| type_record(metadata.types@[j], j)),
            output@ == chunks(i as nat, g),
        decreases metadata.types.len() - i,
    {
        let ghost before = output@;
        push_type_record(&mut output, &metadata.types[i], i);
        proof {
            lemma_chunks_push(i as nat, g);
            assert(output@ =~= before + g(i as int));
        }
        i = i + 1;
    }
    output
}

/// The parameter section.
fn build_parameters(metadata: &DecodedMetadata) -> (r: Vec<u8>)
    ensures
        r@ == chunks(metadata.parameters@.len(), |j: int| parameter_record(metadata.parameters@[j])),
{
    let ghost g = |j: int| parameter_record(metadata.parameters@[j]);
    let mut output: Vec<u8> = Vec::new();
    let mut i: usize = 0;
    while i < metadata.parameters.len()
        invariant
            i <= metadata.parameters@.len(),
            g == (|j: int| parameter_record(metadata.parameters@[j])),
            output@ == chunks(i as nat, g),
        decreases metadata.parameters.len() - i,
    {
        let ghost before = output@;
        let value = &metadata.parameters[i];
        push_u32(&mut output, value.name_off);
        push_u32(&mut output, value.token);
        push_i32(&mut output, value.type_index);
        proof {
            lemma_chunks_push(i as nat, g);
            assert(output@ =~= before + g(i as int));
        }
        i = i + 1;
    }
    output
}

/// The method section.
fn build_methods(metadata: &DecodedMetadata) -> (r: Vec<u8>)
    ensures
        r@ == chunks(metadata.methods@.len(), |j: int| method_record(metadata.methods@[j])),
{
    let ghost g = |j: int| method_record(metadata.methods@[j]);
    let mut output: Vec<u8> = Vec::new();
    let mut i: usize = 0;
    while i < metadata.methods.len()
        invariant
            i <= metadata.methods@.len(),
            g == (|j: int| method_record(metadata.methods@[j])),
            output@ == chunks(i as nat, g),
        decreases metadata.methods.len() - i,
    {
        let ghost before = output@;
        let value = &metadata.methods[i];
        push_u32(&mut output, value.name_off);
        push_i32(&mut output, -1);
        push_i32(&mut output, value.return_type);
        push_i32(&mut output, value.parameter_start);
        push_i32(&mut output, value.generic_container_index);
        push_u32(&mut output, value.token);
        push_u16(&mut output, value.flags);
        push_u16(&mut output, 0);
        push_u16(&mut output, value.slot);
        push_u16(&mut output, value.parameter_count);
        proof {
            lemma_chunks_push(i as nat, g);
            assert(output@ =~= before + g(i as int));
        }
        i = i + 1;
    }
    output
}

/// The field section.
fn build_fields(metadata: &DecodedMetadata) -> (r: Vec<u8>)
    ensures
        r@ == chunks(metadata.fields@.len(), |j: int| field_record(metadata.fields@[j])),
{
    let ghost g = |j: int| field_record(metadata.fields@[j]);
    let mut output: Vec<u8> = Vec::new();
    let mut i: usize = 0;
    while i < metadata.fields.len()
        invariant
            i <= metadata.fields@.len(),
            g == (|j: int| field_record(metadata.fields@[j])),
            output@ == chunks(i as nat, g),
        decreases metadata.fields.len() - i,
    {
        let ghost before = output@;
        let value = &metadata.fields[i];
        push_u32(&mut output, value.name_off);
        push_i32(&mut output, value.type_index);
        push_u32(&mut output, value.token);
        proof {
            lemma_chunks_push(i as nat, g);
            assert(output@ =~= before + g(i as int));
        }
        i = i + 1;
    }
    output
}

/// The assembly section: one 68-byte record per image.
fn build_assemblies(metadata: &DecodedMetadata) -> (r: Vec<u8>)
    ensures
        r@ == chunks(metadata.images@.len(), |j: int| assembly_record(metadata.images@[j], j)),
{
    let ghost g = |j: int| assembly_record(metadata.images@[j], j);
    let mut output: Vec<u8> = Vec::new();
    let mut i: usize = 0;
    while i < metadata.images.len()
        invariant
            i <= metadata.images@.len(),
            g == (|j: int| assembly_record(metadata.images@[j], j)),
            output@ == chunks(i as nat, g),
        decreases metadata.images.len() - i,
    {
        let ghost before = output@;
        let value = &metadata.images[i];
        push_i32(&mut output, #[verifier::truncate] (i as i32));
        push_zeros(&mut output, 12);
        push_i32(&mut output, #[verifier::truncate] (value.name_off as i32));
        push_zeros(&mut output, 48);
        proof {
            lemma_chunks_push(i as nat, g);
            assert(output@ =~= before + g(i as int));
        }
        i = i + 1;
    }
    output
}

/// The field-offset sidecar.
fn build_field_offsets(metadata: &DecodedMetadata) -> (r: Vec<u8>)
    ensures
        r@ == chunks(metadata.field_offsets@.len(), |j: int| field_offset_record(metadata.field_offsets@[j])),
{
    let ghost g = |j: int| field_offset_record(metadata.field_offsets@[j]);
    let mut output: Vec<u8> = Vec::new();
    let mut i: usize = 0;
    while i < metadata.field_offsets.len()
        invariant
            i <= metadata.field_offsets@.len(),
            g == (|j: int| field_offset_record(metadata.field_offsets@[j])),
            output@ == chunks(i as nat, g),
        decreases metadata.field_offsets.len() - i,
    {
        let ghost before = output@;
        let value = &metadata.field_offsets[i];
        push_u32(&mut output, value.type_idx);
        push_u32(&mut output, value.field_idx_in_type);
        push_u32(&mut output, value.offset);
        proof {
            lemma_chunks_push(i as nat, g);
            assert(output@ =~= before + g(i as int));
        }
        i = i + 1;
    }
    output
}

/// The method-mapping sidecar.
fn build_method_mappings(metadata: &DecodedMetadata) -> (r: Vec<u8>)
    ensures
        r@ == chunks(metadata.method_mappings@.len(), |j: int| method_mapping_record(metadata.method_mappings@[j])),
{
    let ghost g = |j: int| method_mapping_record(metadata.method_mappings@[j]);
    let mut output: Vec<u8> = Vec::new();
    let mut i: usize = 0;
    while i < metadata.method_mappings.len()
        invariant
            i <= metadata.method_mappings@.len(),
            g == (|j: int| method_mapping_record(metadata.method_mappings@[j])),
            output@ == chunks(i as nat, g),
        decreases metadata.method_mappings.len() - i,
    {
        let ghost before = output@;
        let value = &metadata.method_mappings[i];
        push_u32(&mut output, value.method_idx);
        push_u64(&mut output, value.pointer);
        proof {
            lemma_chunks_push(i as nat, g);
            assert(output@ =~= before + g(i as int));
        }
        i = i + 1;
    }
    output
}

/// The generic-class sidecar.
fn build_generic_classes(metadata: &DecodedMetadata) -> (r: Vec<u8>)
    ensures
        r@ == chunks(metadata.generic_classes@.len(), |j: int| generic_class_record(metadata.generic_classes@[j])),
{
    let ghost g = |j: int| generic_class_record(metadata.generic_classes@[j]);
    let mut output: Vec<u8> = Vec::new();
    let mut i: usize = 0;
    while i < metadata.generic_classes.len()
        invariant
            i <= metadata.generic_classes@.len(),
            g == (|j: int| generic_class_record(metadata.generic_classes@[j])),
            output@ == chunks(i as nat, g),
        decreases metadata.generic_classes.len() - i,
    {
        let ghost before = output@;
        let value = &metadata.generic_classes[i];
        push_i32(&mut output, value.type_definition_index);
        push_i32(&mut output, value.generic_inst_index);
        proof {
            lemma_chunks_push(i as nat, g);
            assert(output@ =~= before + g(i as int));
        }
        i = i + 1;
    }
    output
}

/// The generic-parameter section.
fn build_generic_parameters(metadata: &DecodedMetadata) -> (r: Vec<u8>)
    requires
        generic_columns_complete(*metadata),
    ensures
        r@ == chunks(metadata.generics.gp_names@.len(), |j: int| generic_parameter_record(*metadata, j)),
{
    let ghost g = |j: int| generic_parameter_record(*metadata, j);
    let mut output: Vec<u8> = Vec::new();
    let mut i: usize = 0;
    while i < metadata.generics.gp_names.len()
        invariant
            i <= metadata.generics.gp_names@.len(),
            g == (|j: int| generic_parameter_record(*metadata, j)),
            generic_columns_complete(*metadata),
            output@ == chunks(i as nat, g),
        decreases metadata.generics.gp_names.len() - i,
    {
        let ghost before = output@;
        push_i32(&mut output, #[verifier::truncate] (metadata.generics.gp_containers[i] as i32));
        push_u32(&mut output, metadata.generics.gp_name_offs[i]);
        push_i16(&mut output, metadata.generics.gp_constraint_starts[i]);
        push_i16(&mut output, metadata.generics.gp_constraint_counts[i]);
        push_u16(&mut output, metadata.generics.gp_nums[i]);
        push_u16(&mut output, metadata.generics.gp_flags[i]);
        proof {
            lemma_chunks_push(i as nat, g);
            assert(output@ =~= before + g(i as int));
        }
        i = i + 1;
    }
    output
}

/// The image section: one 40-byte record per image, each with the first type of the image.
fn build_images(metadata: &DecodedMetadata) -> (r: Vec<u8>)
    ensures
        r@ == chunks(metadata.images@.len(), |j: int| image_record(metadata.images@, j)),
{
    let ghost g = |j: int| image_record(metadata.images@, j);
    let mut output: Vec<u8> = Vec::new();
    let mut type_start: u32 = 0;
    let mut i: usize = 0;
    while i < metadata.images.len()
        invariant
            i <= metadata.images@.len(),
            g == (|j: int| image_record(metadata.images@, j)),
            type_start == image_type_start(metadata.images@, i as nat),
            output@ == chunks(i as nat, g),
        decreases metadata.images.len() - i,
    {
        let ghost before = output@;
        let value = &metadata.images[i];
        push_i32(&mut output, #[verifier::truncate] (value.name_off as i32));
        push_i32(&mut output, #[verifier::truncate] (i as i32));
        push_i32(&mut output, #[verifier::truncate] (type_start as i32));
        push_i32(&mut output, #[verifier::truncate] (value.type_count as i32));
        push_zeros(&mut output, 24);
        type_start = type_start.wrapping_add(value.type_count);
        proof {
            lemma_chunks_push(i as nat, g);
            assert(output@ =~= before + g(i as int));
        }
        i = i + 1;
    }
    output
}

/// The string-literal sections: a (length, offset) record per literal, and the bytes of all
/// literals one after another.
fn build_string_literals(metadata: &DecodedMetadata) -> (r: (Vec<u8>, Vec<u8>))
    ensures
        r.1@ == Seq::new(metadata.string_literals@.len(), |j: int| metadata.string_literals@[j].data@).flatten(),
        r.0@ == chunks(
            metadata.string_literals@.len(),
            |j: int| u32_bytes(metadata.string_literals@[j].data@.len() as u32) + u32_bytes(
                Seq::new(j as nat, |k: int| metadata.string_literals@[k].data@).flatten().len() as u32,
            ),
        ),
{
    let ghost g = |j: int| u32_bytes(metadata.string_literals@[j].data@.len() as u32) + u32_bytes(
        Seq::new(j as nat, |k: int| metadata.string_literals@[k].data@).flatten().len() as u32,
    );
    let ghost d = |k: int| metadata.string_literals@[k].data@;
    let mut definitions: Vec<u8> = Vec::new();
    let mut data: Vec<u8> = Vec::new();
    let mut i: usize = 0;
    while i < metadata.string_literals.len()
        invariant
            i <= metadata.string_literals@.len(),
            g == (|j: int| u32_bytes(metadata.string_literals@[j].data@.len() as u32) + u32_bytes(
                Seq::new(j as nat, |k: int| metadata.string_literals@[k].data@).flatten().len() as u32,
            )),
            d == (|k: int| metadata.string_literals@[k].data@),
            definitions@ == chunks(i as nat, g),
            data@ == Seq::new(i as nat, d).flatten(),
        decreases metadata.string_literals.len() - i,
    {
        let ghost before = definitions@;
        let bytes = &metadata.string_literals[i].data;
        let offset = #[verifier::truncate] (data.len() as u32);
        append(&mut data, bytes.as_slice());
        push_u32(&mut definitions, #[verifier::truncate] (bytes.len() as u32));
        push_u32(&mut definitions, offset);
        proof {
            lemma_chunks_push(i as nat, g);
            assert(Seq::new((i + 1) as nat, d) =~= Seq::new(i as nat, d).push(d(i as int)));
            Seq::new(i as nat, d).lemma_flatten_push(d(i as int));
            assert(definitions@ =~= before + g(i as int));
        }
        i = i + 1;
    }
    (definitions, data)
}

// ---------------------------------------------------------------------------------------------
// The metadata file.

/// The sections of the rebuilt metadata, in file order.
struct MetadataSections<'a> {
    string_literals: &'a [u8],
    string_literal_data: &'a [u8],
    strings: &'a [u8],
    events: &'a [u8],
    properties: &'a [u8],
    methods: &'a [u8],
    parameter_defaults: &'a [u8],
    field_defaults: &'a [u8],
    default_value_data: &'a [u8],
    parameters: &'a [u8],
    fields: &'a [u8],
    generic_parameters: &'a [u8],
    generic_constraints: &'a [u8],
    generic_containers: &'a [u8],
    nested_types: &'a [u8],
    interfaces: &'a [u8],
    vtable_methods: &'a [u8],
    interface_offsets: &'a [u8],
    types: &'a [u8],
    images: &'a [u8],
    assemblies: &'a [u8],
}

/// The number of sections of the metadata file.
pub open spec fn section_count() -> nat {
    21
}

/// The size of the metadata header: 66 words.
pub open spec fn header_size() -> nat {
    264
}

/// The header word that holds the offset of section `k`; the next one holds its size. Word 20
/// and 21 are left zero.
pub open spec fn section_slot(k: int) -> int {
    if k < 9 {
        2 + 2 * k
    } else {
        4 + 2 * k
    }
}

/// The number of bytes of the first `k` sections.
pub open spec fn sections_len(sections: Seq<Seq<u8>>, k: nat) -> nat
    decreases k,
{
    if k == 0 {
        0
    } else {
        sections_len(sections, (k - 1) as nat) + sections[k - 1].len()
    }
}

/// The offset of section `k` in the file.
pub open spec fn section_start(sections: Seq<Seq<u8>>, k: int) -> nat {
    header_size() + sections_len(sections, k as nat)
}

/// Header word `w`: the magic number, the version (24), then offset and size of each section
/// in 32-bit arithmetic; the rest zero.
pub open spec fn header_word(sections: Seq<Seq<u8>>, w: int) -> u32 {
    if w == 0 {
        0xFAB1_1BAF
    } else if w == 1 {
        24
    } else if 2 <= w < 46 && w != 20 && w != 21 {
        let k = if w < 20 {
            (w - 2) / 2
        } else {
            (w - 4) / 2
        };
        if w % 2 == 0 {
            section_start(sections, k) as u32
        } else {
            sections[k].len() as u32
        }
    } else {
        0
    }
}

/// The metadata file: its header, then its sections one after another.
pub open spec fn metadata_file(sections: Seq<Seq<u8>>) -> Seq<u8> {
    chunks(66, |w: int| u32_bytes(header_word(sections, w))) + sections.flatten()
}

/// Records of four bytes each lie one after another.
pub proof fn lemma_word_chunks(n: nat, g: spec_fn(int) -> Seq<u8>)
    requires
        forall|i: int| 0 <= i < n ==> (#[trigger] g(i)).len() == 4,
    ensures
        chunks(n, g).len() == 4 * n,
        forall|i: int| 0 <= i < n ==> #[trigger] chunks(n, g).subrange(4 * i, 4 * i + 4) == g(i),
    decreases n,
{
    if n > 0 {
        lemma_word_chunks((n - 1) as nat, g);
        lemma_chunks_push((n - 1) as nat, g);
        let c = chunks(n, g);
        let p = chunks((n - 1) as nat, g);
        assert forall|i: int| 0 <= i < n implies #[trigger] chunks(n, g).subrange(4 * i, 4 * i + 4) == g(i) by {
            if i < n - 1 {
                assert(c.subrange(4 * i, 4 * i + 4) =~= p.subrange(4 * i, 4 * i + 4));
            } else {
                assert(c.subrange(4 * i, 4 * i + 4) =~= g(i));
            }
        }
    }
}

/// Records of `size` bytes each lie one after another.
pub proof fn lemma_record_chunks(n: nat, g: spec_fn(int) -> Seq<u8>, size: nat)
    requires
        forall|i: int| 0 <= i < n ==> (#[trigger] g(i)).len() == size,
    ensures
        chunks(n, g).len() == size * n,
        forall|i: int| 0 <= i < n ==> #[trigger] chunks(n, g).subrange(size * i, size * i + size) == g(i),
    decreases n,
{
    if n > 0 {
        let m = (n - 1) as nat;
        lemma_record_chunks(m, g, size);
        lemma_chunks_push(m, g);
        assert(size * m + size == size * n) by (nonlinear_arith)
            requires
                m + 1 == n,
        ;
        let c = chunks(n, g);
        let p = chunks(m, g);
        assert forall|i: int| 0 <= i < n implies #[trigger] chunks(n, g).subrange(size * i, size * i + size) == g(i) by {
            if i < m {
                assert(size * i + size <= size * m) by (nonlinear_arith)
                    requires
                        0 <= i < m,
                ;
                assert(0 <= size * i) by (nonlinear_arith)
                    requires
                        0 <= i,
                ;
                assert(c.subrange(size * i, size * i + size) =~= p.subrange(size * i, size * i + size));
            } else {
                assert(c.subrange(size * i, size * i + size) =~= g(i));
            }
        }
    } else {
        assert(Seq::new(0, g) =~= Seq::<Seq<u8>>::empty());
        assert(size * n == 0);
    }
}

/// Reading back the four bytes of `v` gives `v`.
pub proof fn lemma_i32_bytes_roundtrip(v: i32)
    ensures
        le_i32(i32_bytes(v), 0) == v,
{
    lemma_u32_bytes_roundtrip(v as u32);
    assert((v as u32) as i32 == v) by (bit_vector);
}

/// The field-offset sidecar holds twelve bytes per entry, in the order of the entries: the
/// type index, the field's index within the type and the runtime offset, each a little-endian
/// 32-bit value. The method-mapping sidecar holds twelve bytes per entry: the method index
/// (32 bits) and the method's address (64 bits). The generic-class sidecar holds eight bytes
/// per entry: the type definition and the runtime generic instance (32 bits each).
pub proof fn lemma_sidecar_records(m: DecodedMetadata)
    ensures
        ({
            let s = chunks(m.field_offsets@.len(), |j: int| field_offset_record(m.field_offsets@[j]));
            &&& s.len() == 12 * m.field_offsets@.len()
            &&& forall|j: int|
                0 <= j < m.field_offsets@.len() ==> {
                    let e = #[trigger] m.field_offsets@[j];
                    &&& le_u32(s, 12 * j) == e.type_idx
                    &&& le_u32(s, 12 * j + 4) == e.field_idx_in_type
                    &&& le_u32(s, 12 * j + 8) == e.offset
                }
        }),
        ({
            let s = chunks(m.method_mappings@.len(), |j: int| method_mapping_record(m.method_mappings@[j]));
            &&& s.len() == 12 * m.method_mappings@.len()
            &&& forall|j: int|
                0 <= j < m.method_mappings@.len() ==> {
                    let e = #[trigger] m.method_mappings@[j];
                    &&& le_u32(s, 12 * j) == e.method_idx
                    &&& le_u64(s, 12 * j + 4) == e.pointer
                }
        }),
        ({
            let s = chunks(m.generic_classes@.len(), |j: int| generic_class_record(m.generic_classes@[j]));
            &&& s.len() == 8 * m.generic_classes@.len()
            &&& forall|j: int|
                0 <= j < m.generic_classes@.len() ==> {
                    let e = #[trigger] m.generic_classes@[j];
                    &&& le_i32(s, 8 * j) == e.type_definition_index
                    &&& le_i32(s, 8 * j + 4) == e.generic_inst_index
                }
        }),
{
    let gf = |j: int| field_offset_record(m.field_offsets@[j]);
    let gm = |j: int| method_mapping_record(m.method_mappings@[j]);
    let gg = |j: int| generic_class_record(m.generic_classes@[j]);
    lemma_record_chunks(m.field_offsets@.len(), gf, 12);
    lemma_record_chunks(m.method_mappings@.len(), gm, 12);
    lemma_record_chunks(m.generic_classes@.len(), gg, 8);
    let sf = chunks(m.field_offsets@.len(), gf);
    assert forall|j: int| 0 <= j < m.field_offsets@.len() implies {
        let e = #[trigger] m.field_offsets@[j];
        &&& le_u32(sf, 12 * j) == e.type_idx
        &&& le_u32(sf, 12 * j + 4) == e.field_idx_in_type
        &&& le_u32(sf, 12 * j + 8) == e.offset
    } by {
        let e = m.field_offsets@[j];
        let r = sf.subrange(12 * j, 12 * j + 12);
        assert(r == field_offset_record(e));
        lemma_u32_bytes_roundtrip(e.type_idx);
        lemma_u32_bytes_roundtrip(e.field_idx_in_type);
        lemma_u32_bytes_roundtrip(e.offset);
        assert(le_u32(sf, 12 * j) == le_u32(r, 0));
        assert(le_u32(sf, 12 * j + 4) == le_u32(r, 4));
        assert(le_u32(sf, 12 * j + 8) == le_u32(r, 8));
        assert(le_u32(r, 0) == le_u32(u32_bytes(e.type_idx), 0));
        assert(le_u32(r, 4) == le_u32(u32_bytes(e.field_idx_in_type), 0));
        assert(le_u32(r, 8) == le_u32(u32_bytes(e.offset), 0));
    }
    let sm = chunks(m.method_mappings@.len(), gm);
    assert forall|j: int| 0 <= j < m.method_mappings@.len() implies {
        let e = #[trigger] m.method_mappings@[j];
        &&& le_u32(sm, 12 * j) == e.method_idx
        &&& le_u64(sm, 12 * j + 4) == e.pointer
    } by {
        let e = m.method_mappings@[j];
        let r = sm.subrange(12 * j, 12 * j + 12);
        assert(r == method_mapping_record(e));
        lemma_u32_bytes_roundtrip(e.method_idx);
        lemma_u64_bytes_roundtrip(e.pointer);
        assert(le_u32(sm, 12 * j) == le_u32(r, 0));
        assert(le_u32(sm, 12 * j + 4) == le_u32(r, 4));
        assert(le_u32(sm, 12 * j + 8) == le_u32(r, 8));
        assert(le_u32(r, 0) == le_u32(u32_bytes(e.method_idx), 0));
        assert(le_u32(r, 4) == le_u32(u64_bytes(e.pointer), 0));
        assert(le_u32(r, 8) == le_u32(u64_bytes(e.pointer), 4));
    }
    let sg = chunks(m.generic_classes@.len(), gg);
    assert forall|j: int| 0 <= j < m.generic_classes@.len() implies {
        let e = #[trigger] m.generic_classes@[j];
        &&& le_i32(sg, 8 * j) == e.type_definition_index
        &&& le_i32(sg, 8 * j + 4) == e.generic_inst_index
    } by {
        let e = m.generic_classes@[j];
        let r = sg.subrange(8 * j, 8 * j + 8);
        assert(r == generic_class_record(e));
        lemma_i32_bytes_roundtrip(e.type_definition_index);
        lemma_i32_bytes_roundtrip(e.generic_inst_index);
        assert(le_u32(sg, 8 * j) == le_u32(r, 0));
        assert(le_u32(sg, 8 * j + 4) == le_u32(r, 4));
        assert(le_u32(r, 0) == le_u32(i32_bytes(e.type_definition_index), 0));
        assert(le_u32(r, 4) == le_u32(i32_bytes(e.generic_inst_index), 0));
    }
}

/// Section `k` stands in the flattened sections after the sections before it.
pub proof fn lemma_section_at(sections: Seq<Seq<u8>>, k: int)
    requires
        0 <= k < sections.len(),
    ensures
        sections.flatten().len() == sections_len(sections, sections.len()),
        sections_len(sections, k as nat) + sections[k].len() <= sections.flatten().len(),
        sections.flatten().subrange(
            sections_len(sections, k as nat) as int,
            (sections_len(sections, k as nat) + sections[k].len()) as int,
        ) == sections[k],
    decreases sections.len(),
{
    let n = sections.len();
    let init = sections.drop_last();
    assert(init.push(sections.last()) =~= sections);
    init.lemma_flatten_push(sections.last());
    assert forall|j: nat| j <= init.len() implies sections_len(init, j) == sections_len(sections, j) by {
        lemma_sections_len_prefix(init, sections, j);
    }
    if n == 1 {
        assert(init.flatten() =~= Seq::<u8>::empty());
        assert(sections.flatten().subrange(0, sections[0].len() as int) =~= sections[0]);
    } else {
        if k < n - 1 {
            lemma_section_at(init, k);
            assert(sections.flatten().subrange(
                sections_len(sections, k as nat) as int,
                (sections_len(sections, k as nat) + sections[k].len()) as int,
            ) =~= init.flatten().subrange(
                sections_len(init, k as nat) as int,
                (sections_len(init, k as nat) + init[k].len()) as int,
            ));
        } else {
            lemma_section_at(init, 0);
            assert(sections.flatten().subrange(
                sections_len(sections, k as nat) as int,
                (sections_len(sections, k as nat) + sections[k].len()) as int,
            ) =~= sections.last());
        }
        lemma_section_at(init, 0);
    }
}

proof fn lemma_sections_len_prefix(a: Seq<Seq<u8>>, b: Seq<Seq<u8>>, j: nat)
    requires
        j <= a.len(),
        a.len() <= b.len(),
        forall|i: int| 0 <= i < a.len() ==> a[i] == b[i],
    ensures
        sections_len(a, j) == sections_len(b, j),
    decreases j,
{
    if j > 0 {
        lemma_sections_len_prefix(a, b, (j - 1) as nat);
    }
}

fn set_section(header: &mut Vec<u32>, index: usize, offset: &mut u128, section: &[u8])
    requires
        index + 1 < old(header).len(),
        *old(offset) < 0x1_0000_0000_0000_0000_0000_0000,
    ensures
        final(header)@ == old(header)@.update(index as int, #[verifier::truncate] (*old(offset) as u32)).update(
            index + 1,
            #[verifier::truncate] (section@.len() as u32),
        ),
        *final(offset) == *old(offset) + section@.len(),
{
    header.set(index, #[verifier::truncate] (*offset as u32));
    header.set(index + 1, #[verifier::truncate] (section.len() as u32));
    *offset = *offset + section.len() as u128;
}

/// Lays out the metadata file: the header with the offset and size of every section, then the
/// sections in order.
fn assemble_metadata(sections: &MetadataSections<'_>) -> (r: Vec<u8>)
    ensures
        r@ == metadata_file(section_list(sections)),
{
    let list: Vec<&[u8]> = vec![
        sections.string_literals,
        sections.string_literal_data,
        sections.strings,
        sections.events,
        sections.properties,
        sections.methods,
        sections.parameter_defaults,
        sections.field_defaults,
        sections.default_value_data,
        sections.parameters,
        sections.fields,
        sections.generic_parameters,
        sections.generic_constraints,
        sections.generic_containers,
        sections.nested_types,
        sections.interfaces,
        sections.vtable_methods,
        sections.interface_offsets,
        sections.types,
        sections.images,
        sections.assemblies,
    ];
    let ghost lists = section_list(sections);
    assert(lists.len() == 21);
    assert forall|k: int| 0 <= k < 21 implies list@[k]@ == #[trigger] lists[k] by {}
    let mut header: Vec<u32> = Vec::new();
    let mut w: usize = 0;
    while w < 66
        invariant
            w <= 66,
            header@.len() == w,
            forall|i: int| 0 <= i < w ==> #[trigger] header@[i] == 0,
        decreases 66 - w,
    {
        header.push(0);
        w = w + 1;
    }
    header.set(0, 0xFAB11BAF);
    header.set(1, 24);
    let mut offset: u128 = 264;
    let mut k: usize = 0;
    while k < 21
        invariant
            k <= 21,
            list@.len() == 21,
            lists.len() == 21,
            forall|j: int| 0 <= j < 21 ==> list@[j]@ == #[trigger] lists[j],
            header@.len() == 66,
            offset == section_start(lists, k as int),
            offset <= 264 + k * 0xFFFF_FFFF_FFFF_FFFF,
            forall|i: int|
                0 <= i < 66 ==> #[trigger] header@[i] == (if i < 2 || (2 <= i < 46 && i != 20 && i != 21 && (if i < 20 {
                    (i - 2) / 2
                } else {
                    (i - 4) / 2
                }) < k) {
                    header_word(lists, i)
                } else {
                    0
                }),
        decreases 21 - k,
    {
        let slot = if k < 9 {
            2 + 2 * k
        } else {
            4 + 2 * k
        };
        let section = list[k];
        assert(section@.len() <= 0xFFFF_FFFF_FFFF_FFFF) by {
            assert(section@.len() == section.len());
        }
        set_section(&mut header, slot, &mut offset, section);
        k = k + 1;
    }
    assert forall|i: int| 0 <= i < 66 implies #[trigger] header@[i] == header_word(lists, i) by {}
    let mut output: Vec<u8> = Vec::new();
    let ghost g = |i: int| u32_bytes(header_word(lists, i));
    let mut w: usize = 0;
    while w < 66
        invariant
            w <= 66,
            header@.len() == 66,
            forall|i: int| 0 <= i < 66 ==> #[trigger] header@[i] == header_word(lists, i),
            g == (|i: int| u32_bytes(header_word(lists, i))),
            output@ == chunks(w as nat, g),
        decreases 66 - w,
    {
        let ghost before = output@;
        push_u32(&mut output, header[w]);
        proof {
            lemma_chunks_push(w as nat, g);
        }
        w = w + 1;
    }
    let ghost head = output@;
    let mut k: usize = 0;
    while k < 21
        invariant
            k <= 21,
            list@.len() == 21,
            lists.len() == 21,
            forall|j: int| 0 <= j < 21 ==> list@[j]@ == #[trigger] lists[j],
            head == chunks(66, g),
            g == (|i: int| u32_bytes(header_word(lists, i))),
            output@ == head + lists.subrange(0, k as int).flatten(),
        decreases 21 - k,
    {
        let ghost before = output@;
        append(&mut output, list[k]);
        proof {
            assert(lists.subrange(0, k + 1) =~= lists.subrange(0, k as int).push(lists[k as int]));
            lists.subrange(0, k as int).lemma_flatten_push(lists[k as int]);
            assert(output@ =~= head + lists.subrange(0, k + 1).flatten());
        }
        k = k + 1;
    }
    assert(lists.subrange(0, 21) =~= lists);
    output
}

/// The sections of `s`, in file order.
spec fn section_list(s: &MetadataSections<'_>) -> Seq<Seq<u8>> {
    seq![
        s.string_literals@,
        s.string_literal_data@,
        s.strings@,
        s.events@,
        s.properties@,
        s.methods@,
        s.parameter_defaults@,
        s.field_defaults@,
        s.default_value_data@,
        s.parameters@,
        s.fields@,
        s.generic_parameters@,
        s.generic_constraints@,
        s.generic_containers@,
        s.nested_types@,
        s.interfaces@,
        s.vtable_methods@,
        s.interface_offsets@,
        s.types@,
        s.images@,
        s.assemblies@,
    ]
}

/// The header of a metadata file locates every section: where the file fits in 32-bit
/// offsets, the word pair of section `k` holds its offset and size, and the bytes there are
/// the section.
pub proof fn lemma_header_locates_sections(sections: Seq<Seq<u8>>, k: int)
    requires
        sections.len() == section_count(),
        header_size() + sections.flatten().len() <= u32::MAX,
        0 <= k < section_count(),
    ensures
        ({
            let file = metadata_file(sections);
            let start = section_start(sections, k);
            &&& le_u32(file, 0) == 0xFAB1_1BAF
            &&& le_u32(file, 4) == 24
            &&& le_u32(file, 4 * section_slot(k)) == start
            &&& le_u32(file, 4 * section_slot(k) + 4) == sections[k].len()
            &&& start + sections[k].len() <= file.len()
            &&& file.subrange(start as int, (start + sections[k].len()) as int) == sections[k]
        }),
{
    let g = |w: int| u32_bytes(header_word(sections, w));
    let head = chunks(66, g);
    let file = metadata_file(sections);
    lemma_word_chunks(66, g);
    lemma_section_at(sections, k);
    assert forall|w: int| 0 <= w < 66 implies #[trigger] le_u32(file, 4 * w) == header_word(sections, w) by {
        let word = header_word(sections, w);
        assert(head.subrange(4 * w, 4 * w + 4) == u32_bytes(word));
        crate::bytes::lemma_u32_bytes_roundtrip(word);
        assert(file[4 * w] == u32_bytes(word)[0]);
        assert(file[4 * w + 1] == u32_bytes(word)[1]);
        assert(file[4 * w + 2] == u32_bytes(word)[2]);
        assert(file[4 * w + 3] == u32_bytes(word)[3]);
    }
    assert(le_u32(file, 4 * 0int) == header_word(sections, 0));
    assert(le_u32(file, 4 * 1int) == header_word(sections, 1));
    let slot = section_slot(k);
    assert(le_u32(file, 4 * slot) == header_word(sections, slot));
    assert(le_u32(file, 4 * (slot + 1)) == header_word(sections, slot + 1));
    assert(4 * slot + 4 == 4 * (slot + 1));
    assert(sections_len(sections, k as nat) + sections[k].len() <= sections.flatten().len());
    let start = section_start(sections, k);
    assert(file.subrange(start as int, (start + sections[k].len()) as int) =~= sections.flatten().subrange(
        sections_len(sections, k as nat) as int,
        (sections_len(sections, k as nat) + sections[k].len()) as int,
    ));
}

/// The string-literal definition section: the length and data offset of each literal.
pub open spec fn literal_definitions(m: DecodedMetadata) -> Seq<u8> {
    chunks(
        m.string_literals@.len(),
        |j: int| u32_bytes(m.string_literals@[j].data@.len() as u32) + u32_bytes(
            Seq::new(j as nat, |k: int| m.string_literals@[k].data@).flatten().len() as u32,
        ),
    )
}

/// The sections of the metadata file rebuilt from `m`, in file order.
pub open spec fn metadata_sections(m: DecodedMetadata) -> Seq<Seq<u8>> {
    seq![
        literal_definitions(m),
        Seq::new(m.string_literals@.len(), |j: int| m.string_literals@[j].data@).flatten(),
        m.strings.pool@,
        chunks(m.events@.len(), |j: int| event_record(m.events@[j])),
        chunks(m.properties@.len(), |j: int| property_record(m.properties@[j])),
        chunks(m.methods@.len(), |j: int| method_record(m.methods@[j])),
        chunks(m.parameter_defaults@.len(), |j: int| parameter_default_record(m.parameter_defaults@[j])),
        chunks(m.field_defaults@.len(), |j: int| field_default_record(m.field_defaults@[j])),
        m.default_value_data@,
        chunks(m.parameters@.len(), |j: int| parameter_record(m.parameters@[j])),
        chunks(m.fields@.len(), |j: int| field_record(m.fields@[j])),
        chunks(m.generics.gp_names@.len(), |j: int| generic_parameter_record(m, j)),
        chunks(m.generics.constraints@.len(), |j: int| i32_bytes(m.generics.constraints@[j])),
        chunks(m.generics.containers@.len(), |j: int| generic_container_record(m.generics.containers@[j])),
        chunks(m.nested_types@.len(), |j: int| i32_bytes(m.nested_types@[j])),
        chunks(m.interfaces@.len(), |j: int| i32_bytes(m.interfaces@[j])),
        chunks(m.vtable_methods@.len(), |j: int| u32_bytes(m.vtable_methods@[j])),
        chunks(m.interface_offsets@.len(), |j: int| interface_offset_record(m.interface_offsets@[j])),
        chunks(m.types@.len(), |j: int| type_record(m.types@[j], j)),
        chunks(m.images@.len(), |j: int| image_record(m.images@, j)),
        chunks(m.images@.len(), |j: int| assembly_record(m.images@[j], j)),
    ]
}

/// Rebuilds the metadata file and the three sidecars from decoded metadata.
pub fn build(metadata: &DecodedMetadata) -> (r: OutputArtifacts)
    requires
        generic_columns_complete(*metadata),
    ensures
        r.rebuilt_metadata@ == metadata_file(metadata_sections(*metadata)),
        r.field_offsets@ == chunks(metadata.field_offsets@.len(), |j: int| field_offset_record(metadata.field_offsets@[j])),
        r.method_mappings@ == chunks(metadata.method_mappings@.len(), |j: int| method_mapping_record(metadata.method_mappings@[j])),
        r.generic_classes@ == chunks(metadata.generic_classes@.len(), |j: int| generic_class_record(metadata.generic_classes@[j])),
{
    let (string_literals, string_literal_data) = build_string_literals(metadata);
    let generic_parameters = build_generic_parameters(metadata);
    let generic_containers = build_generic_containers(metadata);
    let generic_constraints = build_generic_constraints(metadata);
    let parameter_defaults = build_parameter_defaults(metadata);
    let field_defaults = build_field_defaults(metadata);
    let interfaces = build_interfaces(metadata);
    let vtable_methods = build_vtable_methods(metadata);
    let interface_offsets = build_interface_offsets(metadata);
    let nested_types = build_nested_types(metadata);
    let properties = build_properties(metadata);
    let events = build_events(metadata);
    let types = build_types(metadata);
    let parameters = build_parameters(metadata);
    let methods = build_methods(metadata);
    let fields = build_fields(metadata);
    let images = build_images(metadata);
    let assemblies = build_assemblies(metadata);
    let sections = MetadataSections {
        string_literals: string_literals.as_slice(),
        string_literal_data: string_literal_data.as_slice(),
        strings: metadata.strings.pool.as_slice(),
        events: events.as_slice(),
        properties: properties.as_slice(),
        methods: methods.as_slice(),
        parameter_defaults: parameter_defaults.as_slice(),
        field_defaults: field_defaults.as_slice(),
        default_value_data: metadata.default_value_data.as_slice(),
        parameters: parameters.as_slice(),
        fields: fields.as_slice(),
        generic_parameters: generic_parameters.as_slice(),
        generic_constraints: generic_constraints.as_slice(),
        generic_containers: generic_containers.as_slice(),
        nested_types: nested_types.as_slice(),
        interfaces: interfaces.as_slice(),
        vtable_methods: vtable_methods.as_slice(),
        interface_offsets: interface_offsets.as_slice(),
        types: types.as_slice(),
        images: images.as_slice(),
        assemblies: assemblies.as_slice(),
    };
    let rebuilt_metadata = assemble_metadata(&sections);
    assert(section_list(&sections) =~= metadata_sections(*metadata));
    OutputArtifacts {
        rebuilt_metadata,
        field_offsets: build_field_offsets(metadata),
        method_mappings: build_method_mappings(metadata),
        generic_classes: build_generic_classes(metadata),
    }
}

} // verus!
