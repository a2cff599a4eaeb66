use crate::discovery::profile::BuildProfile;
use crate::reconstruction::images::ImageDef;
use crate::reconstruction::members::{EventDef, PropertyDef};
use crate::reconstruction::methods::MethodDef;
use crate::reconstruction::model::DecodedMetadata;
use crate::reconstruction::{declared_method_end, declared_parameter_end};
use crate::reconstruction::strings::{decimal_digits, push_decimal};
use crate::reconstruction::types::{declaring_parent, last_with_byval, nested_children, nested_list, nesting_rebuilt, TypeDef};
use std::collections::HashMap;
use vstd::prelude::*;
use vstd::string::StringExecFns;

verus! {

/// One inconsistency found in decoded metadata.
pub struct ValidationIssue {
    pub message: String,
}

/// The inconsistencies found in decoded metadata.
pub struct ValidationReport {
    pub errors: Vec<ValidationIssue>,
}

impl ValidationReport {
    /// Whether no inconsistency was found.
    pub fn is_valid(&self) -> (r: bool)
        ensures
            r == (self.errors@.len() == 0),
    {
        self.errors.len() == 0
    }
}

/// The decimal form of `i`, with a minus sign in front when it is negative.
pub open spec fn signed_decimal(i: int) -> Seq<char> {
    if i < 0 {
        seq!['-'] + decimal_digits((-i) as nat)
    } else {
        decimal_digits(i as nat)
    }
}

/// The message `a`, `x` in decimal form, `b`.
pub open spec fn msg1(a: Seq<char>, x: int, b: Seq<char>) -> Seq<char> {
    a + signed_decimal(x) + b
}

/// The message `a`, `x`, `b`, `y`, `c`, the numbers in decimal form.
pub open spec fn msg2(a: Seq<char>, x: int, b: Seq<char>, y: int, c: Seq<char>) -> Seq<char> {
    a + signed_decimal(x) + b + signed_decimal(y) + c
}

/// The message `a`, `x`, `b`, `y`, `c`, `z`, `d`, `w`, `e`, the numbers in decimal form.
pub open spec fn msg4(
    a: Seq<char>,
    x: int,
    b: Seq<char>,
    y: int,
    c: Seq<char>,
    z: int,
    d: Seq<char>,
    w: int,
    e: Seq<char>,
) -> Seq<char> {
    a + signed_decimal(x) + b + signed_decimal(y) + c + signed_decimal(z) + d + signed_decimal(w) + e
}

/// The message `a`, `x` in decimal form, `b`, `kind`, `c`.
pub open spec fn msg_kind(a: Seq<char>, x: int, b: Seq<char>, kind: Seq<char>, c: Seq<char>) -> Seq<char> {
    a + signed_decimal(x) + b + kind + c
}

/// The messages of `errors`, in order.
pub open spec fn messages(errors: Seq<ValidationIssue>) -> Seq<Seq<char>> {
    errors.map_values(|e: ValidationIssue| e.message@)
}

/// `message` alone when `failed`, else nothing.
pub open spec fn opt(failed: bool, message: Seq<char>) -> Seq<Seq<char>> {
    if failed {
        seq![message]
    } else {
        Seq::empty()
    }
}

/// Appends the decimal form of `x` to `s`, with a minus sign in front when it is negative.
fn push_signed(s: &mut String, x: i128)
    ensures
        final(s)@ == old(s)@ + signed_decimal(x as int),
{
    if x < 0 {
        s.append("-");
        let magnitude: u128 = ((-(x + 1)) as u128) + 1;
        push_decimal(s, magnitude);
        proof {
            reveal_strlit("-");
            assert(old(s)@ + seq!['-'] + decimal_digits(magnitude as nat) =~= old(s)@ + (seq!['-']
                + decimal_digits(magnitude as nat)));
        }
    } else {
        push_decimal(s, x as u128);
    }
}

/// The message `a`, `x` in decimal form, `b`.
fn message1(a: &str, x: i128, b: &str) -> (s: String)
    ensures
        s@ == msg1(a@, x as int, b@),
{
    let mut s = String::from_str(a);
    push_signed(&mut s, x);
    s.append(b);
    s
}

/// The message `a`, `x`, `b`, `y`, `c`, the numbers in decimal form.
fn message2(a: &str, x: i128, b: &str, y: i128, c: &str) -> (s: String)
    ensures
        s@ == msg2(a@, x as int, b@, y as int, c@),
{
    let mut s = String::from_str(a);
    push_signed(&mut s, x);
    s.append(b);
    push_signed(&mut s, y);
    s.append(c);
    s
}

/// The message `a`, `x`, `b`, `y`, `c`, `z`, `d`, `w`, `e`, the numbers in decimal form.
fn message4(
    a: &str,
    x: i128,
    b: &str,
    y: i128,
    c: &str,
    z: i128,
    d: &str,
    w: i128,
    e: &str,
) -> (s: String)
    ensures
        s@ == msg4(a@, x as int, b@, y as int, c@, z as int, d@, w as int, e@),
{
    let mut s = String::from_str(a);
    push_signed(&mut s, x);
    s.append(b);
    push_signed(&mut s, y);
    s.append(c);
    push_signed(&mut s, z);
    s.append(d);
    push_signed(&mut s, w);
    s.append(e);
    s
}

/// The message `a`, `x` in decimal form, `b`, `kind`, `c`.
fn message_kind(a: &str, x: i128, b: &str, kind: &str, c: &str) -> (s: String)
    ensures
        s@ == msg_kind(a@, x as int, b@, kind@, c@),
{
    let mut s = String::from_str(a);
    push_signed(&mut s, x);
    s.append(b);
    s.append(kind);
    s.append(c);
    s
}

/// Appends an issue with `message` to `errors`.
fn report(errors: &mut Vec<ValidationIssue>, message: String)
    ensures
        final(errors)@ == old(errors)@.push(ValidationIssue { message }),
        messages(final(errors)@) == messages(old(errors)@).push(message@),
{
    let ghost text = message@;
    let ghost before = errors@;
    errors.push(ValidationIssue { message });
    assert(messages(errors@) =~= messages(before).push(text));
}

// ---------------------------------------------------------------------------------------------
// What consistent metadata is.

/// The number of types that the first `n` images cover.
pub open spec fn image_type_total(images: Seq<ImageDef>, n: nat) -> int
    decreases n,
{
    if n == 0 {
        0
    } else {
        image_type_total(images, (n - 1) as nat) + images[n - 1].type_count
    }
}

/// The counts that the profile announces, and the parallel generic-parameter columns.
pub open spec fn counts_consistent(m: DecodedMetadata, p: BuildProfile) -> bool {
    &&& m.types@.len() == p.type_definition_count
    &&& image_type_total(m.images@, m.images@.len()) == m.types@.len()
    &&& m.generics.gp_names@.len() == m.generics.gp_containers@.len()
    &&& m.generics.gp_names@.len() == p.generic_parameter_count
    &&& m.generics.containers@.len() == p.generic_container_count
}

/// Whether the generic container of type `t`, if it has one, exists and names `t` as its
/// owning type.
pub open spec fn type_container_consistent(m: DecodedMetadata, t: int) -> bool {
    let c = m.types@[t].generic_container_index;
    c >= 0 ==> {
        &&& c < m.generics.containers@.len()
        &&& m.generics.containers@[c as int].2 == 0
        &&& m.generics.containers@[c as int].0 == t as i32
    }
}

/// Whether the generic container of method `k`, if it has one, exists and names `k` as its
/// owning method.
pub open spec fn method_container_consistent(m: DecodedMetadata, k: int) -> bool {
    let c = m.methods@[k].generic_container_index;
    c >= 0 ==> {
        &&& c < m.generics.containers@.len()
        &&& m.generics.containers@[c as int].2 == 1
        &&& m.generics.containers@[c as int].0 == k as i32
    }
}

/// `a + b`, held to the range of `i32`.
pub open spec fn saturating_add_i32(a: i32, b: i32) -> i32 {
    if a + b > i32::MAX {
        i32::MAX
    } else if a + b < i32::MIN {
        i32::MIN
    } else {
        (a + b) as i32
    }
}

/// Whether generic parameter `i` lies inside the parameter range of the container it names.
pub open spec fn parameter_in_container(m: DecodedMetadata, i: int) -> bool {
    let c = m.generics.gp_containers@[i];
    &&& c < m.generics.containers@.len()
    &&& {
        let (_, count, _, start) = m.generics.containers@[c as int];
        &&& start >= 0
        &&& i >= start
        &&& i < (saturating_add_i32(start, count) as usize)
    }
}

/// Whether the constraint range of generic parameter `i` is not negative and lies inside the
/// constraint table.
pub open spec fn constraint_range_consistent(m: DecodedMetadata, i: int) -> bool {
    let start = m.generics.gp_constraint_starts@[i];
    let count = m.generics.gp_constraint_counts@[i];
    start >= 0 && count >= 0 && start + count <= m.generics.constraints@.len()
}

/// The generic-parameter columns, constraints and containers agree with each other.
pub open spec fn generics_consistent(m: DecodedMetadata) -> bool {
    let n = m.generics.gp_names@.len();
    &&& m.generics.gp_constraint_starts@.len() == n
    &&& m.generics.gp_constraint_counts@.len() == n
    &&& m.generics.gp_nums@.len() == n
    &&& m.generics.gp_flags@.len() == n
    &&& forall|i: int|
        0 <= i < vstd::math::min(
            m.generics.gp_constraint_starts@.len() as int,
            m.generics.gp_constraint_counts@.len() as int,
        ) ==> #[trigger] constraint_range_consistent(m, i)
    &&& forall|i: int|
        0 <= i < m.generics.constraints@.len() ==> #[trigger] m.generics.constraints@[i] >= 0
    &&& forall|i: int|
        0 <= i < m.generics.gp_containers@.len() ==> #[trigger] parameter_in_container(m, i)
}

/// The number of properties that the first `n` types declare.
pub open spec fn property_total(types: Seq<TypeDef>, n: nat) -> int
    decreases n,
{
    if n == 0 {
        0
    } else {
        property_total(types, (n - 1) as nat) + types[n - 1].property_count
    }
}

/// The number of events that the first `n` types declare.
pub open spec fn event_total(types: Seq<TypeDef>, n: nat) -> int
    decreases n,
{
    if n == 0 {
        0
    } else {
        event_total(types, (n - 1) as nat) + types[n - 1].event_count
    }
}

/// The number of nested types that the first `n` types declare.
pub open spec fn nested_total(types: Seq<TypeDef>, n: nat) -> int
    decreases n,
{
    if n == 0 {
        0
    } else {
        nested_total(types, (n - 1) as nat) + types[n - 1].nested_count
    }
}

/// The tables that the type and method ranges declare have the sizes that were decoded.
pub open spec fn declared_sizes_consistent(m: DecodedMetadata, p: BuildProfile) -> bool {
    &&& m.string_literals@.len() == p.string_literal_count
    &&& declared_method_end(m.types@, m.types@.len()) == m.methods@.len()
    &&& declared_parameter_end(m.methods@, m.methods@.len()) == m.parameters@.len()
    &&& property_total(m.types@, m.types@.len()) == m.properties@.len()
    &&& event_total(m.types@, m.types@.len()) == m.events@.len()
}

/// A member range is `-1` with no members, or a range inside a table of `total` entries.
pub open spec fn member_range_ok(start: i32, count: u16, total: nat) -> bool {
    if count == 0 {
        start == -1
    } else {
        start >= 0 && start + count <= total
    }
}

/// Whether an accessor is `-1` or a method index inside a type of `method_count` methods.
pub open spec fn accessor_ok(accessor: i32, method_count: u16) -> bool {
    -1 <= accessor && accessor < method_count
}

/// Whether property `k` of the table is named and its accessors lie inside its type.
pub open spec fn property_ok(properties: Seq<PropertyDef>, k: int, method_count: u16) -> bool {
    &&& properties[k].name@.len() != 0
    &&& accessor_ok(properties[k].get, method_count)
    &&& accessor_ok(properties[k].set, method_count)
}

/// Whether event `k` of the table is named, has a type and its accessors lie inside its type.
pub open spec fn event_ok(events: Seq<EventDef>, k: int, method_count: u16) -> bool {
    &&& events[k].name@.len() != 0
    &&& events[k].type_index >= 0
    &&& accessor_ok(events[k].add, method_count)
    &&& accessor_ok(events[k].remove, method_count)
    &&& accessor_ok(events[k].raise, method_count)
}

/// The member ranges of type `t` are well formed, and its properties and events are sound.
pub open spec fn type_members_consistent(m: DecodedMetadata, t: int) -> bool {
    let ty = m.types@[t];
    &&& member_range_ok(ty.property_start, ty.property_count, m.properties@.len())
    &&& member_range_ok(ty.event_start, ty.event_count, m.events@.len())
    &&& member_range_ok(ty.if_start, ty.if_count, m.interfaces@.len())
    &&& member_range_ok(ty.vtable_start, ty.vtable_count, m.vtable_methods@.len())
    &&& member_range_ok(
        ty.interface_offset_start,
        ty.interface_offset_count,
        m.interface_offsets@.len(),
    )
    &&& forall|k: int|
        ty.property_start <= k < ty.property_start + ty.property_count ==> #[trigger] property_ok(
            m.properties@,
            k,
            ty.m_count,
        )
    &&& forall|k: int|
        ty.event_start <= k < ty.event_start + ty.event_count ==> #[trigger] event_ok(
            m.events@,
            k,
            ty.m_count,
        )
}

/// Whether a vtable entry has a known usage kind and, unless it is a generic-method entry,
/// names a decoded method.
pub open spec fn vtable_entry_ok(entry: u32, method_count: nat) -> bool {
    let usage = entry >> 29u32;
    &&& (usage == 0 || usage == 3 || usage == 6)
    &&& (usage != 6 ==> (entry & 0x1FFF_FFFF) < method_count)
}

/// The interface, interface-offset and vtable tables are sound.
pub open spec fn tables_consistent(m: DecodedMetadata) -> bool {
    &&& forall|i: int| 0 <= i < m.interfaces@.len() ==> #[trigger] m.interfaces@[i] >= 0
    &&& forall|i: int|
        0 <= i < m.interface_offsets@.len() ==> (#[trigger] m.interface_offsets@[i]).type_index
            >= 0 && m.interface_offsets@[i].offset >= 0
    &&& forall|i: int|
        0 <= i < m.vtable_methods@.len() ==> #[trigger] vtable_entry_ok(
            m.vtable_methods@[i],
            m.methods@.len(),
        )
}

/// The default-value tables point at decoded fields, parameters and data, and have the sizes
/// that the header announces.
pub open spec fn defaults_consistent(m: DecodedMetadata) -> bool {
    &&& forall|i: int|
        0 <= i < m.field_defaults@.len() ==> {
            let d = #[trigger] m.field_defaults@[i];
            &&& 0 <= d.field_index < m.fields@.len()
            &&& d.type_index >= 0
            &&& 0 <= d.data_index < m.default_value_data@.len()
        }
    &&& m.field_defaults@.len() == m.expected_field_default_count
    &&& forall|i: int|
        0 <= i < m.parameter_defaults@.len() ==> {
            let d = #[trigger] m.parameter_defaults@[i];
            &&& 0 <= d.parameter_index < m.parameters@.len()
            &&& d.type_index >= 0
            &&& -1 <= d.data_index
            &&& (d.data_index >= 0 ==> d.data_index < m.default_value_data@.len())
        }
    &&& m.parameter_defaults@.len() == m.expected_parameter_default_count
}

/// Each by-value type index of the first `n` types, mapped to the last type that has it.
pub open spec fn byval_owners(types: Seq<TypeDef>, n: nat) -> Map<i32, usize>
    decreases n,
{
    if n == 0 {
        Map::empty()
    } else {
        byval_owners(types, (n - 1) as nat).insert(types[n - 1].byval_type_index, (n - 1) as usize)
    }
}

/// Whether the nested range of `t` is empty or lies inside a list of `total` entries.
pub open spec fn nested_range_ok(t: TypeDef, total: nat) -> bool {
    t.nested_count == 0 || (t.nested_start >= 0 && t.nested_start + t.nested_count <= total)
}

/// The (parent, child) pairs that the nested ranges of the first `n` types list, in order;
/// a range that is empty or does not fit lists none.
pub open spec fn nested_entries(types: Seq<TypeDef>, nested: Seq<i32>, n: nat) -> Seq<(int, int)>
    decreases n,
{
    if n == 0 {
        Seq::empty()
    } else {
        let earlier = nested_entries(types, nested, (n - 1) as nat);
        let t = types[n - 1];
        if t.nested_count > 0 && nested_range_ok(t, nested.len()) {
            earlier + Seq::new(
                t.nested_count as nat,
                |k: int| ((n - 1) as int, nested[t.nested_start + k] as int),
            )
        } else {
            earlier
        }
    }
}

/// Whether a listed child is a type whose declaring type is the parent that lists it.
pub open spec fn nested_child_ok(types: Seq<TypeDef>, entry: (int, int)) -> bool {
    let (parent, child) = entry;
    let owners = byval_owners(types, types.len());
    &&& 0 <= child < types.len()
    &&& owners.contains_key(types[child].declaring_type_index)
    &&& owners[types[child].declaring_type_index] == parent
}

/// The nested ranges fit, list each child once under the type that declares it, and list
/// every type that has a declaring type.
pub open spec fn nesting_consistent(m: DecodedMetadata) -> bool {
    let types = m.types@;
    let entries = nested_entries(types, m.nested_types@, types.len());
    &&& nested_total(types, types.len()) == m.nested_types@.len()
    &&& forall|t: int| 0 <= t < types.len() ==> #[trigger] nested_range_ok(types[t], m.nested_types@.len())
    &&& forall|i: int| 0 <= i < entries.len() ==> #[trigger] nested_child_ok(types, entries[i])
    &&& forall|i: int, j: int|
        0 <= i < j < entries.len() ==> (#[trigger] entries[i]).1 != (#[trigger] entries[j]).1
    &&& forall|t: int|
        0 <= t < types.len() && (#[trigger] types[t]).declaring_type_index >= 0 ==> exists|i: int|
            0 <= i < entries.len() && #[trigger] entries[i].1 == t
}

/// Everything that `validate` checks of decoded metadata and the profile it was decoded with.
pub open spec fn metadata_consistent(m: DecodedMetadata, p: BuildProfile) -> bool {
    &&& counts_consistent(m, p)
    &&& forall|t: int| 0 <= t < m.types@.len() ==> #[trigger] type_container_consistent(m, t)
    &&& forall|k: int| 0 <= k < m.methods@.len() ==> #[trigger] method_container_consistent(m, k)
    &&& generics_consistent(m)
    &&& declared_sizes_consistent(m, p)
    &&& forall|t: int| 0 <= t < m.types@.len() ==> #[trigger] type_members_consistent(m, t)
    &&& tables_consistent(m)
    &&& defaults_consistent(m)
    &&& nesting_consistent(m)
}


// ---------------------------------------------------------------------------------------------
// The checks.

/// Checks `metadata` against itself and against `profile`: the report holds one issue for
/// each failed check, in the order of `validation_msgs`, and is empty exactly when the
/// metadata is consistent.
pub fn validate(metadata: &DecodedMetadata, profile: &BuildProfile) -> (r: ValidationReport)
    ensures
        r.errors@.len() == 0 <==> metadata_consistent(*metadata, *profile),
        messages(r.errors@) == validation_msgs(*metadata, *profile),
{
    let mut errors: Vec<ValidationIssue> = Vec::new();
    assert(messages(errors@) =~= Seq::<Seq<char>>::empty());
    check_counts(&mut errors, metadata, profile);
    check_type_containers(&mut errors, metadata);
    check_method_containers(&mut errors, metadata);
    check_generics(&mut errors, metadata);
    check_declared_sizes(&mut errors, metadata, profile);
    check_type_members(&mut errors, metadata);
    check_tables(&mut errors, metadata);
    check_defaults(&mut errors, metadata);
    check_nesting(&mut errors, metadata);
    assert(messages(errors@) =~= validation_msgs(*metadata, *profile));
    ValidationReport { errors }
}

/// The issue that a column of `count` entries raises where `expected` are due.
pub open spec fn column_msgs(prefix: Seq<char>, count: int, expected: int) -> Seq<Seq<char>> {
    opt(count != expected, msg2(prefix, count, " entries, expected "@, expected, ""@))
}

/// The issue that a `kind` range of type `t` raises when it is not well formed.
pub open spec fn member_range_msgs(kind: Seq<char>, t: int, start: i32, count: u16, total: nat) -> Seq<Seq<char>> {
    if count == 0 {
        opt(start != -1, msg_kind("type "@, t, " has a nonempty "@, kind, " start with zero count"@))
    } else if start < 0 {
        seq![msg_kind("type "@, t, " has a negative "@, kind, " start"@)]
    } else {
        opt(start + count > total, msg_kind("type "@, t, " has an invalid "@, kind, " range"@))
    }
}

/// The issue that an accessor of member `k` of type `t` raises when it lies outside the type.
pub open spec fn accessor_msgs(prefix: Seq<char>, k: int, t: int, problem: Seq<char>, accessor: i32, method_count: u16) -> Seq<Seq<char>> {
    opt(!accessor_ok(accessor, method_count), msg2(prefix, k, " on type "@, t, problem))
}

/// The issues of property `k` of type `t`.
pub open spec fn property_msgs(p: PropertyDef, k: int, t: int, method_count: u16) -> Seq<Seq<char>> {
    opt(p.name@.len() == 0, msg2("property "@, k, " on type "@, t, " has an empty name"@))
        + accessor_msgs("property "@, k, t, " has an invalid getter"@, p.get, method_count)
        + accessor_msgs("property "@, k, t, " has an invalid setter"@, p.set, method_count)
}

/// The issues of event `k` of type `t`.
pub open spec fn event_msgs(e: EventDef, k: int, t: int, method_count: u16) -> Seq<Seq<char>> {
    opt(e.name@.len() == 0, msg2("event "@, k, " on type "@, t, " has an empty name"@))
        + opt(e.type_index < 0, msg2("event "@, k, " on type "@, t, " has a negative type index"@))
        + accessor_msgs("event "@, k, t, " has an invalid add method"@, e.add, method_count)
        + accessor_msgs("event "@, k, t, " has an invalid remove method"@, e.remove, method_count)
        + accessor_msgs("event "@, k, t, " has an invalid raise method"@, e.raise, method_count)
}

/// The issues of the counts that the profile announces.
pub open spec fn count_msgs(m: DecodedMetadata, p: BuildProfile) -> Seq<Seq<char>> {
    let g = m.generics;
    let total = image_type_total(m.images@, m.images@.len());
    opt(m.types@.len() != p.type_definition_count, msg2("decoded "@, m.types@.len() as int, " types, expected "@, p.type_definition_count as int, ""@))
        + opt(total != m.types@.len(), msg2("image type ranges cover "@, total, " types, decoded "@, m.types@.len() as int, ""@))
        + opt(g.gp_names@.len() != g.gp_containers@.len(), "generic parameter names and owners have different lengths"@)
        + opt(g.gp_names@.len() != p.generic_parameter_count, msg2("decoded "@, g.gp_names@.len() as int, " generic parameters, expected "@, p.generic_parameter_count as int, ""@))
        + opt(g.containers@.len() != p.generic_container_count, msg2("decoded "@, g.containers@.len() as int, " generic containers, expected "@, p.generic_container_count as int, ""@))
}

/// The issues of the sizes that the type and method ranges declare.
pub open spec fn declared_size_msgs(m: DecodedMetadata, p: BuildProfile) -> Seq<Seq<char>> {
    let methods = declared_method_end(m.types@, m.types@.len()) as int;
    let parameters = declared_parameter_end(m.methods@, m.methods@.len()) as int;
    let properties = property_total(m.types@, m.types@.len());
    let events = event_total(m.types@, m.types@.len());
    opt(m.string_literals@.len() != p.string_literal_count, msg2("decoded "@, m.string_literals@.len() as int, " string literals, expected "@, p.string_literal_count as int, ""@))
        + opt(methods != m.methods@.len(), msg2("type method ranges cover "@, methods, " definitions, decoded "@, m.methods@.len() as int, ""@))
        + opt(parameters != m.parameters@.len(), msg2("method parameter ranges cover "@, parameters, " definitions, decoded "@, m.parameters@.len() as int, ""@))
        + opt(properties != m.properties@.len(), msg2("type property ranges cover "@, properties, " definitions, decoded "@, m.properties@.len() as int, ""@))
        + opt(events != m.events@.len(), msg2("type event ranges cover "@, events, " definitions, decoded "@, m.events@.len() as int, ""@))
}

/// The issue that the generic container of type `t` raises, if any.
pub open spec fn type_container_msgs(m: DecodedMetadata, t: int) -> Seq<Seq<char>> {
    let c = m.types@[t].generic_container_index;
    if c < 0 {
        Seq::empty()
    } else if c < m.generics.containers@.len() {
        let (owner, _, is_method, _) = m.generics.containers@[c as int];
        opt(
            !(is_method == 0 && owner == t as i32),
            msg4("type "@, t, " generic container "@, c as int, " has owner "@, owner as int, " and method flag "@, is_method as int, ""@),
        )
    } else {
        seq![msg2("type "@, t, " references missing generic container "@, c as int, ""@)]
    }
}

/// The issues of the generic containers of the first `n` types.
pub open spec fn type_containers_msgs(m: DecodedMetadata, n: nat) -> Seq<Seq<char>>
    decreases n,
{
    if n == 0 {
        Seq::empty()
    } else {
        type_containers_msgs(m, (n - 1) as nat) + type_container_msgs(m, n - 1)
    }
}

/// The issue that the generic container of method `k` raises, if any.
pub open spec fn method_container_msgs(m: DecodedMetadata, k: int) -> Seq<Seq<char>> {
    let c = m.methods@[k].generic_container_index;
    if c < 0 {
        Seq::empty()
    } else if c < m.generics.containers@.len() {
        let (owner, _, is_method, _) = m.generics.containers@[c as int];
        opt(
            !(is_method == 1 && owner == k as i32),
            msg4("method "@, k, " generic container "@, c as int, " has owner "@, owner as int, " and method flag "@, is_method as int, ""@),
        )
    } else {
        seq![msg2("method "@, k, " references missing generic container "@, c as int, ""@)]
    }
}

/// The issues of the generic containers of the first `n` methods.
pub open spec fn method_containers_msgs(m: DecodedMetadata, n: nat) -> Seq<Seq<char>>
    decreases n,
{
    if n == 0 {
        Seq::empty()
    } else {
        method_containers_msgs(m, (n - 1) as nat) + method_container_msgs(m, n - 1)
    }
}

/// The issue that the constraint range of generic parameter `i` raises, if any.
pub open spec fn constraint_range_msgs(m: DecodedMetadata, i: int) -> Seq<Seq<char>> {
    let start = m.generics.gp_constraint_starts@[i];
    let count = m.generics.gp_constraint_counts@[i];
    if start < 0 || count < 0 {
        seq![msg1("generic parameter "@, i, " has a negative constraint range"@)]
    } else {
        opt(start + count > m.generics.constraints@.len(), msg1("generic parameter "@, i, " has an invalid constraint range"@))
    }
}

/// The issues of the constraint ranges of the first `n` generic parameters.
pub open spec fn constraint_ranges_msgs(m: DecodedMetadata, n: nat) -> Seq<Seq<char>>
    decreases n,
{
    if n == 0 {
        Seq::empty()
    } else {
        constraint_ranges_msgs(m, (n - 1) as nat) + constraint_range_msgs(m, n - 1)
    }
}

/// The issues of the first `n` constraints.
pub open spec fn constraints_msgs(m: DecodedMetadata, n: nat) -> Seq<Seq<char>>
    decreases n,
{
    if n == 0 {
        Seq::empty()
    } else {
        constraints_msgs(m, (n - 1) as nat) + opt(
            m.generics.constraints@[n - 1] < 0,
            msg1("generic constraint "@, n - 1, " has a negative type index"@),
        )
    }
}

/// The issue that the container of generic parameter `i` raises, if any.
pub open spec fn parameter_container_msgs(m: DecodedMetadata, i: int) -> Seq<Seq<char>> {
    let c = m.generics.gp_containers@[i] as int;
    if c < m.generics.containers@.len() {
        opt(!parameter_in_container(m, i), msg2("generic parameter "@, i, " is outside container "@, c, " range"@))
    } else {
        seq![msg2("generic parameter "@, i, " references missing container "@, c, ""@)]
    }
}

/// The issues of the containers of the first `n` generic parameters.
pub open spec fn parameter_containers_msgs(m: DecodedMetadata, n: nat) -> Seq<Seq<char>>
    decreases n,
{
    if n == 0 {
        Seq::empty()
    } else {
        parameter_containers_msgs(m, (n - 1) as nat) + parameter_container_msgs(m, n - 1)
    }
}

/// The issues of the generic-parameter columns whose length differs from that of the names.
pub open spec fn generic_columns_msgs(m: DecodedMetadata) -> Seq<Seq<char>> {
    let g = m.generics;
    let n = g.gp_names@.len() as int;
    column_msgs("generic parameter constraint starts contain "@, g.gp_constraint_starts@.len() as int, n)
        + column_msgs("generic parameter constraint counts contain "@, g.gp_constraint_counts@.len() as int, n)
        + column_msgs("generic parameter ordinals contain "@, g.gp_nums@.len() as int, n)
        + column_msgs("generic parameter flags contain "@, g.gp_flags@.len() as int, n)
}

/// Concatenation is associative.
proof fn lemma_concat_assoc(a: Seq<Seq<char>>, b: Seq<Seq<char>>, c: Seq<Seq<char>>)
    ensures
        a + (b + c) == (a + b) + c,
{
    assert(a + (b + c) =~= (a + b) + c);
}

/// The issues of the generic-parameter columns, constraints and containers.
pub open spec fn generics_msgs(m: DecodedMetadata) -> Seq<Seq<char>> {
    let g = m.generics;
    generic_columns_msgs(m)
        + constraint_ranges_msgs(m, vstd::math::min(g.gp_constraint_starts@.len() as int, g.gp_constraint_counts@.len() as int) as nat)
        + constraints_msgs(m, g.constraints@.len())
        + parameter_containers_msgs(m, g.gp_containers@.len())
}

/// The issues of the first `n` properties of type `t`.
pub open spec fn type_properties_msgs(m: DecodedMetadata, t: int, n: nat) -> Seq<Seq<char>>
    decreases n,
{
    if n == 0 {
        Seq::empty()
    } else {
        let ty = m.types@[t];
        type_properties_msgs(m, t, (n - 1) as nat) + property_msgs(m.properties@[ty.property_start + n - 1], n - 1, t, ty.m_count)
    }
}

/// The issues of the first `n` events of type `t`.
pub open spec fn type_events_msgs(m: DecodedMetadata, t: int, n: nat) -> Seq<Seq<char>>
    decreases n,
{
    if n == 0 {
        Seq::empty()
    } else {
        let ty = m.types@[t];
        type_events_msgs(m, t, (n - 1) as nat) + event_msgs(m.events@[ty.event_start + n - 1], n - 1, t, ty.m_count)
    }
}

/// The issues of the five member ranges of type `t`.
pub open spec fn member_ranges_msgs(m: DecodedMetadata, t: int) -> Seq<Seq<char>> {
    let ty = m.types@[t];
    member_range_msgs("property"@, t, ty.property_start, ty.property_count, m.properties@.len())
        + member_range_msgs("event"@, t, ty.event_start, ty.event_count, m.events@.len())
        + member_range_msgs("interface"@, t, ty.if_start, ty.if_count, m.interfaces@.len())
        + member_range_msgs("vtable"@, t, ty.vtable_start, ty.vtable_count, m.vtable_methods@.len())
        + member_range_msgs("interface offset"@, t, ty.interface_offset_start, ty.interface_offset_count, m.interface_offsets@.len())
}

/// The issues of the member ranges of type `t`, then of its properties and events; a
/// property range that does not fit ends the checks of the type, and so does an event range
/// that does not fit.
pub open spec fn members_msgs(m: DecodedMetadata, t: int) -> Seq<Seq<char>> {
    let ty = m.types@[t];
    let ranges = member_ranges_msgs(m, t);
    let properties_fit = ty.property_start >= 0 && ty.property_start + ty.property_count <= m.properties@.len();
    let events_fit = ty.event_start >= 0 && ty.event_start + ty.event_count <= m.events@.len();
    if ty.property_count > 0 && !properties_fit {
        ranges
    } else {
        let properties = if ty.property_count > 0 {
            type_properties_msgs(m, t, ty.property_count as nat)
        } else {
            Seq::empty()
        };
        if ty.event_count > 0 && !events_fit {
            ranges + properties
        } else if ty.event_count > 0 {
            ranges + properties + type_events_msgs(m, t, ty.event_count as nat)
        } else {
            ranges + properties
        }
    }
}

/// The issues of the members of the first `n` types.
pub open spec fn types_members_msgs(m: DecodedMetadata, n: nat) -> Seq<Seq<char>>
    decreases n,
{
    if n == 0 {
        Seq::empty()
    } else {
        types_members_msgs(m, (n - 1) as nat) + members_msgs(m, n - 1)
    }
}

/// The issues of the first `n` interface entries.
pub open spec fn interfaces_msgs(m: DecodedMetadata, n: nat) -> Seq<Seq<char>>
    decreases n,
{
    if n == 0 {
        Seq::empty()
    } else {
        interfaces_msgs(m, (n - 1) as nat) + opt(m.interfaces@[n - 1] < 0, msg1("interface entry "@, n - 1, " has a negative type index"@))
    }
}

/// The issues of the first `n` interface offsets.
pub open spec fn interface_offsets_msgs(m: DecodedMetadata, n: nat) -> Seq<Seq<char>>
    decreases n,
{
    if n == 0 {
        Seq::empty()
    } else {
        let v = m.interface_offsets@[n - 1];
        interface_offsets_msgs(m, (n - 1) as nat) + opt(v.type_index < 0, msg1("interface offset "@, n - 1, " has a negative type index"@))
            + opt(v.offset < 0, msg1("interface offset "@, n - 1, " has a negative slot offset"@))
    }
}

/// The issue that vtable entry `i` raises, if any.
pub open spec fn vtable_msgs(m: DecodedMetadata, i: int) -> Seq<Seq<char>> {
    let entry = m.vtable_methods@[i];
    let usage = entry >> 29u32;
    if !(usage == 0 || usage == 3 || usage == 6) {
        seq![msg2("vtable entry "@, i, " has unsupported usage kind "@, usage as int, ""@)]
    } else {
        opt(usage != 6 && (entry & 0x1FFF_FFFF) >= m.methods@.len(), msg1("vtable entry "@, i, " has an invalid method index"@))
    }
}

/// The issues of the first `n` vtable entries.
pub open spec fn vtables_msgs(m: DecodedMetadata, n: nat) -> Seq<Seq<char>>
    decreases n,
{
    if n == 0 {
        Seq::empty()
    } else {
        vtables_msgs(m, (n - 1) as nat) + vtable_msgs(m, n - 1)
    }
}

/// The issues of the interface, interface-offset and vtable tables.
pub open spec fn tables_msgs(m: DecodedMetadata) -> Seq<Seq<char>> {
    interfaces_msgs(m, m.interfaces@.len()) + interface_offsets_msgs(m, m.interface_offsets@.len()) + vtables_msgs(
        m,
        m.vtable_methods@.len(),
    )
}

/// The issues of the first `n` field defaults.
pub open spec fn field_defaults_msgs(m: DecodedMetadata, n: nat) -> Seq<Seq<char>>
    decreases n,
{
    if n == 0 {
        Seq::empty()
    } else {
        let d = m.field_defaults@[n - 1];
        field_defaults_msgs(m, (n - 1) as nat)
            + opt(d.field_index < 0 || d.field_index >= m.fields@.len(), msg1("field default "@, n - 1, " has an invalid field index"@))
            + opt(d.type_index < 0, msg1("field default "@, n - 1, " has a negative type index"@))
            + opt(d.data_index < 0 || d.data_index >= m.default_value_data@.len(), msg1("field default "@, n - 1, " has an invalid data index"@))
    }
}

/// The issues of the first `n` parameter defaults.
pub open spec fn parameter_defaults_msgs(m: DecodedMetadata, n: nat) -> Seq<Seq<char>>
    decreases n,
{
    if n == 0 {
        Seq::empty()
    } else {
        let d = m.parameter_defaults@[n - 1];
        parameter_defaults_msgs(m, (n - 1) as nat)
            + opt(d.parameter_index < 0 || d.parameter_index >= m.parameters@.len(), msg1("parameter default "@, n - 1, " has an invalid parameter index"@))
            + opt(d.type_index < 0, msg1("parameter default "@, n - 1, " has a negative type index"@))
            + opt(d.data_index < -1 || (d.data_index >= 0 && d.data_index >= m.default_value_data@.len()), msg1("parameter default "@, n - 1, " has an invalid data index"@))
    }
}

/// The issues of the default-value tables.
pub open spec fn defaults_msgs(m: DecodedMetadata) -> Seq<Seq<char>> {
    field_defaults_msgs(m, m.field_defaults@.len())
        + opt(m.field_defaults@.len() != m.expected_field_default_count, msg2("decoded "@, m.field_defaults@.len() as int, " field defaults, expected "@, m.expected_field_default_count as int, ""@))
        + parameter_defaults_msgs(m, m.parameter_defaults@.len())
        + opt(m.parameter_defaults@.len() != m.expected_parameter_default_count, msg2("decoded "@, m.parameter_defaults@.len() as int, " parameter defaults, expected "@, m.expected_parameter_default_count as int, ""@))
}

/// The issues that child `child` of `parent` raises, after the (parent, child) pairs `prev`.
pub open spec fn child_msgs(types: Seq<TypeDef>, parent: int, child: int, prev: Seq<(int, int)>) -> Seq<Seq<char>> {
    if child < 0 {
        seq![msg1("type "@, parent, " has a negative nested child index"@)]
    } else if child >= types.len() {
        seq![msg2("type "@, parent, " has an out-of-range nested child "@, child, ""@)]
    } else {
        opt(!nested_child_ok(types, (parent, child)), msg2("nested child "@, child, " does not declare type "@, parent, ""@))
            + opt(listed(prev, child), msg1("nested child "@, child, " is emitted more than once"@))
    }
}

/// The (parent, child) pairs that the nested range of `parent` lists.
pub open spec fn nested_block(m: DecodedMetadata, parent: int) -> Seq<(int, int)> {
    let t = m.types@[parent];
    Seq::new(t.nested_count as nat, |k: int| (parent, m.nested_types@[t.nested_start + k] as int))
}

/// The issues of the first `k` children of `parent`.
pub open spec fn block_msgs(m: DecodedMetadata, parent: int, k: nat) -> Seq<Seq<char>>
    decreases k,
{
    if k == 0 {
        Seq::empty()
    } else {
        let prev = nested_entries(m.types@, m.nested_types@, parent as nat) + nested_block(m, parent).subrange(0, k - 1);
        block_msgs(m, parent, (k - 1) as nat) + child_msgs(m.types@, parent, nested_block(m, parent)[k - 1].1, prev)
    }
}

/// The issues of the nested range of `parent` and of its children.
pub open spec fn parent_msgs(m: DecodedMetadata, parent: int) -> Seq<Seq<char>> {
    let t = m.types@[parent];
    if t.nested_count == 0 {
        Seq::empty()
    } else if t.nested_start < 0 {
        seq![msg1("type "@, parent, " has a negative nested type start"@)]
    } else if t.nested_start + t.nested_count > m.nested_types@.len() {
        seq![msg1("type "@, parent, " has an invalid nested type range"@)]
    } else {
        block_msgs(m, parent, t.nested_count as nat)
    }
}

/// The issues of the nested ranges of the first `n` types.
pub open spec fn parents_msgs(m: DecodedMetadata, n: nat) -> Seq<Seq<char>>
    decreases n,
{
    if n == 0 {
        Seq::empty()
    } else {
        parents_msgs(m, (n - 1) as nat) + parent_msgs(m, n - 1)
    }
}

/// The issues of the first `n` types that have a declaring type but are listed by none.
pub open spec fn absent_msgs(m: DecodedMetadata, n: nat) -> Seq<Seq<char>>
    decreases n,
{
    if n == 0 {
        Seq::empty()
    } else {
        let entries = nested_entries(m.types@, m.nested_types@, m.types@.len());
        absent_msgs(m, (n - 1) as nat) + opt(
            m.types@[n - 1].declaring_type_index >= 0 && !listed(entries, n - 1),
            msg1("nested type "@, n - 1, " is absent from its declaring type range"@),
        )
    }
}

/// The issues of the nested-type list.
pub open spec fn nesting_msgs(m: DecodedMetadata) -> Seq<Seq<char>> {
    let total = nested_total(m.types@, m.types@.len());
    opt(total != m.nested_types@.len(), msg2("nested type ranges cover "@, total, " entries, emitted "@, m.nested_types@.len() as int, ""@))
        + parents_msgs(m, m.types@.len()) + absent_msgs(m, m.types@.len())
}

/// Every issue that `validate` reports, in the order of its checks: the counts, the generic
/// containers of the types and of the methods, the generic parameters, the declared table
/// sizes, the members of each type, the interface and vtable tables, the default values and
/// the nested types.
pub open spec fn validation_msgs(m: DecodedMetadata, p: BuildProfile) -> Seq<Seq<char>> {
    count_msgs(m, p) + type_containers_msgs(m, m.types@.len()) + method_containers_msgs(m, m.methods@.len())
        + generics_msgs(m) + declared_size_msgs(m, p) + types_members_msgs(m, m.types@.len()) + tables_msgs(m)
        + defaults_msgs(m) + nesting_msgs(m)
}

fn check_counts(errors: &mut Vec<ValidationIssue>, m: &DecodedMetadata, p: &BuildProfile)
    ensures
        final(errors)@.len() >= old(errors)@.len(),
        final(errors)@.len() == old(errors)@.len() <==> counts_consistent(*m, *p),
        messages(final(errors)@) == messages(old(errors)@) + count_msgs(*m, *p),
{
    let ghost e0 = errors@.len();
    let ghost m0 = messages(errors@);
    if m.types.len() != p.type_definition_count {
        report(errors, message2(
                    "decoded ",
                    m.types.len() as i128,
                    " types, expected ",
                    p.type_definition_count as i128,
                    "",
                ));
    }
    let mut image_type_count: u128 = 0;
    let mut i: usize = 0;
    while i < m.images.len()
        invariant
            i <= m.images@.len(),
            image_type_count == image_type_total(m.images@, i as nat),
            image_type_count <= i * 0xFFFF_FFFF,
        decreases m.images.len() - i,
    {
        image_type_count = image_type_count + m.images[i].type_count as u128;
        i = i + 1;
    }
    if image_type_count != m.types.len() as u128 {
        report(errors, message2(
                    "image type ranges cover ",
                    image_type_count as i128,
                    " types, decoded ",
                    m.types.len() as i128,
                    "",
                ));
    }
    if m.generics.gp_names.len() != m.generics.gp_containers.len() {
        report(errors, "generic parameter names and owners have different lengths".to_owned());
    }
    if m.generics.gp_names.len() != p.generic_parameter_count {
        report(errors, message2(
                    "decoded ",
                    m.generics.gp_names.len() as i128,
                    " generic parameters, expected ",
                    p.generic_parameter_count as i128,
                    "",
                ));
    }
    if m.generics.containers.len() != p.generic_container_count {
        report(errors, message2(
                    "decoded ",
                    m.generics.containers.len() as i128,
                    " generic containers, expected ",
                    p.generic_container_count as i128,
                    "",
                ));
    }
    assert(messages(errors@) =~= m0 + count_msgs(*m, *p));
}

fn check_type_containers(errors: &mut Vec<ValidationIssue>, m: &DecodedMetadata)
    ensures
        final(errors)@.len() >= old(errors)@.len(),
        final(errors)@.len() == old(errors)@.len() <==> forall|t: int|
            0 <= t < m.types@.len() ==> #[trigger] type_container_consistent(*m, t),
        messages(final(errors)@) == messages(old(errors)@) + type_containers_msgs(*m, m.types@.len()),
{
    let ghost e0 = errors@.len();
    let ghost m0 = messages(errors@);
    let mut t: usize = 0;
    while t < m.types.len()
        invariant
            t <= m.types@.len(),
            errors@.len() >= e0,
            messages(errors@) == m0 + type_containers_msgs(*m, t as nat),
            errors@.len() == e0 <==> forall|u: int|
                0 <= u < t ==> #[trigger] type_container_consistent(*m, u),
        decreases m.types.len() - t,
    {
        let c = m.types[t].generic_container_index;
        let ghost before = errors@.len();
        if c >= 0 {
            let ci = c as usize;
            if ci < m.generics.containers.len() {
                let (owner, _, is_method, _) = m.generics.containers[ci];
                if !(is_method == 0 && owner == #[verifier::truncate] (t as i32)) {
                    assert(!type_container_consistent(*m, t as int));
                    report(errors, message4(
                                "type ",
                                t as i128,
                                " generic container ",
                                ci as i128,
                                " has owner ",
                                owner as i128,
                                " and method flag ",
                                is_method as i128,
                                "",
                            ));
                }
            } else {
                report(errors, message2(
                            "type ",
                            t as i128,
                            " references missing generic container ",
                            ci as i128,
                            "",
                        ));
            }
        }
        assert(errors@.len() == before <==> type_container_consistent(*m, t as int));
        t = t + 1;
        assert(messages(errors@) =~= m0 + type_containers_msgs(*m, t as nat));
    }
}

fn check_method_containers(errors: &mut Vec<ValidationIssue>, m: &DecodedMetadata)
    ensures
        final(errors)@.len() >= old(errors)@.len(),
        final(errors)@.len() == old(errors)@.len() <==> forall|k: int|
            0 <= k < m.methods@.len() ==> #[trigger] method_container_consistent(*m, k),
        messages(final(errors)@) == messages(old(errors)@) + method_containers_msgs(*m, m.methods@.len()),
{
    let ghost e0 = errors@.len();
    let ghost m0 = messages(errors@);
    let mut k: usize = 0;
    while k < m.methods.len()
        invariant
            k <= m.methods@.len(),
            errors@.len() >= e0,
            messages(errors@) == m0 + method_containers_msgs(*m, k as nat),
            errors@.len() == e0 <==> forall|u: int|
                0 <= u < k ==> #[trigger] method_container_consistent(*m, u),
        decreases m.methods.len() - k,
    {
        let c = m.methods[k].generic_container_index;
        let ghost before = errors@.len();
        if c >= 0 {
            let ci = c as usize;
            if ci < m.generics.containers.len() {
                let (owner, _, is_method, _) = m.generics.containers[ci];
                if !(is_method == 1 && owner == #[verifier::truncate] (k as i32)) {
                    assert(!method_container_consistent(*m, k as int));
                    report(errors, message4(
                                "method ",
                                k as i128,
                                " generic container ",
                                ci as i128,
                                " has owner ",
                                owner as i128,
                                " and method flag ",
                                is_method as i128,
                                "",
                            ));
                }
            } else {
                report(errors, message2(
                            "method ",
                            k as i128,
                            " references missing generic container ",
                            ci as i128,
                            "",
                        ));
            }
        }
        assert(errors@.len() == before <==> method_container_consistent(*m, k as int));
        k = k + 1;
        assert(messages(errors@) =~= m0 + method_containers_msgs(*m, k as nat));
    }
}

fn check_column(
    errors: &mut Vec<ValidationIssue>,
    prefix: &str,
    count: usize,
    expected: usize,
)
    ensures
        final(errors)@.len() >= old(errors)@.len(),
        final(errors)@.len() == old(errors)@.len() <==> count == expected,
        messages(final(errors)@) == messages(old(errors)@) + column_msgs(prefix@, count as int, expected as int),
{
    let ghost m0 = messages(errors@);
    if count != expected {
        report(errors, message2(prefix, count as i128, " entries, expected ", expected as i128, ""));
    }
    assert(messages(errors@) =~= m0 + column_msgs(prefix@, count as int, expected as int));
}

#[verifier::rlimit(30)]
fn check_generics(errors: &mut Vec<ValidationIssue>, m: &DecodedMetadata)
    ensures
        final(errors)@.len() >= old(errors)@.len(),
        final(errors)@.len() == old(errors)@.len() <==> generics_consistent(*m),
        messages(final(errors)@) == messages(old(errors)@) + generics_msgs(*m),
{
    let ghost e0 = errors@.len();
    let ghost m0 = messages(errors@);
    let g = &m.generics;
    let n = g.gp_names.len();
    check_column(errors, "generic parameter constraint starts contain ", g.gp_constraint_starts.len(), n);
    check_column(errors, "generic parameter constraint counts contain ", g.gp_constraint_counts.len(), n);
    check_column(errors, "generic parameter ordinals contain ", g.gp_nums.len(), n);
    check_column(errors, "generic parameter flags contain ", g.gp_flags.len(), n);
    let z = if g.gp_constraint_starts.len() < g.gp_constraint_counts.len() {
        g.gp_constraint_starts.len()
    } else {
        g.gp_constraint_counts.len()
    };
    let ghost e1 = errors@.len();
    let ghost m1 = messages(errors@);
    assert(m1 =~= m0 + generic_columns_msgs(*m));
    let mut i: usize = 0;
    while i < z
        invariant
            i <= z,
            z == vstd::math::min(
                m.generics.gp_constraint_starts@.len() as int,
                m.generics.gp_constraint_counts@.len() as int,
            ),
            g == &m.generics,
            errors@.len() >= e1,
            messages(errors@) == m1 + constraint_ranges_msgs(*m, i as nat),
            errors@.len() == e1 <==> forall|u: int|
                0 <= u < i ==> #[trigger] constraint_range_consistent(*m, u),
        decreases z - i,
    {
        let start = g.gp_constraint_starts[i];
        let count = g.gp_constraint_counts[i];
        let ghost before = errors@.len();
        if start < 0 || count < 0 {
            report(errors, message1("generic parameter ", i as i128, " has a negative constraint range"));
        } else {
            let end = start as usize + count as usize;
            if end > g.constraints.len() {
                report(errors, message1("generic parameter ", i as i128, " has an invalid constraint range"));
            }
        }
        assert(errors@.len() == before <==> constraint_range_consistent(*m, i as int));
        i = i + 1;
        assert(messages(errors@) =~= m1 + constraint_ranges_msgs(*m, i as nat));
    }
    let ghost e2 = errors@.len();
    let ghost m2 = messages(errors@);
    let mut i: usize = 0;
    while i < g.constraints.len()
        invariant
            i <= m.generics.constraints@.len(),
            g == &m.generics,
            errors@.len() >= e2,
            messages(errors@) == m2 + constraints_msgs(*m, i as nat),
            errors@.len() == e2 <==> forall|u: int|
                0 <= u < i ==> #[trigger] m.generics.constraints@[u] >= 0,
        decreases g.constraints.len() - i,
    {
        if g.constraints[i] < 0 {
            report(errors, message1("generic constraint ", i as i128, " has a negative type index"));
        }
        i = i + 1;
        assert(messages(errors@) =~= m2 + constraints_msgs(*m, i as nat));
    }
    let ghost e3 = errors@.len();
    let ghost m3 = messages(errors@);
    let mut i: usize = 0;
    while i < g.gp_containers.len()
        invariant
            i <= m.generics.gp_containers@.len(),
            g == &m.generics,
            errors@.len() >= e3,
            messages(errors@) == m3 + parameter_containers_msgs(*m, i as nat),
            errors@.len() == e3 <==> forall|u: int|
                0 <= u < i ==> #[trigger] parameter_in_container(*m, u),
        decreases g.gp_containers.len() - i,
    {
        let ci = g.gp_containers[i] as usize;
        let ghost before = errors@.len();
        if ci < g.containers.len() {
            let (_, parameter_count, _, parameter_start) = g.containers[ci];
            let wide = parameter_start as i64 + parameter_count as i64;
            let end: i32 = if wide > i32::MAX as i64 {
                i32::MAX
            } else if wide < i32::MIN as i64 {
                i32::MIN
            } else {
                wide as i32
            };
            assert(end == saturating_add_i32(parameter_start, parameter_count));
            if parameter_start < 0 || i < parameter_start as usize || i >= #[verifier::truncate] (end as usize) {
                report(errors, message2("generic parameter ", i as i128, " is outside container ", ci as i128, " range"));
            }
        } else {
            report(errors, message2("generic parameter ", i as i128, " references missing container ", ci as i128, ""));
        }
        assert(errors@.len() == before <==> parameter_in_container(*m, i as int));
        i = i + 1;
        assert(messages(errors@) =~= m3 + parameter_containers_msgs(*m, i as nat));
    }
    proof {
        let cr = constraint_ranges_msgs(*m, z as nat);
        let cs = constraints_msgs(*m, m.generics.constraints@.len());
        let pc = parameter_containers_msgs(*m, m.generics.gp_containers@.len());
        let cols = generic_columns_msgs(*m);
        lemma_concat_assoc(m0, cols, cr);
        lemma_concat_assoc(m0, cols + cr, cs);
        lemma_concat_assoc(m0, cols + cr + cs, pc);
    }
}


fn check_declared_sizes(errors: &mut Vec<ValidationIssue>, m: &DecodedMetadata, p: &BuildProfile)
    ensures
        final(errors)@.len() >= old(errors)@.len(),
        final(errors)@.len() == old(errors)@.len() <==> declared_sizes_consistent(*m, *p),
        messages(final(errors)@) == messages(old(errors)@) + declared_size_msgs(*m, *p),
{
    let ghost m0 = messages(errors@);
    if m.string_literals.len() != p.string_literal_count {
        report(errors, message2("decoded ", m.string_literals.len() as i128, " string literals, expected ", p.string_literal_count as i128, ""));
    }
    let mut declared_methods: u64 = 0;
    let mut declared_properties: u128 = 0;
    let mut declared_events: u128 = 0;
    let mut t: usize = 0;
    while t < m.types.len()
        invariant
            t <= m.types@.len(),
            declared_methods == declared_method_end(m.types@, t as nat),
            declared_methods <= 0x1_0001_0000,
            declared_properties == property_total(m.types@, t as nat),
            declared_properties <= t * 0xFFFF,
            declared_events == event_total(m.types@, t as nat),
            declared_events <= t * 0xFFFF,
        decreases m.types.len() - t,
    {
        let ty = &m.types[t];
        if ty.m_count > 0 {
            let end = ty.m_start as u64 + ty.m_count as u64;
            if end > declared_methods {
                declared_methods = end;
            }
        }
        declared_properties = declared_properties + ty.property_count as u128;
        declared_events = declared_events + ty.event_count as u128;
        t = t + 1;
    }
    if declared_methods != m.methods.len() as u64 {
        report(errors, message2("type method ranges cover ", declared_methods as i128, " definitions, decoded ", m.methods.len() as i128, ""));
    }
    let mut declared_parameters: u64 = 0;
    let mut k: usize = 0;
    while k < m.methods.len()
        invariant
            k <= m.methods@.len(),
            declared_parameters == declared_parameter_end(m.methods@, k as nat),
            declared_parameters <= 0x8001_0000,
        decreases m.methods.len() - k,
    {
        let method = &m.methods[k];
        if method.parameter_start >= 0 {
            let end = method.parameter_start as u64 + method.parameter_count as u64;
            if end > declared_parameters {
                declared_parameters = end;
            }
        }
        k = k + 1;
    }
    if declared_parameters != m.parameters.len() as u64 {
        report(errors, message2("method parameter ranges cover ", declared_parameters as i128, " definitions, decoded ", m.parameters.len() as i128, ""));
    }
    if declared_properties != m.properties.len() as u128 {
        report(errors, message2("type property ranges cover ", declared_properties as i128, " definitions, decoded ", m.properties.len() as i128, ""));
    }
    if declared_events != m.events.len() as u128 {
        report(errors, message2("type event ranges cover ", declared_events as i128, " definitions, decoded ", m.events.len() as i128, ""));
    }
    assert(messages(errors@) =~= m0 + declared_size_msgs(*m, *p));
}

fn validate_member_range(
    errors: &mut Vec<ValidationIssue>,
    kind: &str,
    type_index: usize,
    start: i32,
    count: u16,
    total: usize,
)
    ensures
        final(errors)@.len() >= old(errors)@.len(),
        final(errors)@.len() == old(errors)@.len() <==> member_range_ok(start, count, total as nat),
        messages(final(errors)@) == messages(old(errors)@) + member_range_msgs(kind@, type_index as int, start, count, total as nat),
        final(errors)@.subrange(0, old(errors)@.len() as int) == old(errors)@,
{
    let ghost m0 = messages(errors@);
    let ghost e0 = errors@;
    if count == 0 {
        if start != -1 {
            report(errors, message_kind("type ", type_index as i128, " has a nonempty ", kind, " start with zero count"));
        }
    } else if start < 0 {
        report(errors, message_kind("type ", type_index as i128, " has a negative ", kind, " start"));
    } else if start as usize + count as usize > total {
        report(errors, message_kind("type ", type_index as i128, " has an invalid ", kind, " range"));
    }
    assert(errors@.subrange(0, e0.len() as int) =~= e0);
    assert(messages(errors@) =~= m0 + member_range_msgs(kind@, type_index as int, start, count, total as nat));
}

fn check_accessor(
    errors: &mut Vec<ValidationIssue>,
    prefix: &str,
    local_index: usize,
    type_index: usize,
    problem: &str,
    accessor: i32,
    method_count: u16,
)
    ensures
        final(errors)@.len() >= old(errors)@.len(),
        final(errors)@.len() == old(errors)@.len() <==> accessor_ok(accessor, method_count),
        messages(final(errors)@) == messages(old(errors)@) + accessor_msgs(prefix@, local_index as int, type_index as int, problem@, accessor, method_count),
{
    let ghost m0 = messages(errors@);
    if accessor < -1 || accessor >= method_count as i32 {
        report(errors, message2(prefix, local_index as i128, " on type ", type_index as i128, problem));
    }
    assert(messages(errors@) =~= m0 + accessor_msgs(prefix@, local_index as int, type_index as int, problem@, accessor, method_count));
}

fn check_property(errors: &mut Vec<ValidationIssue>, property: &PropertyDef, local_index: usize, type_index: usize, method_count: u16)
    ensures
        final(errors)@.len() >= old(errors)@.len(),
        final(errors)@.len() == old(errors)@.len() <==> (property.name@.len() != 0 && accessor_ok(property.get, method_count) && accessor_ok(property.set, method_count)),
        messages(final(errors)@) == messages(old(errors)@) + property_msgs(*property, local_index as int, type_index as int, method_count),
{
    let ghost m0 = messages(errors@);
    if property.name.as_str().is_empty() {
        report(errors, message2("property ", local_index as i128, " on type ", type_index as i128, " has an empty name"));
    }
    check_accessor(errors, "property ", local_index, type_index, " has an invalid getter", property.get, method_count);
    check_accessor(errors, "property ", local_index, type_index, " has an invalid setter", property.set, method_count);
    assert(messages(errors@) =~= m0 + property_msgs(*property, local_index as int, type_index as int, method_count));
}

fn check_event(errors: &mut Vec<ValidationIssue>, event: &EventDef, local_index: usize, type_index: usize, method_count: u16)
    ensures
        final(errors)@.len() >= old(errors)@.len(),
        final(errors)@.len() == old(errors)@.len() <==> (event.name@.len() != 0 && event.type_index >= 0 && accessor_ok(event.add, method_count) && accessor_ok(event.remove, method_count) && accessor_ok(event.raise, method_count)),
        messages(final(errors)@) == messages(old(errors)@) + event_msgs(*event, local_index as int, type_index as int, method_count),
{
    let ghost m0 = messages(errors@);
    if event.name.as_str().is_empty() {
        report(errors, message2("event ", local_index as i128, " on type ", type_index as i128, " has an empty name"));
    }
    if event.type_index < 0 {
        report(errors, message2("event ", local_index as i128, " on type ", type_index as i128, " has a negative type index"));
    }
    check_accessor(errors, "event ", local_index, type_index, " has an invalid add method", event.add, method_count);
    check_accessor(errors, "event ", local_index, type_index, " has an invalid remove method", event.remove, method_count);
    check_accessor(errors, "event ", local_index, type_index, " has an invalid raise method", event.raise, method_count);
    assert(messages(errors@) =~= m0 + event_msgs(*event, local_index as int, type_index as int, method_count));
}

fn check_type_members(errors: &mut Vec<ValidationIssue>, m: &DecodedMetadata)
    ensures
        final(errors)@.len() >= old(errors)@.len(),
        final(errors)@.len() == old(errors)@.len() <==> forall|t: int|
            0 <= t < m.types@.len() ==> #[trigger] type_members_consistent(*m, t),
        messages(final(errors)@) == messages(old(errors)@) + types_members_msgs(*m, m.types@.len()),
{
    let ghost e0 = errors@.len();
    let ghost m0 = messages(errors@);
    let mut t: usize = 0;
    while t < m.types.len()
        invariant
            t <= m.types@.len(),
            errors@.len() >= e0,
            messages(errors@) == m0 + types_members_msgs(*m, t as nat),
            errors@.len() == e0 <==> forall|u: int|
                0 <= u < t ==> #[trigger] type_members_consistent(*m, u),
        decreases m.types.len() - t,
    {
        let ghost before = errors@.len();
        check_members_of(errors, m, t);
        assert(errors@.len() == e0 <==> (before == e0 && errors@.len() == before));
        assert((forall|u: int| 0 <= u < t + 1 ==> #[trigger] type_members_consistent(*m, u)) <==> ((forall|u: int| 0 <= u < t ==> #[trigger] type_members_consistent(*m, u)) && type_members_consistent(*m, t as int)));
        t = t + 1;
        assert(messages(errors@) =~= m0 + types_members_msgs(*m, t as nat));
    }
}

fn check_members_of(errors: &mut Vec<ValidationIssue>, m: &DecodedMetadata, t: usize)
    requires
        t < m.types@.len(),
    ensures
        final(errors)@.len() >= old(errors)@.len(),
        final(errors)@.len() == old(errors)@.len() <==> type_members_consistent(*m, t as int),
        messages(final(errors)@) == messages(old(errors)@) + members_msgs(*m, t as int),
{
    let ghost e0 = errors@.len();
    let ghost m0 = messages(errors@);
    let value = &m.types[t];
    validate_member_range(errors, "property", t, value.property_start, value.property_count, m.properties.len());
    validate_member_range(errors, "event", t, value.event_start, value.event_count, m.events.len());
    validate_member_range(errors, "interface", t, value.if_start, value.if_count, m.interfaces.len());
    validate_member_range(errors, "vtable", t, value.vtable_start, value.vtable_count, m.vtable_methods.len());
    validate_member_range(errors, "interface offset", t, value.interface_offset_start, value.interface_offset_count, m.interface_offsets.len());
    let ghost e1 = errors@.len();
    let ghost m1 = messages(errors@);
    assert(m1 =~= m0 + member_ranges_msgs(*m, t as int));
    if value.property_count > 0 {
        if value.property_start < 0 || value.property_start as usize + value.property_count as usize > m.properties.len() {
            return ;
        }
        let start = value.property_start as usize;
        let mut k: usize = 0;
        while k < value.property_count as usize
            invariant
                t < m.types@.len(),
                value == &m.types@[t as int],
                start == value.property_start,
                start + value.property_count <= m.properties@.len(),
                k <= value.property_count,
                errors@.len() >= e1,
                messages(errors@) == m1 + type_properties_msgs(*m, t as int, k as nat),
                errors@.len() == e1 <==> forall|j: int|
                    start <= j < start + k ==> #[trigger] property_ok(m.properties@, j, value.m_count),
            decreases value.property_count as usize - k,
        {
            let ghost before = errors@.len();
            check_property(errors, &m.properties[start + k], k, t, value.m_count);
            assert(errors@.len() == before <==> property_ok(m.properties@, start + k, value.m_count));
            k = k + 1;
            assert(messages(errors@) =~= m1 + type_properties_msgs(*m, t as int, k as nat));
        }
    }
    let ghost e2 = errors@.len();
    let ghost m2 = messages(errors@);
    let ghost props = if value.property_count > 0 {
        type_properties_msgs(*m, t as int, value.property_count as nat)
    } else {
        Seq::empty()
    };
    assert(m2 =~= m1 + props);
    if value.event_count > 0 {
        if value.event_start < 0 || value.event_start as usize + value.event_count as usize > m.events.len() {
            proof {
                lemma_concat_assoc(m0, member_ranges_msgs(*m, t as int), props);
            }
            return ;
        }
        let start = value.event_start as usize;
        let mut k: usize = 0;
        while k < value.event_count as usize
            invariant
                t < m.types@.len(),
                value == &m.types@[t as int],
                start == value.event_start,
                start + value.event_count <= m.events@.len(),
                k <= value.event_count,
                errors@.len() >= e2,
                messages(errors@) == m2 + type_events_msgs(*m, t as int, k as nat),
                errors@.len() == e2 <==> forall|j: int|
                    start <= j < start + k ==> #[trigger] event_ok(m.events@, j, value.m_count),
            decreases value.event_count as usize - k,
        {
            let ghost before = errors@.len();
            check_event(errors, &m.events[start + k], k, t, value.m_count);
            assert(errors@.len() == before <==> event_ok(m.events@, start + k, value.m_count));
            k = k + 1;
            assert(messages(errors@) =~= m2 + type_events_msgs(*m, t as int, k as nat));
        }
    }
    proof {
        lemma_concat_assoc(m0, member_ranges_msgs(*m, t as int), props);
        if value.event_count > 0 {
            lemma_concat_assoc(m0, member_ranges_msgs(*m, t as int) + props, type_events_msgs(*m, t as int, value.event_count as nat));
        }
    }
}


fn check_tables(errors: &mut Vec<ValidationIssue>, m: &DecodedMetadata)
    ensures
        final(errors)@.len() >= old(errors)@.len(),
        final(errors)@.len() == old(errors)@.len() <==> tables_consistent(*m),
        messages(final(errors)@) == messages(old(errors)@) + tables_msgs(*m),
{
    let ghost e0 = errors@.len();
    let ghost m0 = messages(errors@);
    let mut i: usize = 0;
    while i < m.interfaces.len()
        invariant
            i <= m.interfaces@.len(),
            errors@.len() >= e0,
            messages(errors@) == m0 + interfaces_msgs(*m, i as nat),
            errors@.len() == e0 <==> forall|u: int| 0 <= u < i ==> #[trigger] m.interfaces@[u] >= 0,
        decreases m.interfaces.len() - i,
    {
        if m.interfaces[i] < 0 {
            report(errors, message1("interface entry ", i as i128, " has a negative type index"));
        }
        i = i + 1;
        assert(messages(errors@) =~= m0 + interfaces_msgs(*m, i as nat));
    }
    let ghost e1 = errors@.len();
    let ghost m1 = messages(errors@);
    let mut i: usize = 0;
    while i < m.interface_offsets.len()
        invariant
            i <= m.interface_offsets@.len(),
            errors@.len() >= e1,
            messages(errors@) == m1 + interface_offsets_msgs(*m, i as nat),
            errors@.len() == e1 <==> forall|u: int|
                0 <= u < i ==> (#[trigger] m.interface_offsets@[u]).type_index >= 0
                    && m.interface_offsets@[u].offset >= 0,
        decreases m.interface_offsets.len() - i,
    {
        let value = &m.interface_offsets[i];
        if value.type_index < 0 {
            report(errors, message1("interface offset ", i as i128, " has a negative type index"));
        }
        if value.offset < 0 {
            report(errors, message1("interface offset ", i as i128, " has a negative slot offset"));
        }
        i = i + 1;
        assert(messages(errors@) =~= m1 + interface_offsets_msgs(*m, i as nat));
    }
    let ghost e2 = errors@.len();
    let ghost m2 = messages(errors@);
    let mut i: usize = 0;
    while i < m.vtable_methods.len()
        invariant
            i <= m.vtable_methods@.len(),
            errors@.len() >= e2,
            messages(errors@) == m2 + vtables_msgs(*m, i as nat),
            errors@.len() == e2 <==> forall|u: int|
                0 <= u < i ==> #[trigger] vtable_entry_ok(m.vtable_methods@[u], m.methods@.len()),
        decreases m.vtable_methods.len() - i,
    {
        let encoded_method = m.vtable_methods[i];
        let ghost before = errors@.len();
        let usage = encoded_method >> 29u32;
        let method_index = (encoded_method & 0x1FFF_FFFF) as usize;
        if !(usage == 0 || usage == 3 || usage == 6) {
            report(errors, message2("vtable entry ", i as i128, " has unsupported usage kind ", usage as i128, ""));
        } else if usage != 6 && method_index >= m.methods.len() {
            report(errors, message1("vtable entry ", i as i128, " has an invalid method index"));
        }
        assert(errors@.len() == before <==> vtable_entry_ok(encoded_method, m.methods@.len()));
        i = i + 1;
        assert(messages(errors@) =~= m2 + vtables_msgs(*m, i as nat));
    }
    proof {
        lemma_concat_assoc(m0, interfaces_msgs(*m, m.interfaces@.len()), interface_offsets_msgs(*m, m.interface_offsets@.len()));
        lemma_concat_assoc(
            m0,
            interfaces_msgs(*m, m.interfaces@.len()) + interface_offsets_msgs(*m, m.interface_offsets@.len()),
            vtables_msgs(*m, m.vtable_methods@.len()),
        );
    }
}


fn check_defaults(errors: &mut Vec<ValidationIssue>, m: &DecodedMetadata)
    ensures
        final(errors)@.len() >= old(errors)@.len(),
        final(errors)@.len() == old(errors)@.len() <==> defaults_consistent(*m),
        messages(final(errors)@) == messages(old(errors)@) + defaults_msgs(*m),
{
    let ghost e0 = errors@.len();
    let ghost m0 = messages(errors@);
    let mut i: usize = 0;
    while i < m.field_defaults.len()
        invariant
            i <= m.field_defaults@.len(),
            errors@.len() >= e0,
            messages(errors@) == m0 + field_defaults_msgs(*m, i as nat),
            errors@.len() == e0 <==> forall|u: int|
                0 <= u < i ==> {
                    let d = #[trigger] m.field_defaults@[u];
                    &&& 0 <= d.field_index < m.fields@.len()
                    &&& d.type_index >= 0
                    &&& 0 <= d.data_index < m.default_value_data@.len()
                },
        decreases m.field_defaults.len() - i,
    {
        let value = &m.field_defaults[i];
        if value.field_index < 0 || value.field_index as usize >= m.fields.len() {
            report(errors, message1("field default ", i as i128, " has an invalid field index"));
        }
        if value.type_index < 0 {
            report(errors, message1("field default ", i as i128, " has a negative type index"));
        }
        if value.data_index < 0 || value.data_index as usize >= m.default_value_data.len() {
            report(errors, message1("field default ", i as i128, " has an invalid data index"));
        }
        i = i + 1;
        assert(messages(errors@) =~= m0 + field_defaults_msgs(*m, i as nat));
    }
    if m.field_defaults.len() != m.expected_field_default_count {
        report(errors, message2("decoded ", m.field_defaults.len() as i128, " field defaults, expected ", m.expected_field_default_count as i128, ""));
    }
    let ghost e1 = errors@.len();
    let ghost m1 = messages(errors@);
    let ghost a = field_defaults_msgs(*m, m.field_defaults@.len());
    let ghost b1 = opt(m.field_defaults@.len() != m.expected_field_default_count, msg2("decoded "@, m.field_defaults@.len() as int, " field defaults, expected "@, m.expected_field_default_count as int, ""@));
    assert(m1 =~= m0 + a + b1);
    let mut i: usize = 0;
    while i < m.parameter_defaults.len()
        invariant
            i <= m.parameter_defaults@.len(),
            errors@.len() >= e1,
            messages(errors@) == m1 + parameter_defaults_msgs(*m, i as nat),
            errors@.len() == e1 <==> forall|u: int|
                0 <= u < i ==> {
                    let d = #[trigger] m.parameter_defaults@[u];
                    &&& 0 <= d.parameter_index < m.parameters@.len()
                    &&& d.type_index >= 0
                    &&& -1 <= d.data_index
                    &&& (d.data_index >= 0 ==> d.data_index < m.default_value_data@.len())
                },
        decreases m.parameter_defaults.len() - i,
    {
        let value = &m.parameter_defaults[i];
        if value.parameter_index < 0 || value.parameter_index as usize >= m.parameters.len() {
            report(errors, message1("parameter default ", i as i128, " has an invalid parameter index"));
        }
        if value.type_index < 0 {
            report(errors, message1("parameter default ", i as i128, " has a negative type index"));
        }
        if value.data_index < -1 || value.data_index >= 0 && value.data_index as usize >= m.default_value_data.len() {
            report(errors, message1("parameter default ", i as i128, " has an invalid data index"));
        }
        i = i + 1;
        assert(messages(errors@) =~= m1 + parameter_defaults_msgs(*m, i as nat));
    }
    if m.parameter_defaults.len() != m.expected_parameter_default_count {
        report(errors, message2("decoded ", m.parameter_defaults.len() as i128, " parameter defaults, expected ", m.expected_parameter_default_count as i128, ""));
    }
    proof {
        let c = parameter_defaults_msgs(*m, m.parameter_defaults@.len());
        let d = opt(m.parameter_defaults@.len() != m.expected_parameter_default_count, msg2("decoded "@, m.parameter_defaults@.len() as int, " parameter defaults, expected "@, m.expected_parameter_default_count as int, ""@));
        assert(messages(errors@) =~= m0 + a + b1 + c + d);
        lemma_concat_assoc(m0, a, b1);
        lemma_concat_assoc(m0, a + b1, c);
        lemma_concat_assoc(m0, a + b1 + c, d);
    }
}


/// Whether no child occurs twice among `entries`.
pub open spec fn children_distinct(entries: Seq<(int, int)>) -> bool {
    forall|i: int, j: int|
        0 <= i < j < entries.len() ==> (#[trigger] entries[i]).1 != (#[trigger] entries[j]).1
}

/// Whether every entry lists a child that its parent declares.
pub open spec fn children_declared(types: Seq<TypeDef>, entries: Seq<(int, int)>) -> bool {
    forall|i: int| 0 <= i < entries.len() ==> #[trigger] nested_child_ok(types, entries[i])
}

/// Whether `c` is the child of one of `entries`.
pub open spec fn listed(entries: Seq<(int, int)>, c: int) -> bool {
    exists|i: int| 0 <= i < entries.len() && #[trigger] entries[i].1 == c
}

proof fn lemma_push_entry(types: Seq<TypeDef>, s: Seq<(int, int)>, e: (int, int))
    ensures
        children_declared(types, s.push(e)) <==> children_declared(types, s) && nested_child_ok(
            types,
            e,
        ),
        children_distinct(s.push(e)) <==> children_distinct(s) && !listed(s, e.1),
        forall|c: int| listed(s.push(e), c) <==> listed(s, c) || c == e.1,
{
    let t = s.push(e);
    if children_declared(types, s) && nested_child_ok(types, e) {
        assert forall|i: int| 0 <= i < t.len() implies #[trigger] nested_child_ok(types, t[i]) by {
            if i < s.len() {
                assert(t[i] == s[i]);
            }
        }
    }
    if children_declared(types, t) {
        assert(nested_child_ok(types, t[s.len() as int]));
        assert forall|i: int| 0 <= i < s.len() implies #[trigger] nested_child_ok(types, s[i]) by {
            assert(t[i] == s[i]);
            assert(nested_child_ok(types, t[i]));
        }
    }
    if children_distinct(t) {
        assert forall|i: int, j: int| 0 <= i < j < s.len() implies (#[trigger] s[i]).1 != (
        #[trigger] s[j]).1 by {
            assert(t[i] == s[i] && t[j] == s[j]);
        }
        if listed(s, e.1) {
            let i = choose|i: int| 0 <= i < s.len() && #[trigger] s[i].1 == e.1;
            assert(t[i] == s[i]);
            assert(t[s.len() as int] == e);
        }
    }
    if children_distinct(s) && !listed(s, e.1) {
        assert forall|i: int, j: int| 0 <= i < j < t.len() implies (#[trigger] t[i]).1 != (
        #[trigger] t[j]).1 by {
            assert(t[i] == s[i]);
            if j < s.len() {
                assert(t[j] == s[j]);
            } else {
                assert(s[i].1 != e.1);
            }
        }
    }
    assert forall|c: int| listed(t, c) <==> listed(s, c) || c == e.1 by {
        if listed(t, c) {
            let i = choose|i: int| 0 <= i < t.len() && #[trigger] t[i].1 == c;
            if i < s.len() {
                assert(t[i] == s[i]);
            }
        }
        if listed(s, c) {
            let i = choose|i: int| 0 <= i < s.len() && #[trigger] s[i].1 == c;
            assert(t[i] == s[i]);
        }
        if c == e.1 {
            assert(t[s.len() as int].1 == c);
        }
    }
}

fn byval_map(types: &Vec<TypeDef>) -> (r: HashMap<i32, usize>)
    ensures
        r@ == byval_owners(types@, types@.len()),
{
    broadcast use vstd::std_specs::hash::group_hash_axioms;

    let mut owners: HashMap<i32, usize> = HashMap::new();
    let mut i: usize = 0;
    while i < types.len()
        invariant
            i <= types@.len(),
            owners@ == byval_owners(types@, i as nat),
        decreases types.len() - i,
    {
        owners.insert(types[i].byval_type_index, i);
        i = i + 1;
    }
    owners
}

fn check_nesting(errors: &mut Vec<ValidationIssue>, m: &DecodedMetadata)
    ensures
        final(errors)@.len() >= old(errors)@.len(),
        final(errors)@.len() == old(errors)@.len() <==> nesting_consistent(*m),
        messages(final(errors)@) == messages(old(errors)@) + nesting_msgs(*m),
{
    broadcast use vstd::std_specs::hash::group_hash_axioms;

    let ghost e0 = errors@.len();
    let ghost m0 = messages(errors@);
    let types = &m.types;
    let nested = &m.nested_types;
    let n = types.len();
    let mut declared_nested: u128 = 0;
    let mut t: usize = 0;
    while t < n
        invariant
            n == types@.len(),
            types == &m.types,
            t <= n,
            declared_nested == nested_total(types@, t as nat),
            declared_nested <= t * 0xFFFF,
        decreases n - t,
    {
        declared_nested = declared_nested + types[t].nested_count as u128;
        t = t + 1;
    }
    if declared_nested != nested.len() as u128 {
        report(errors, message2("nested type ranges cover ", declared_nested as i128, " entries, emitted ", nested.len() as i128, ""));
    }
    let byval_to_definition = byval_map(types);
    let mut nested_seen: Vec<bool> = Vec::new();
    let mut i: usize = 0;
    while i < n
        invariant
            n == types@.len(),
            i <= n,
            nested_seen@.len() == i,
            forall|c: int| 0 <= c < i ==> !#[trigger] nested_seen@[c],
        decreases n - i,
    {
        nested_seen.push(false);
        i = i + 1;
    }
    let ghost e1 = errors@.len();
    let ghost m1 = messages(errors@);
    let ghost head = opt(
        nested_total(m.types@, m.types@.len()) != m.nested_types@.len(),
        msg2("nested type ranges cover "@, nested_total(m.types@, m.types@.len()), " entries, emitted "@, m.nested_types@.len() as int, ""@),
    );
    assert(m1 =~= m0 + head);
    let ghost entries: Seq<(int, int)> = Seq::empty();
    let mut parent: usize = 0;
    while parent < n
        invariant
            n == types@.len(),
            types == &m.types,
            nested == &m.nested_types,
            byval_to_definition@ == byval_owners(types@, types@.len()),
            parent <= n,
            entries == nested_entries(types@, nested@, parent as nat),
            nested_seen@.len() == n,
            forall|c: int| 0 <= c < n ==> #[trigger] nested_seen@[c] == listed(entries, c),
            errors@.len() >= e1,
            messages(errors@) == m1 + parents_msgs(*m, parent as nat),
            errors@.len() == e1 <==> (forall|q: int|
                0 <= q < parent ==> #[trigger] nested_range_ok(types@[q], nested@.len()))
                && children_declared(types@, entries) && children_distinct(entries),
        decreases n - parent,
    {
        let value = &types[parent];
        let ghost before = errors@.len();
        let ghost mp = messages(errors@);
        let ghost ranges_before = forall|q: int|
            0 <= q < parent ==> #[trigger] nested_range_ok(types@[q], nested@.len());
        if value.nested_count == 0 {
            assert(nested_range_ok(types@[parent as int], nested@.len()));
        } else if value.nested_start < 0 {
            report(errors, message1("type ", parent as i128, " has a negative nested type start"));
        } else if value.nested_start as usize + value.nested_count as usize > nested.len() {
            report(errors, message1("type ", parent as i128, " has an invalid nested type range"));
        } else {
            let start = value.nested_start as usize;
            let count = value.nested_count as usize;
            let ghost block = Seq::new(
                count as nat,
                |k: int| (parent as int, nested@[start + k] as int),
            );
            let ghost outer = entries;
            assert(block =~= nested_block(*m, parent as int));
            assert(outer + block.subrange(0, 0) == outer);
            let mut k: usize = 0;
            while k < count
                invariant
                    n == types@.len(),
                    types == &m.types,
                    nested == &m.nested_types,
                    byval_to_definition@ == byval_owners(types@, types@.len()),
                    parent < n,
                    start + count <= nested@.len(),
                    nested@.len() == nested.len(),
                    block == Seq::new(
                        count as nat,
                        |k: int| (parent as int, nested@[start + k] as int),
                    ),
                    k <= count,
                    entries == outer + block.subrange(0, k as int),
                    nested_seen@.len() == n,
                    forall|c: int| 0 <= c < n ==> #[trigger] nested_seen@[c] == listed(entries, c),
                    errors@.len() >= e1,
                    outer == nested_entries(types@, nested@, parent as nat),
                    block == nested_block(*m, parent as int),
                    messages(errors@) == mp + block_msgs(*m, parent as int, k as nat),
                    errors@.len() == e1 <==> ranges_before && children_declared(types@, entries)
                        && children_distinct(entries),
                decreases count - k,
            {
                assert(start + k < nested@.len());
                let child = nested[start + k];
                let ghost e = (parent as int, child as int);
                let ghost prev = entries;
                let ghost mk = messages(errors@);
                assert(prev == outer + nested_block(*m, parent as int).subrange(0, k as int));
                proof {
                    lemma_push_entry(types@, prev, e);
                    assert(block.subrange(0, k + 1) == block.subrange(0, k as int).push(e));
                    entries = prev.push(e);
                }
                if child < 0 {
                    report(errors, message1("type ", parent as i128, " has a negative nested child index"));
                } else {
                    let c = child as usize;
                    if c >= n {
                        report(errors, message2("type ", parent as i128, " has an out-of-range nested child ", c as i128, ""));
                    } else {
                        let declaring = types[c].declaring_type_index;
                        let declares = match byval_to_definition.get(&declaring) {
                            Some(owner) => *owner == parent,
                            None => false,
                        };
                        if !declares {
                            report(errors, message2("nested child ", c as i128, " does not declare type ", parent as i128, ""));
                        }
                        if nested_seen[c] {
                            report(errors, message1("nested child ", c as i128, " is emitted more than once"));
                        }
                        nested_seen.set(c, true);
                    }
                }
                assert(messages(errors@) =~= mk + child_msgs(types@, parent as int, child as int, prev));
                k = k + 1;
                assert(nested_block(*m, parent as int)[k - 1].1 == child as int);
                assert(messages(errors@) =~= mp + block_msgs(*m, parent as int, k as nat));
            }
            assert(block.subrange(0, count as int) == block);
            assert(nested_range_ok(types@[parent as int], nested@.len()));
            assert(entries == nested_entries(types@, nested@, (parent + 1) as nat));
        }
        assert((forall|q: int| 0 <= q < parent + 1 ==> #[trigger] nested_range_ok(types@[q], nested@.len())) <==> ranges_before && nested_range_ok(types@[parent as int], nested@.len()));
        assert(messages(errors@) =~= mp + parent_msgs(*m, parent as int));
        parent = parent + 1;
        assert(messages(errors@) =~= m1 + parents_msgs(*m, parent as nat));
    }
    let ghost e2 = errors@.len();
    let ghost m2 = messages(errors@);
    let mut t: usize = 0;
    while t < n
        invariant
            n == types@.len(),
            types == &m.types,
            t <= n,
            entries == nested_entries(types@, nested@, n as nat),
            nested_seen@.len() == n,
            forall|c: int| 0 <= c < n ==> #[trigger] nested_seen@[c] == listed(entries, c),
            errors@.len() >= e2,
            messages(errors@) == m2 + absent_msgs(*m, t as nat),
            nested == &m.nested_types,
            errors@.len() == e2 <==> forall|u: int|
                0 <= u < t && (#[trigger] types@[u]).declaring_type_index >= 0 ==> listed(entries, u),
        decreases n - t,
    {
        assert(nested_seen@[t as int] == listed(entries, t as int));
        if types[t].declaring_type_index >= 0 && !nested_seen[t] {
            report(errors, message1("nested type ", t as i128, " is absent from its declaring type range"));
        }
        t = t + 1;
        assert(messages(errors@) =~= m2 + absent_msgs(*m, t as nat));
    }
    proof {
        lemma_concat_assoc(m0, head, parents_msgs(*m, n as nat));
        lemma_concat_assoc(m0, head + parents_msgs(*m, n as nat), absent_msgs(*m, n as nat));
    }
}

// ---------------------------------------------------------------------------------------------
// Rebuilt nested-type lists pass the nesting checks.

proof fn lemma_children_listed(types: Seq<TypeDef>, p: int, k: nat)
    requires
        k <= types.len() <= i32::MAX,
    ensures
        ({
            let ch = nested_children(types, p, k);
            &&& forall|i: int|
                0 <= i < ch.len() ==> 0 <= #[trigger] ch[i] < k && declaring_parent(types, ch[i] as int) == Some(p)
            &&& forall|i: int, j: int| 0 <= i < j < ch.len() ==> #[trigger] ch[i] < #[trigger] ch[j]
            &&& forall|c: int|
                0 <= c < k && declaring_parent(types, c) == Some(p) ==> exists|i: int|
                    0 <= i < ch.len() && #[trigger] ch[i] == c
        }),
    decreases k,
{
    if k > 0 {
        lemma_children_listed(types, p, (k - 1) as nat);
        let earlier = nested_children(types, p, (k - 1) as nat);
        let ch = nested_children(types, p, k);
        if declaring_parent(types, k - 1) == Some(p) {
            assert(ch == earlier.push((k - 1) as i32));
            assert forall|c: int| 0 <= c < k && declaring_parent(types, c) == Some(p) implies exists|i: int|
                0 <= i < ch.len() && #[trigger] ch[i] == c by {
                if c < k - 1 {
                    let i = choose|i: int| 0 <= i < earlier.len() && #[trigger] earlier[i] == c;
                    assert(ch[i] == c);
                } else {
                    assert(ch[earlier.len() as int] == c);
                }
            }
        } else {
            assert forall|c: int| 0 <= c < k && declaring_parent(types, c) == Some(p) implies exists|i: int|
                0 <= i < ch.len() && #[trigger] ch[i] == c by {
                assert(c != k - 1);
            }
        }
    }
}

proof fn lemma_list_prefix(types: Seq<TypeDef>, a: nat, b: nat)
    requires
        a <= b,
    ensures
        nested_list(types, a).len() <= nested_list(types, b).len(),
        nested_list(types, b).subrange(0, nested_list(types, a).len() as int) == nested_list(types, a),
    decreases b,
{
    if a < b {
        lemma_list_prefix(types, a, (b - 1) as nat);
        let x = nested_list(types, a);
        let y = nested_list(types, (b - 1) as nat);
        let z = nested_list(types, b);
        assert(z == y + nested_children(types, b - 1, types.len()));
        assert(z.subrange(0, x.len() as int) =~= y.subrange(0, x.len() as int));
    } else {
        assert(nested_list(types, b).subrange(0, nested_list(types, a).len() as int) =~= nested_list(types, a));
    }
}

proof fn lemma_owners_last(types: Seq<TypeDef>, key: i32, m: nat)
    requires
        m <= types.len() <= i32::MAX,
    ensures
        last_with_byval(types, key, m) matches Some(q) ==> byval_owners(types, m).contains_key(key)
            && byval_owners(types, m)[key] == q,
        (exists|j: int| 0 <= j < m && #[trigger] types[j].byval_type_index == key) ==> last_with_byval(types, key, m) is Some,
    decreases m,
{
    if m > 0 {
        lemma_owners_last(types, key, (m - 1) as nat);
        let before = byval_owners(types, (m - 1) as nat);
        let after = byval_owners(types, m);
        assert(after == before.insert(types[m - 1].byval_type_index, (m - 1) as usize));
        if types[m - 1].byval_type_index == key {
            assert(after.contains_key(key) && after[key] == (m - 1) as usize);
        } else {
            assert(last_with_byval(types, key, m) == last_with_byval(types, key, (m - 1) as nat));
            if before.contains_key(key) {
                assert(after.contains_key(key) && after[key] == before[key]);
            }
        }
        if types[m - 1].byval_type_index != key && exists|j: int| 0 <= j < m && #[trigger] types[j].byval_type_index == key {
            let j = choose|j: int| 0 <= j < m && #[trigger] types[j].byval_type_index == key;
            assert(0 <= j < m - 1 && types[j].byval_type_index == key);
        }
    }
}


proof fn lemma_total_is_list_len(types: Seq<TypeDef>, k: nat)
    requires
        k <= types.len(),
        nesting_rebuilt(types),
        forall|p: int| 0 <= p < types.len() ==> #[trigger] nested_children(types, p, types.len()).len() <= 0xFFFF,
    ensures
        nested_total(types, k) == nested_list(types, k).len(),
    decreases k,
{
    if k > 0 {
        lemma_total_is_list_len(types, (k - 1) as nat);
        assert(nested_children(types, k - 1, types.len()).len() <= 0xFFFF);
        assert(types[k - 1].nested_count == nested_children(types, k - 1, types.len()).len());
    }
}

/// Where the children of `p` stand in the whole nested-type list, and that its range fits.
proof fn lemma_block_in_list(types: Seq<TypeDef>, p: int)
    requires
        0 <= p < types.len(),
        nesting_rebuilt(types),
        nested_list(types, types.len()).len() <= i32::MAX,
        forall|q: int| 0 <= q < types.len() ==> #[trigger] nested_children(types, q, types.len()).len() <= 0xFFFF,
    ensures
        ({
            let children = nested_children(types, p, types.len());
            let all = nested_list(types, types.len());
            let t = types[p];
            &&& t.nested_count == children.len()
            &&& children.len() > 0 ==> t.nested_start == nested_list(types, p as nat).len()
                && t.nested_start + t.nested_count <= all.len()
                && forall|k: int| 0 <= k < children.len() ==> #[trigger] all[t.nested_start + k] == children[k]
        }),
{
    let children = nested_children(types, p, types.len());
    let all = nested_list(types, types.len());
    assert(children.len() <= 0xFFFF);
    if children.len() > 0 {
        lemma_list_prefix(types, p as nat, types.len());
        lemma_list_prefix(types, (p + 1) as nat, types.len());
        let before = nested_list(types, p as nat);
        let upto = nested_list(types, (p + 1) as nat);
        assert(upto == before + children);
        assert forall|k: int| 0 <= k < children.len() implies #[trigger] all[types[p].nested_start + k] == children[k] by {
            assert(all.subrange(0, upto.len() as int)[before.len() + k] == upto[before.len() + k]);
        }
    }
}

proof fn lemma_entries_are_children(types: Seq<TypeDef>, nested: Seq<i32>, p: nat)
    requires
        p <= types.len() <= i32::MAX,
        nested == nested_list(types, types.len()),
        nesting_rebuilt(types),
        nested_list(types, types.len()).len() <= i32::MAX,
        forall|q: int| 0 <= q < types.len() ==> #[trigger] nested_children(types, q, types.len()).len() <= 0xFFFF,
    ensures
        ({
            let entries = nested_entries(types, nested, p);
            &&& forall|i: int|
                0 <= i < entries.len() ==> 0 <= (#[trigger] entries[i]).0 < p && 0 <= entries[i].1 < types.len()
                    && declaring_parent(types, entries[i].1) == Some(entries[i].0)
            &&& forall|q: int, k: int|
                0 <= q < p && 0 <= k < nested_children(types, q, types.len()).len() ==> listed(
                    entries,
                    #[trigger] nested_children(types, q, types.len())[k] as int,
                )
        }),
    decreases p,
{
    if p > 0 {
        let q = p - 1;
        lemma_entries_are_children(types, nested, (p - 1) as nat);
        lemma_block_in_list(types, q);
        lemma_children_listed(types, q, types.len());
        let earlier = nested_entries(types, nested, (p - 1) as nat);
        let entries = nested_entries(types, nested, p);
        let children = nested_children(types, q, types.len());
        let t = types[q];
        if t.nested_count > 0 {
            let block = Seq::new(t.nested_count as nat, |k: int| (q, nested[t.nested_start + k] as int));
            assert(entries == earlier + block);
            assert forall|i: int| 0 <= i < entries.len() implies 0 <= (#[trigger] entries[i]).0 < p && 0 <= entries[i].1 < types.len()
                && declaring_parent(types, entries[i].1) == Some(entries[i].0) by {
                if i < earlier.len() {
                    assert(entries[i] == earlier[i]);
                } else {
                    let k = i - earlier.len();
                    assert(entries[i] == block[k]);
                    assert(nested[t.nested_start + k] == children[k]);
                }
            }
            assert forall|r: int, k: int|
                0 <= r < p && 0 <= k < nested_children(types, r, types.len()).len() implies listed(
                    entries,
                    #[trigger] nested_children(types, r, types.len())[k] as int,
                ) by {
                let c = nested_children(types, r, types.len())[k] as int;
                if r < q {
                    let i = choose|i: int| 0 <= i < earlier.len() && #[trigger] earlier[i].1 == c;
                    assert(entries[i] == earlier[i]);
                } else {
                    assert(nested[t.nested_start + k] == children[k]);
                    assert(entries[earlier.len() + k] == block[k]);
                }
            }
        } else {
            assert(entries == earlier);
            assert forall|r: int, k: int|
                0 <= r < p && 0 <= k < nested_children(types, r, types.len()).len() implies listed(
                    entries,
                    #[trigger] nested_children(types, r, types.len())[k] as int,
                ) by {
                assert(r < q);
            }
        }
    }
}

/// The conditions under which rebuilt nested ranges pass the nesting checks: the list and the
/// ranges are the rebuilt ones, no type has more than 65535 children, the types and the list
/// fit an `i32`, and every declaring type index is the by-value index of some type.
pub open spec fn nesting_rebuilt_soundly(m: DecodedMetadata) -> bool {
    let types = m.types@;
    &&& types.len() <= i32::MAX
    &&& m.nested_types@ == nested_list(types, types.len())
    &&& nesting_rebuilt(types)
    &&& nested_list(types, types.len()).len() <= i32::MAX
    &&& forall|p: int| 0 <= p < types.len() ==> #[trigger] nested_children(types, p, types.len()).len() <= 0xFFFF
    &&& forall|t: int|
        0 <= t < types.len() && (#[trigger] types[t]).declaring_type_index >= 0 ==> exists|q: int|
            0 <= q < types.len() && #[trigger] types[q].byval_type_index == types[t].declaring_type_index
}

proof fn lemma_block_quiet(m: DecodedMetadata, p: int, k: nat)
    requires
        nesting_rebuilt_soundly(m),
        0 <= p < m.types@.len(),
        k <= nested_children(m.types@, p, m.types@.len()).len(),
    ensures
        block_msgs(m, p, k) == Seq::<Seq<char>>::empty(),
    decreases k,
{
    let types = m.types@;
    let n = types.len();
    if k > 0 {
        lemma_block_quiet(m, p, (k - 1) as nat);
        lemma_block_in_list(types, p);
        lemma_children_listed(types, p, n);
        lemma_entries_are_children(types, m.nested_types@, p as nat);
        let children = nested_children(types, p, n);
        let t = types[p];
        let c = children[k - 1] as int;
        let last = k - 1;
        assert(m.nested_types@[t.nested_start + last] == children[last]);
        assert(nested_block(m, p)[k - 1].1 == c);
        assert(0 <= c < n && declaring_parent(types, c) == Some(p));
        lemma_owners_last(types, types[c].declaring_type_index, n);
        assert(nested_child_ok(types, (p, c)));
        let outer = nested_entries(types, m.nested_types@, p as nat);
        let prev = outer + nested_block(m, p).subrange(0, k - 1);
        assert(!listed(prev, c)) by {
            if listed(prev, c) {
                let i = choose|i: int| 0 <= i < prev.len() && #[trigger] prev[i].1 == c;
                if i < outer.len() {
                    assert(prev[i] == outer[i]);
                } else {
                    let j = i - outer.len();
                    assert(prev[i] == nested_block(m, p)[j]);
                    assert(m.nested_types@[t.nested_start + j] == children[j]);
                    assert(children[j] < children[k - 1]);
                }
            }
        }
        assert(child_msgs(types, p, c, prev) =~= Seq::<Seq<char>>::empty());
    }
}

proof fn lemma_parents_quiet(m: DecodedMetadata, k: nat)
    requires
        nesting_rebuilt_soundly(m),
        k <= m.types@.len(),
    ensures
        parents_msgs(m, k) == Seq::<Seq<char>>::empty(),
    decreases k,
{
    if k > 0 {
        let p = k - 1;
        lemma_parents_quiet(m, (k - 1) as nat);
        lemma_block_in_list(m.types@, p);
        let children = nested_children(m.types@, p, m.types@.len());
        if children.len() > 0 {
            lemma_block_quiet(m, p, children.len());
        }
        assert(parent_msgs(m, p) =~= Seq::<Seq<char>>::empty());
        assert(parents_msgs(m, k) =~= Seq::<Seq<char>>::empty());
    }
}

proof fn lemma_absent_quiet(m: DecodedMetadata, k: nat)
    requires
        nesting_rebuilt_soundly(m),
        k <= m.types@.len(),
    ensures
        absent_msgs(m, k) == Seq::<Seq<char>>::empty(),
    decreases k,
{
    let types = m.types@;
    let n = types.len();
    if k > 0 {
        let t = k - 1;
        lemma_absent_quiet(m, (k - 1) as nat);
        let entries = nested_entries(types, m.nested_types@, n);
        if types[t].declaring_type_index >= 0 {
            let key = types[t].declaring_type_index;
            let q = choose|q: int| 0 <= q < n && #[trigger] types[q].byval_type_index == key;
            lemma_owners_last(types, key, n);
            let p = last_with_byval(types, key, n)->0;
            assert(declaring_parent(types, t) == Some(p));
            assert(0 <= p < n) by {
                lemma_last_in_range(types, key, n);
            }
            lemma_children_listed(types, p, n);
            let i = choose|i: int|
                0 <= i < nested_children(types, p, n).len() && #[trigger] nested_children(types, p, n)[i] == t;
            lemma_entries_are_children(types, m.nested_types@, n);
            assert(listed(entries, nested_children(types, p, n)[i] as int));
        }
        assert(absent_msgs(m, k) =~= Seq::<Seq<char>>::empty());
    }
}

proof fn lemma_last_in_range(types: Seq<TypeDef>, key: i32, m: nat)
    ensures
        last_with_byval(types, key, m) matches Some(q) ==> 0 <= q < m,
    decreases m,
{
    if m > 0 {
        lemma_last_in_range(types, key, (m - 1) as nat);
    }
}

/// Nested-type lists and ranges as rebuilding gives them raise no nesting issue, when no type
/// has more than 65535 children, the types and the list fit an `i32` and every declaring type
/// index is the by-value index of some type.
pub proof fn lemma_rebuilt_nesting_passes(m: DecodedMetadata)
    requires
        nesting_rebuilt_soundly(m),
    ensures
        nesting_msgs(m) == Seq::<Seq<char>>::empty(),
{
    let types = m.types@;
    let n = types.len();
    lemma_total_is_list_len(types, n);
    lemma_parents_quiet(m, n);
    lemma_absent_quiet(m, n);
    assert(nesting_msgs(m) =~= Seq::<Seq<char>>::empty());
}

} // verus!
