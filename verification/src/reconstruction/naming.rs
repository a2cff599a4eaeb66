use super::defaults::{FieldDefaultValue, ParameterDefaultValue};
use super::images::ImageDef;
use super::members::{EventDef, PropertyDef};
use super::methods::{MethodDef, ParamDef};
use super::strings::StringPool;
use super::types::{FieldDef, TypeDef};
use vstd::prelude::*;
use vstd::utf8::encode_utf8;

verus! {

/// The pool maps the empty string to 0, and, while it fits in 32-bit offsets, holds every
/// string of its map at the offset that the map gives.
pub open spec fn pool_sound(p: StringPool) -> bool {
    &&& p.map@.contains_key(Seq::empty())
    &&& p.map@[Seq::empty()] == 0
    &&& p.pool@.len() < 0x1_0000_0000 ==> p.wf()
}

/// Every string that `a` maps, `b` maps to the same offset.
pub open spec fn map_extends(a: StringPool, b: StringPool) -> bool {
    forall|k: Seq<char>|
        #[trigger] a.map@.contains_key(k) ==> b.map@.contains_key(k) && b.map@[k] == a.map@[k]
}

/// Whether the pool maps `name` to `off`.
pub open spec fn interned(p: StringPool, name: Seq<char>, off: u32) -> bool {
    p.map@.contains_key(name) && p.map@[name] == off
}

/// Adds `s` to the pool and returns its offset.
pub fn intern(strings: &mut StringPool, s: &str) -> (off: u32)
    requires
        pool_sound(*old(strings)),
    ensures
        pool_sound(*final(strings)),
        map_extends(*old(strings), *final(strings)),
        interned(*final(strings), s@, off),
{
    let ghost before = *strings;
    let off = strings.add_string(s);
    proof {
        if s@.len() == 0 {
            assert(s@ =~= Seq::<char>::empty());
        } else if !before.map@.contains_key(s@) {
            assert(strings.pool@.len() == before.pool@.len() + encode_utf8(s@).len() + 1);
            assert(strings.map@[Seq::<char>::empty()] == 0);
        }
    }
    off
}

/// Puts the name of every method in the pool and records its offset.
pub(crate) fn name_methods(methods: &mut Vec<MethodDef>, strings: &mut StringPool)
    requires
        pool_sound(*old(strings)),
    ensures
        pool_sound(*final(strings)),
        map_extends(*old(strings), *final(strings)),
        final(methods)@.len() == old(methods)@.len(),
        forall|i: int|
            0 <= i < old(methods)@.len() ==> #[trigger] final(methods)@[i] == (MethodDef {
                name_off: final(methods)@[i].name_off,
                ..old(methods)@[i]
            }) && interned(*final(strings), final(methods)@[i].name@, final(methods)@[i].name_off),
{
    let ghost unnamed = methods@;
    let ghost start = *strings;
    let mut i: usize = 0;
    while i < methods.len()
        invariant
            i <= methods@.len(),
            methods@.len() == unnamed.len(),
            pool_sound(*strings),
            map_extends(start, *strings),
            forall|j: int| i <= j < unnamed.len() ==> #[trigger] methods@[j] == unnamed[j],
            forall|j: int|
                0 <= j < i ==> #[trigger] methods@[j] == (MethodDef { name_off: methods@[j].name_off, ..unnamed[j] })
                    && interned(*strings, methods@[j].name@, methods@[j].name_off),
        decreases methods.len() - i,
    {
        let ghost before = *strings;
        let off = intern(strings, methods[i].name.as_str());
        methods[i].name_off = off;
        assert forall|j: int| 0 <= j < i implies interned(*strings, methods@[j].name@, methods@[j].name_off) by {
            assert(before.map@.contains_key(methods@[j].name@));
        }
        i = i + 1;
    }
}

/// Puts the name of every parameter in the pool and records its offset.
pub(crate) fn name_parameters(parameters: &mut Vec<ParamDef>, strings: &mut StringPool)
    requires
        pool_sound(*old(strings)),
    ensures
        pool_sound(*final(strings)),
        map_extends(*old(strings), *final(strings)),
        final(parameters)@.len() == old(parameters)@.len(),
        forall|i: int|
            0 <= i < old(parameters)@.len() ==> #[trigger] final(parameters)@[i] == (ParamDef {
                name_off: final(parameters)@[i].name_off,
                ..old(parameters)@[i]
            }) && interned(*final(strings), final(parameters)@[i].name@, final(parameters)@[i].name_off),
{
    let ghost unnamed = parameters@;
    let ghost start = *strings;
    let mut i: usize = 0;
    while i < parameters.len()
        invariant
            i <= parameters@.len(),
            parameters@.len() == unnamed.len(),
            pool_sound(*strings),
            map_extends(start, *strings),
            forall|j: int| i <= j < unnamed.len() ==> #[trigger] parameters@[j] == unnamed[j],
            forall|j: int|
                0 <= j < i ==> #[trigger] parameters@[j] == (ParamDef { name_off: parameters@[j].name_off, ..unnamed[j] })
                    && interned(*strings, parameters@[j].name@, parameters@[j].name_off),
        decreases parameters.len() - i,
    {
        let ghost before = *strings;
        let off = intern(strings, parameters[i].name.as_str());
        parameters[i].name_off = off;
        assert forall|j: int| 0 <= j < i implies interned(*strings, parameters@[j].name@, parameters@[j].name_off) by {
            assert(before.map@.contains_key(parameters@[j].name@));
        }
        i = i + 1;
    }
}

/// Puts the name of every field in the pool and records its offset.
pub(crate) fn name_fields(fields: &mut Vec<FieldDef>, strings: &mut StringPool)
    requires
        pool_sound(*old(strings)),
    ensures
        pool_sound(*final(strings)),
        map_extends(*old(strings), *final(strings)),
        final(fields)@.len() == old(fields)@.len(),
        forall|i: int|
            0 <= i < old(fields)@.len() ==> #[trigger] final(fields)@[i] == (FieldDef {
                name_off: final(fields)@[i].name_off,
                ..old(fields)@[i]
            }) && interned(*final(strings), final(fields)@[i].name@, final(fields)@[i].name_off),
{
    let ghost unnamed = fields@;
    let ghost start = *strings;
    let mut i: usize = 0;
    while i < fields.len()
        invariant
            i <= fields@.len(),
            fields@.len() == unnamed.len(),
            pool_sound(*strings),
            map_extends(start, *strings),
            forall|j: int| i <= j < unnamed.len() ==> #[trigger] fields@[j] == unnamed[j],
            forall|j: int|
                0 <= j < i ==> #[trigger] fields@[j] == (FieldDef { name_off: fields@[j].name_off, ..unnamed[j] })
                    && interned(*strings, fields@[j].name@, fields@[j].name_off),
        decreases fields.len() - i,
    {
        let ghost before = *strings;
        let off = intern(strings, fields[i].name.as_str());
        fields[i].name_off = off;
        assert forall|j: int| 0 <= j < i implies interned(*strings, fields@[j].name@, fields@[j].name_off) by {
            assert(before.map@.contains_key(fields@[j].name@));
        }
        i = i + 1;
    }
}

/// Puts the name of every property in the pool and records its offset.
pub(crate) fn name_properties(properties: &mut Vec<PropertyDef>, strings: &mut StringPool)
    requires
        pool_sound(*old(strings)),
    ensures
        pool_sound(*final(strings)),
        map_extends(*old(strings), *final(strings)),
        final(properties)@.len() == old(properties)@.len(),
        forall|i: int|
            0 <= i < old(properties)@.len() ==> #[trigger] final(properties)@[i] == (PropertyDef {
                name_off: final(properties)@[i].name_off,
                ..old(properties)@[i]
            }) && interned(*final(strings), final(properties)@[i].name@, final(properties)@[i].name_off),
{
    let ghost unnamed = properties@;
    let ghost start = *strings;
    let mut i: usize = 0;
    while i < properties.len()
        invariant
            i <= properties@.len(),
            properties@.len() == unnamed.len(),
            pool_sound(*strings),
            map_extends(start, *strings),
            forall|j: int| i <= j < unnamed.len() ==> #[trigger] properties@[j] == unnamed[j],
            forall|j: int|
                0 <= j < i ==> #[trigger] properties@[j] == (PropertyDef { name_off: properties@[j].name_off, ..unnamed[j] })
                    && interned(*strings, properties@[j].name@, properties@[j].name_off),
        decreases properties.len() - i,
    {
        let ghost before = *strings;
        let off = intern(strings, properties[i].name.as_str());
        properties[i].name_off = off;
        assert forall|j: int| 0 <= j < i implies interned(*strings, properties@[j].name@, properties@[j].name_off) by {
            assert(before.map@.contains_key(properties@[j].name@));
        }
        i = i + 1;
    }
}

/// Puts the name of every event in the pool and records its offset.
pub(crate) fn name_events(events: &mut Vec<EventDef>, strings: &mut StringPool)
    requires
        pool_sound(*old(strings)),
    ensures
        pool_sound(*final(strings)),
        map_extends(*old(strings), *final(strings)),
        final(events)@.len() == old(events)@.len(),
        forall|i: int|
            0 <= i < old(events)@.len() ==> #[trigger] final(events)@[i] == (EventDef {
                name_off: final(events)@[i].name_off,
                ..old(events)@[i]
            }) && interned(*final(strings), final(events)@[i].name@, final(events)@[i].name_off),
{
    let ghost unnamed = events@;
    let ghost start = *strings;
    let mut i: usize = 0;
    while i < events.len()
        invariant
            i <= events@.len(),
            events@.len() == unnamed.len(),
            pool_sound(*strings),
            map_extends(start, *strings),
            forall|j: int| i <= j < unnamed.len() ==> #[trigger] events@[j] == unnamed[j],
            forall|j: int|
                0 <= j < i ==> #[trigger] events@[j] == (EventDef { name_off: events@[j].name_off, ..unnamed[j] })
                    && interned(*strings, events@[j].name@, events@[j].name_off),
        decreases events.len() - i,
    {
        let ghost before = *strings;
        let off = intern(strings, events[i].name.as_str());
        events[i].name_off = off;
        assert forall|j: int| 0 <= j < i implies interned(*strings, events@[j].name@, events@[j].name_off) by {
            assert(before.map@.contains_key(events@[j].name@));
        }
        i = i + 1;
    }
}

/// Puts the name of every image in the pool and records its offset.
pub(crate) fn name_images(images: &mut Vec<ImageDef>, strings: &mut StringPool)
    requires
        pool_sound(*old(strings)),
    ensures
        pool_sound(*final(strings)),
        map_extends(*old(strings), *final(strings)),
        final(images)@.len() == old(images)@.len(),
        forall|i: int|
            0 <= i < old(images)@.len() ==> #[trigger] final(images)@[i] == (ImageDef {
                name_off: final(images)@[i].name_off,
                ..old(images)@[i]
            }) && interned(*final(strings), final(images)@[i].name@, final(images)@[i].name_off),
{
    let ghost unnamed = images@;
    let ghost start = *strings;
    let mut i: usize = 0;
    while i < images.len()
        invariant
            i <= images@.len(),
            images@.len() == unnamed.len(),
            pool_sound(*strings),
            map_extends(start, *strings),
            forall|j: int| i <= j < unnamed.len() ==> #[trigger] images@[j] == unnamed[j],
            forall|j: int|
                0 <= j < i ==> #[trigger] images@[j] == (ImageDef { name_off: images@[j].name_off, ..unnamed[j] })
                    && interned(*strings, images@[j].name@, images@[j].name_off),
        decreases images.len() - i,
    {
        let ghost before = *strings;
        let off = intern(strings, images[i].name.as_str());
        images[i].name_off = off;
        assert forall|j: int| 0 <= j < i implies interned(*strings, images@[j].name@, images@[j].name_off) by {
            assert(before.map@.contains_key(images@[j].name@));
        }
        i = i + 1;
    }
}

/// Puts the name and namespace of every type in the pool and records their offsets.
pub(crate) fn name_types(types: &mut Vec<TypeDef>, strings: &mut StringPool)
    requires
        pool_sound(*old(strings)),
    ensures
        pool_sound(*final(strings)),
        map_extends(*old(strings), *final(strings)),
        final(types)@.len() == old(types)@.len(),
        forall|i: int|
            0 <= i < old(types)@.len() ==> #[trigger] final(types)@[i] == (TypeDef {
                name_off: final(types)@[i].name_off,
                ns_off: final(types)@[i].ns_off,
                ..old(types)@[i]
            }) && interned(*final(strings), final(types)@[i].name@, final(types)@[i].name_off)
                && interned(*final(strings), final(types)@[i].ns@, final(types)@[i].ns_off),
{
    let ghost unnamed = types@;
    let ghost start = *strings;
    let mut i: usize = 0;
    while i < types.len()
        invariant
            i <= types@.len(),
            types@.len() == unnamed.len(),
            pool_sound(*strings),
            map_extends(start, *strings),
            forall|j: int| i <= j < unnamed.len() ==> #[trigger] types@[j] == unnamed[j],
            forall|j: int|
                0 <= j < i ==> #[trigger] types@[j] == (TypeDef {
                    name_off: types@[j].name_off,
                    ns_off: types@[j].ns_off,
                    ..unnamed[j]
                }) && interned(*strings, types@[j].name@, types@[j].name_off) && interned(
                    *strings,
                    types@[j].ns@,
                    types@[j].ns_off,
                ),
        decreases types.len() - i,
    {
        let ghost before = *strings;
        let name_off = intern(strings, types[i].name.as_str());
        let ghost middle = *strings;
        let ns_off = intern(strings, types[i].ns.as_str());
        types[i].name_off = name_off;
        types[i].ns_off = ns_off;
        assert(interned(*strings, types@[i as int].name@, name_off)) by {
            assert(middle.map@.contains_key(types@[i as int].name@));
        }
        assert forall|j: int| 0 <= j < i implies interned(*strings, types@[j].name@, types@[j].name_off)
            && interned(*strings, types@[j].ns@, types@[j].ns_off) by {
            assert(before.map@.contains_key(types@[j].name@));
            assert(before.map@.contains_key(types@[j].ns@));
            assert(middle.map@.contains_key(types@[j].name@));
            assert(middle.map@.contains_key(types@[j].ns@));
        }
        i = i + 1;
    }
}

/// Puts the name of every generic parameter in the pool and returns their offsets.
pub(crate) fn name_generic_parameters(names: &Vec<String>, strings: &mut StringPool) -> (r: Vec<u32>)
    requires
        pool_sound(*old(strings)),
    ensures
        pool_sound(*final(strings)),
        map_extends(*old(strings), *final(strings)),
        r@.len() == names@.len(),
        forall|i: int| 0 <= i < names@.len() ==> #[trigger] interned(*final(strings), names@[i]@, r@[i]),
{
    let ghost start = *strings;
    let mut offsets: Vec<u32> = Vec::new();
    let mut i: usize = 0;
    while i < names.len()
        invariant
            i <= names@.len(),
            offsets@.len() == i,
            pool_sound(*strings),
            map_extends(start, *strings),
            forall|j: int| 0 <= j < i ==> #[trigger] interned(*strings, names@[j]@, offsets@[j]),
        decreases names.len() - i,
    {
        let ghost before = *strings;
        let ghost earlier = offsets@;
        let off = intern(strings, names[i].as_str());
        offsets.push(off);
        assert forall|j: int| 0 <= j < i + 1 implies #[trigger] interned(*strings, names@[j]@, offsets@[j]) by {
            if j < i {
                assert(interned(before, names@[j]@, earlier[j]));
                assert(offsets@[j] == earlier[j]);
            }
        }
        i = i + 1;
    }
    offsets
}

} // verus!
