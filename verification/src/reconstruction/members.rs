use super::strings::{decrypted_string, StringDecryptor};
use super::types::TypeDef;
use crate::bytes::{in_bounds, le_u16, le_u32, read_u16_at, read_u32_at};
use crate::discovery::mhy::MhyHeader;
use vstd::prelude::*;

verus! {

/// A property definition.
pub struct PropertyDef {
    pub name: String,
    pub name_off: u32,
    pub get: i32,
    pub set: i32,
    pub attrs: u32,
    pub token: u32,
}

/// An event definition.
pub struct EventDef {
    pub name: String,
    pub name_off: u32,
    pub type_index: i32,
    pub add: i32,
    pub remove: i32,
    pub raise: i32,
    pub token: u32,
}

/// Whether record `i` of a table of `size`-byte records at `base` lies in `body`.
pub open spec fn record_fits(body: Seq<u8>, base: int, size: int, i: int) -> bool {
    in_bounds(body, base + size * i, size)
}

/// The end of a member range, when its count is not zero and its start is not negative.
pub open spec fn range_end(start: i32, count: u16) -> Option<nat> {
    if count > 0 && start >= 0 {
        Some((start + count) as nat)
    } else {
        None
    }
}

/// The largest end of the ranges that `ends` gives for the first `n` types, or 0.
pub open spec fn max_range_end(types: Seq<TypeDef>, n: nat, ends: spec_fn(TypeDef) -> Option<nat>) -> nat
    decreases n,
{
    if n == 0 {
        0
    } else {
        let earlier = max_range_end(types, (n - 1) as nat, ends);
        match ends(types[n - 1]) {
            Some(end) => if end > earlier {
                end
            } else {
                earlier
            },
            None => earlier,
        }
    }
}

/// The number of property records that the types' property ranges cover.
pub open spec fn property_table_len(types: Seq<TypeDef>) -> nat {
    max_range_end(types, types.len(), |t: TypeDef| range_end(t.property_start, t.property_count))
}

/// The number of event records that the types' event ranges cover.
pub open spec fn event_table_len(types: Seq<TypeDef>) -> nat {
    max_range_end(types, types.len(), |t: TypeDef| range_end(t.event_start, t.event_count))
}

/// The key of property record `index`.
pub open spec fn property_key_spec(index: u64) -> u64 {
    let value = 1_831_379_439u64.wrapping_mul(6035u64.wrapping_mul(index) ^ 0x280E_7A20) >> 17;
    ((value ^ 0x727E_FF5B).wrapping_add(1_664_893_910)) ^ 0x4ADB_D505
}

/// The key of event record `index`.
pub open spec fn event_key_spec(index: u64) -> u64 {
    let value = 1_057_473_644u64.wrapping_mul(15_580u64.wrapping_mul(index) ^ 0x550D_63BA) >> 19;
    1_598_447_864u64.wrapping_mul(value).wrapping_add(0x2682_4684_CA69_CA48) >> 15
}

/// A method index decoded with `key`: the all-ones value stands for "none" (-1).
pub open spec fn accessor_spec(value: u16, key: u16) -> i32 {
    if value.wrapping_sub(key) == u16::MAX {
        -1i32
    } else {
        value.wrapping_sub(key) as i32
    }
}

/// Whether `p` is the property that record `index` of the table at `base` decodes to.
pub open spec fn is_decoded_property(
    p: PropertyDef,
    body: Seq<u8>,
    names: Seq<u8>,
    table: nat,
    base: int,
    index: int,
) -> bool {
    let record = base + 10 * index;
    let key = property_key_spec(index as u64);
    &&& p.name@ == decrypted_string(
        names,
        table,
        (le_u32(body, record) ^ 0x6199_063C).wrapping_sub(key as u32),
    )
    &&& p.name_off == 0
    &&& p.set == accessor_spec(le_u16(body, record + 4) ^ 0x4B8F, key as u16)
    &&& p.get == accessor_spec(le_u16(body, record + 6) ^ 0xFA36, key as u16)
    &&& p.attrs == ((le_u16(body, record + 8) ^ 0x5E8B).wrapping_sub(key as u16)) as u32
    &&& p.token == 0x1700_0000 | (index as u32).wrapping_add(1)
}

/// Whether `e` is the event that record `index` of the table at `base` decodes to.
pub open spec fn is_decoded_event(
    e: EventDef,
    body: Seq<u8>,
    names: Seq<u8>,
    table: nat,
    base: int,
    index: int,
) -> bool {
    let record = base + 14 * index;
    let key = event_key_spec(index as u64);
    &&& e.name@ == decrypted_string(
        names,
        table,
        (le_u32(body, record) ^ 0x0789_81CB).wrapping_sub(key as u32),
    )
    &&& e.name_off == 0
    &&& e.type_index == ((le_u32(body, record + 4) ^ 0x5324_3DF3).wrapping_sub(key as u32)) as i32
    &&& e.raise == accessor_spec(le_u16(body, record + 8) ^ 0x8450, key as u16)
    &&& e.add == accessor_spec(le_u16(body, record + 10) ^ 0xE8CB, key as u16)
    &&& e.remove == accessor_spec(le_u16(body, record + 12) ^ 0x3CE2, key as u16)
    &&& e.token == 0x1400_0000 | (index as u32).wrapping_add(1)
}

fn property_table_len_of(types: &[TypeDef]) -> (r: usize)
    ensures
        r == property_table_len(types@),
{
    let mut maximum: usize = 0;
    let mut i: usize = 0;
    while i < types.len()
        invariant
            i <= types@.len(),
            maximum == max_range_end(
                types@,
                i as nat,
                |t: TypeDef| range_end(t.property_start, t.property_count),
            ),
        decreases types@.len() - i,
    {
        let t = &types[i];
        if t.property_count > 0 && t.property_start >= 0 {
            let end = t.property_start as usize + t.property_count as usize;
            if end > maximum {
                maximum = end;
            }
        }
        i = i + 1;
    }
    maximum
}

fn event_table_len_of(types: &[TypeDef]) -> (r: usize)
    ensures
        r == event_table_len(types@),
{
    let mut maximum: usize = 0;
    let mut i: usize = 0;
    while i < types.len()
        invariant
            i <= types@.len(),
            maximum == max_range_end(
                types@,
                i as nat,
                |t: TypeDef| range_end(t.event_start, t.event_count),
            ),
        decreases types@.len() - i,
    {
        let t = &types[i];
        if t.event_count > 0 && t.event_start >= 0 {
            let end = t.event_start as usize + t.event_count as usize;
            if end > maximum {
                maximum = end;
            }
        }
        i = i + 1;
    }
    maximum
}

/// A 16-bit field masked with `c` after `k` was added comes back when unmasked and `k` is
/// taken off again.
pub(crate) proof fn lemma_unmask16(x: u16, k: u16, c: u16)
    ensures
        ((x.wrapping_add(k) ^ c) ^ c).wrapping_sub(k) == x,
{
    let y = x.wrapping_add(k);
    assert((y ^ c) ^ c == y) by (bit_vector);
}

/// A 32-bit field masked with `c` after `k` was added comes back when unmasked and `k` is
/// taken off again.
pub(crate) proof fn lemma_unmask32(x: u32, k: u32, c: u32)
    ensures
        ((x.wrapping_add(k) ^ c) ^ c).wrapping_sub(k) == x,
{
    let y = x.wrapping_add(k);
    assert((y ^ c) ^ c == y) by (bit_vector);
}

/// The method index that an accessor field stands for: all ones is "none" (-1).
pub open spec fn accessor_index(a: u16) -> i32 {
    if a == 0xFFFF {
        -1i32
    } else {
        a as i32
    }
}

/// Decoding undoes the encoding of property records: when record `index` holds its name
/// index, setter, getter and attributes, each with the record's key added (modulo the field's
/// width) and masked with the field's constant, where the key of record `i` is
/// `((((1831379439 * ((6035 * i) XOR 0x280E7A20)) >> 17) XOR 0x727EFF5B) + 1664893910) XOR
/// 0x4ADBD505` in wrapping 64-bit arithmetic, the decoded property has that name, setter,
/// getter and those attributes.
pub proof fn lemma_property_decodes_encoded(
    p: PropertyDef,
    body: Seq<u8>,
    names: Seq<u8>,
    table: nat,
    base: int,
    index: u64,
    name_index: u32,
    set: u16,
    get: u16,
    attrs: u16,
)
    requires
        is_decoded_property(p, body, names, table, base, index as int),
        ({
            let key: u64 = (((1831_379439u64.wrapping_mul(6_035u64.wrapping_mul(index) ^ 0x280e7a20u64) >>17u64)
                ^ 0x727eff5bu64).wrapping_add(1664_893910u64)) ^ 0x4adbd505u64;
            let record = base + 10 * index;
            &&& le_u32(body, record) == name_index.wrapping_add(key as u32) ^ 0x6199063cu32
            &&& le_u16(body, record + 4) == set.wrapping_add(key as u16) ^ 0x4b8fu16
            &&& le_u16(body, record + 6) == get.wrapping_add(key as u16) ^ 0xfa36u16
            &&& le_u16(body, record + 8) == attrs.wrapping_add(key as u16) ^ 0x5e8bu16
        }),
    ensures
        p.name@ == decrypted_string(names, table, name_index),
        p.set == accessor_index(set),
        p.get == accessor_index(get),
        p.attrs == attrs as u32,
{
    let key = property_key_spec(index);
    lemma_unmask32(name_index, key as u32, 0x6199063cu32);
    lemma_unmask16(set, key as u16, 0x4B8F);
    lemma_unmask16(get, key as u16, 0xFA36);
    lemma_unmask16(attrs, key as u16, 0x5E8B);
}

/// Decoding undoes the encoding of event records: when record `index` holds its name index,
/// event type and raise, add and remove accessors, each with the record's key added (modulo
/// the field's width) and masked with the field's constant, where the key of record `i` is
/// `(1598447864 * ((1057473644 * ((15580 * i) XOR 0x550D63BA)) >> 19) + 0x26824684CA69CA48) >>
/// 15` in wrapping 64-bit arithmetic, the decoded event has that name, type and those accessors.
pub proof fn lemma_event_decodes_encoded(
    e: EventDef,
    body: Seq<u8>,
    names: Seq<u8>,
    table: nat,
    base: int,
    index: u64,
    name_index: u32,
    type_index: u32,
    raise: u16,
    add: u16,
    remove: u16,
)
    requires
        is_decoded_event(e, body, names, table, base, index as int),
        ({
            let key: u64 = 1598_447864u64.wrapping_mul(
                1057_473644u64.wrapping_mul(15580u64.wrapping_mul(index) ^ 0x550d63bau64) >>19u64,
            ).wrapping_add(0x26824684ca69ca48u64) >>15u64;
            let record = base + 14 * index;
            &&& le_u32(body, record) == name_index.wrapping_add(key as u32) ^ 0x078981cbu32
            &&& le_u32(body, record + 4) == type_index.wrapping_add(key as u32) ^ 0x53243df3u32
            &&& le_u16(body, record + 8) == raise.wrapping_add(key as u16) ^ 0x8450u16
            &&& le_u16(body, record + 10) == add.wrapping_add(key as u16) ^ 0xe8cbu16
            &&& le_u16(body, record + 12) == remove.wrapping_add(key as u16) ^ 0x3ce2u16
        }),
    ensures
        e.name@ == decrypted_string(names, table, name_index),
        e.type_index == type_index as i32,
        e.raise == accessor_index(raise),
        e.add == accessor_index(add),
        e.remove == accessor_index(remove),
{
    let key = event_key_spec(index);
    lemma_unmask32(name_index, key as u32, 0x078981cbu32);
    lemma_unmask32(type_index, key as u32, 0x53243df3u32);
    lemma_unmask16(raise, key as u16, 0x8450);
    lemma_unmask16(add, key as u16, 0xE8CB);
    lemma_unmask16(remove, key as u16, 0x3CE2);
}

/// Decodes the property records that the types' ranges cover, up to the first one that runs
/// past the body.
pub fn decode_properties(
    global_body: &[u8],
    mhy: &MhyHeader,
    decryptor: &StringDecryptor,
    types: &[TypeDef],
) -> (r: Vec<PropertyDef>)
    ensures
        r@.len() <= property_table_len(types@),
        forall|i: int|
            0 <= i < r@.len() ==> #[trigger] record_fits(global_body@, mhy.property_table_base() as int, 10, i),
        r@.len() == property_table_len(types@) || !in_bounds(
            global_body@,
            mhy.property_table_base() + 10 * r@.len(),
            10,
        ),
        forall|i: int|
            0 <= i < r@.len() ==> is_decoded_property(
                #[trigger] r@[i],
                global_body@,
                decryptor.body(),
                decryptor.table(),
                mhy.property_table_base() as int,
                i,
            ),
{
    let count = property_table_len_of(types);
    let base = mhy.property_table_base();
    let len = global_body.len();
    let available = if base > len {
        0
    } else {
        (len - base) / 10
    };
    let limit = if count < available {
        count
    } else {
        available
    };
    let mut result: Vec<PropertyDef> = Vec::new();
    let mut index: usize = 0;
    while index < limit
        invariant
            index <= limit,
            limit <= count,
            count == property_table_len(types@),
            base == mhy.property_table_base(),
            len == global_body@.len(),
            available == (if base > len {
                0
            } else {
                (len - base) / 10
            }),
            limit == (if count < available {
                count
            } else {
                available
            }),
            result@.len() == index,
            forall|i: int|
                0 <= i < index ==> is_decoded_property(
                    #[trigger] result@[i],
                    global_body@,
                    decryptor.body(),
                    decryptor.table(),
                    base as int,
                    i,
                ),
        decreases limit - index,
    {
        let offset = base + index * 10;
        let key = property_key(index);
        let name_index = (read_u32_at(global_body, offset) ^ 0x6199_063C).wrapping_sub(key as u32);
        let set = decode_accessor(read_u16_at(global_body, offset + 4) ^ 0x4B8F, key as u16);
        let get = decode_accessor(read_u16_at(global_body, offset + 6) ^ 0xFA36, key as u16);
        let attrs = (read_u16_at(global_body, offset + 8) ^ 0x5E8B).wrapping_sub(key as u16) as u32;
        result.push(
            PropertyDef {
                name: decryptor.decrypt_string(name_index),
                name_off: 0,
                get,
                set,
                attrs,
                token: 0x1700_0000 | (#[verifier::truncate] (index as u32)).wrapping_add(1),
            },
        );
        index = index + 1;
    }
    result
}

/// Decodes the event records that the types' ranges cover, up to the first one that runs past
/// the body.
pub fn decode_events(
    global_body: &[u8],
    mhy: &MhyHeader,
    decryptor: &StringDecryptor,
    types: &[TypeDef],
) -> (r: Vec<EventDef>)
    ensures
        r@.len() <= event_table_len(types@),
        forall|i: int|
            0 <= i < r@.len() ==> #[trigger] record_fits(global_body@, mhy.event_table_base() as int, 14, i),
        r@.len() == event_table_len(types@) || !in_bounds(
            global_body@,
            mhy.event_table_base() + 14 * r@.len(),
            14,
        ),
        forall|i: int|
            0 <= i < r@.len() ==> is_decoded_event(
                #[trigger] r@[i],
                global_body@,
                decryptor.body(),
                decryptor.table(),
                mhy.event_table_base() as int,
                i,
            ),
{
    let count = event_table_len_of(types);
    let base = mhy.event_table_base();
    let len = global_body.len();
    let available = if base > len {
        0
    } else {
        (len - base) / 14
    };
    let limit = if count < available {
        count
    } else {
        available
    };
    let mut result: Vec<EventDef> = Vec::new();
    let mut index: usize = 0;
    while index < limit
        invariant
            index <= limit,
            limit <= count,
            count == event_table_len(types@),
            base == mhy.event_table_base(),
            len == global_body@.len(),
            available == (if base > len {
                0
            } else {
                (len - base) / 14
            }),
            limit == (if count < available {
                count
            } else {
                available
            }),
            result@.len() == index,
            forall|i: int|
                0 <= i < index ==> is_decoded_event(
                    #[trigger] result@[i],
                    global_body@,
                    decryptor.body(),
                    decryptor.table(),
                    base as int,
                    i,
                ),
        decreases limit - index,
    {
        let offset = base + index * 14;
        let key = event_key(index);
        let name_index = (read_u32_at(global_body, offset) ^ 0x0789_81CB).wrapping_sub(key as u32);
        let type_index = (read_u32_at(global_body, offset + 4) ^ 0x5324_3DF3).wrapping_sub(
            key as u32,
        ) as i32;
        let raise = decode_accessor(read_u16_at(global_body, offset + 8) ^ 0x8450, key as u16);
        let add = decode_accessor(read_u16_at(global_body, offset + 10) ^ 0xE8CB, key as u16);
        let remove = decode_accessor(read_u16_at(global_body, offset + 12) ^ 0x3CE2, key as u16);
        result.push(
            EventDef {
                name: decryptor.decrypt_string(name_index),
                name_off: 0,
                type_index,
                add,
                remove,
                raise,
                token: 0x1400_0000 | (#[verifier::truncate] (index as u32)).wrapping_add(1),
            },
        );
        index = index + 1;
    }
    result
}

/// A method index decoded with `key`; the all-ones value stands for "none" (-1).
pub fn decode_accessor(value: u16, key: u16) -> (r: i32)
    ensures
        r == accessor_spec(value, key),
{
    let value = value.wrapping_sub(key);
    if value == u16::MAX {
        -1
    } else {
        value as i32
    }
}

/// The key of property record `index`.
pub fn property_key(index: usize) -> (r: u64)
    ensures
        r == property_key_spec(index as u64),
{
    let value = 6035u64.wrapping_mul(index as u64) ^ 0x280E_7A20;
    let value = 1_831_379_439u64.wrapping_mul(value) >> 17;
    ((value ^ 0x727E_FF5B).wrapping_add(1_664_893_910)) ^ 0x4ADB_D505
}

/// The key of event record `index`.
pub fn event_key(index: usize) -> (r: u64)
    ensures
        r == event_key_spec(index as u64),
{
    let value = 15_580u64.wrapping_mul(index as u64) ^ 0x550D_63BA;
    let value = 1_057_473_644u64.wrapping_mul(value) >> 19;
    1_598_447_864u64.wrapping_mul(value).wrapping_add(0x2682_4684_CA69_CA48) >> 15
}

} // verus!
