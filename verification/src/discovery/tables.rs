use super::{best_offset, unique_best, unique_best_spec, generic_parameter_key, generic_parameter_term, parameter_term, sample_indices, samples};
use crate::bytes::{le_u16, read_u16_at};
use crate::reconstruction::members::{accessor_spec, event_key, event_key_spec, property_key, property_key_spec};
use crate::reconstruction::methods::{calc_term, method_term};
use crate::reconstruction::strings::{decrypted_string, StringDecryptor};
use crate::bytes::{in_bounds, le_i16, le_i32, le_u32, read_i16_at, read_i32_at, read_u32_at};
use crate::reconstruction::generics::container_term;
use crate::reconstruction::types::{byte_at, decode_interface_ranges, interface_range_at};
use crate::reconstruction::methods::parameter_term_spec;
use vstd::prelude::*;

verus! {

/// The number of `i < n` for which `p(i)` holds.
pub open spec fn count_where(n: nat, p: spec_fn(int) -> bool) -> nat
    decreases n,
{
    if n == 0 {
        0
    } else {
        count_where((n - 1) as nat, p) + if p(n - 1) {
            1nat
        } else {
            0
        }
    }
}

/// The sum of `f(indices[k])` over the first `n` indices.
pub open spec fn sum_at(indices: Seq<usize>, f: spec_fn(int) -> nat, n: nat) -> nat
    decreases n,
{
    if n == 0 {
        0
    } else {
        sum_at(indices, f, (n - 1) as nat) + f(indices[n - 1] as int)
    }
}

/// Whether `body` holds a record of `size` bytes at `base + size * index`.
pub open spec fn record_at(body: Seq<u8>, base: int, size: int, index: int) -> bool {
    in_bounds(body, base + size * index, size)
}

fn fits(len: usize, base: usize, size: usize, index: usize) -> (r: bool)
    requires
        size > 0,
    ensures
        r == (base + size * index + size <= len),
{
    if base > len {
        return false;
    }
    let room = (len - base) / size;
    if index > room {
        assert(base + size * index + size > len) by (nonlinear_arith)
            requires
                index > room,
                room == (len - base) as int / size as int,
                size > 0,
                base <= len,
        ;
        return false;
    }
    assert(index * size <= len - base) by (nonlinear_arith)
        requires
            index <= room,
            room == (len - base) as int / size as int,
            size > 0,
            base <= len,
    ;
    (len - base) - index * size >= size
}

// ---------------------------------------------------------------------------------------------
// Tables of plain integers.

/// Whether constraint record `i` at `base` names one of `type_count` types.
pub open spec fn constraint_ok(body: Seq<u8>, base: int, type_count: usize, i: int) -> bool {
    record_at(body, base, 4, i) && 0 <= le_i32(body, base + 4 * i) < (type_count as i32)
}

/// The number of the `count` constraint records at `base` that lie in `body` and name one of
/// `type_count` types.
pub fn score_generic_constraint_table(body: &[u8], base: usize, count: usize, type_count: usize) -> (r: usize)
    ensures
        r == count_where(count as nat, |i: int| constraint_ok(body@, base as int, type_count, i)),
{
    let ghost p = |i: int| constraint_ok(body@, base as int, type_count, i);
    let limit = #[verifier::truncate] (type_count as i32);
    let mut total: usize = 0;
    let mut i: usize = 0;
    while i < count
        invariant
            i <= count,
            total <= i,
            limit == type_count as i32,
            p == (|i: int| constraint_ok(body@, base as int, type_count, i)),
            total == count_where(i as nat, p),
        decreases count - i,
    {
        if fits(body.len(), base, 4, i) {
            let value = read_i32_at(body, base + i * 4);
            if 0 <= value && value < limit {
                total = total + 1;
            }
        }
        i = i + 1;
    }
    total
}

/// Whether interface record `i` at `base` lies in `body` and names a plausible type.
pub open spec fn interface_entry_ok(body: Seq<u8>, base: int, i: int) -> bool {
    record_at(body, base, 4, i) && 0 <= le_i32(body, base + 4 * i) < 10_000_000
}

/// The number of the `count` interface records at `base` that lie in `body` and name a
/// plausible type.
pub fn score_interface_table(body: &[u8], base: usize, count: usize) -> (r: usize)
    ensures
        r == count_where(count as nat, |i: int| interface_entry_ok(body@, base as int, i)),
{
    let ghost p = |i: int| interface_entry_ok(body@, base as int, i);
    let mut total: usize = 0;
    let mut i: usize = 0;
    while i < count
        invariant
            i <= count,
            total <= i,
            p == (|i: int| interface_entry_ok(body@, base as int, i)),
            total == count_where(i as nat, p),
        decreases count - i,
    {
        if fits(body.len(), base, 4, i) {
            let value = read_i32_at(body, base + i * 4);
            if 0 <= value && value < 10_000_000 {
                total = total + 1;
            }
        }
        i = i + 1;
    }
    total
}

/// Whether vtable record `i` at `base` lies in `body`, has usage kind 0, 3 or 6 and, unless
/// it is a generic-method entry, names a plausible method.
pub open spec fn vtable_entry_plausible(body: Seq<u8>, base: int, i: int) -> bool {
    let encoded = le_u32(body, base + 4 * i);
    let usage = encoded >> 29u32;
    &&& record_at(body, base, 4, i)
    &&& (usage == 0 || usage == 3 || usage == 6)
    &&& (usage == 6 || (encoded & 0x1fff_ffff) < 10_000_000)
}

/// The number of the `count` vtable records at `base` that are plausible.
pub fn vtable_score(body: &[u8], base: usize, count: usize) -> (r: usize)
    ensures
        r == count_where(count as nat, |i: int| vtable_entry_plausible(body@, base as int, i)),
{
    let ghost p = |i: int| vtable_entry_plausible(body@, base as int, i);
    let mut total: usize = 0;
    let mut i: usize = 0;
    while i < count
        invariant
            i <= count,
            total <= i,
            p == (|i: int| vtable_entry_plausible(body@, base as int, i)),
            total == count_where(i as nat, p),
        decreases count - i,
    {
        if fits(body.len(), base, 4, i) {
            let encoded = read_u32_at(body, base + i * 4);
            let usage = encoded >> 29u32;
            let method = encoded & 0x1fff_ffff;
            if (usage == 0 || usage == 3 || usage == 6) && (usage == 6 || method < 10_000_000) {
                total = total + 1;
            }
        }
        i = i + 1;
    }
    total
}

/// Whether interface-offset record `i` at `base` lies in `body`, names a plausible type and
/// has a slot offset that is not negative.
pub open spec fn interface_offset_ok(body: Seq<u8>, base: int, i: int) -> bool {
    &&& record_at(body, base, 6, i)
    &&& 0 <= le_i32(body, base + 6 * i) < 10_000_000
    &&& le_i16(body, base + 6 * i + 4) >= 0
}

/// The number of the `count` interface-offset records at `base` that are plausible.
pub fn score_interface_offset_table(body: &[u8], base: usize, count: usize) -> (r: usize)
    ensures
        r == count_where(count as nat, |i: int| interface_offset_ok(body@, base as int, i)),
{
    let ghost p = |i: int| interface_offset_ok(body@, base as int, i);
    let mut total: usize = 0;
    let mut i: usize = 0;
    while i < count
        invariant
            i <= count,
            total <= i,
            p == (|i: int| interface_offset_ok(body@, base as int, i)),
            total == count_where(i as nat, p),
        decreases count - i,
    {
        if fits(body.len(), base, 6, i) {
            let offset = base + i * 6;
            let type_index = read_i32_at(body, offset);
            if 0 <= type_index && type_index < 10_000_000 && read_i16_at(body, offset + 4) >= 0 {
                total = total + 1;
            }
        }
        i = i + 1;
    }
    total
}

/// Whether default-value record `i` at `base` lies in `body` and has a type that is not
/// negative, an owner among `owner_count` (at +8 for fields, +4 for parameters) and a data
/// index of at least -1 (at +4 for fields, +8 for parameters).
pub open spec fn default_record_ok(body: Seq<u8>, base: int, owner_count: usize, field: bool, i: int) -> bool {
    let record = base + 12 * i;
    let owner_offset = if field { 8int } else { 4int };
    let data_offset = if field { 4int } else { 8int };
    &&& record_at(body, base, 12, i)
    &&& le_i32(body, record) >= 0
    &&& 0 <= le_i32(body, record + owner_offset) < (owner_count as i32)
    &&& le_i32(body, record + data_offset) >= -1
}

/// Whether all `count` default-value records at `base` are sound.
pub fn valid_default_records(body: &[u8], base: usize, count: usize, owner_count: usize, field: bool) -> (r: bool)
    ensures
        r == (forall|i: int| 0 <= i < count ==> #[trigger] default_record_ok(body@, base as int, owner_count, field, i)),
{
    let limit = #[verifier::truncate] (owner_count as i32);
    let owner_offset: usize = if field { 8 } else { 4 };
    let data_offset: usize = if field { 4 } else { 8 };
    let mut i: usize = 0;
    while i < count
        invariant
            i <= count,
            limit == owner_count as i32,
            owner_offset == (if field { 8usize } else { 4usize }),
            data_offset == (if field { 4usize } else { 8usize }),
            forall|j: int| 0 <= j < i ==> #[trigger] default_record_ok(body@, base as int, owner_count, field, j),
        decreases count - i,
    {
        if !fits(body.len(), base, 12, i) {
            assert(!default_record_ok(body@, base as int, owner_count, field, i as int));
            return false;
        }
        let record = base + i * 12;
        let owner = read_i32_at(body, record + owner_offset);
        if !(read_i32_at(body, record) >= 0 && 0 <= owner && owner < limit && read_i32_at(body, record + data_offset) >= -1) {
            assert(!default_record_ok(body@, base as int, owner_count, field, i as int));
            return false;
        }
        i = i + 1;
    }
    true
}

/// The largest value that is not negative among the four-byte values at `base + 12 * i + at`
/// for `i < n` that lie in `body`; 0 when there is none.
pub open spec fn largest_index(body: Seq<u8>, base: int, at: int, n: nat) -> nat
    decreases n,
{
    if n == 0 {
        0
    } else {
        let earlier = largest_index(body, base, at, (n - 1) as nat);
        let offset = base + 12 * (n - 1) + at;
        let value = le_i32(body, offset);
        if in_bounds(body, offset, 4) && value >= 0 && value > earlier {
            value as nat
        } else {
            earlier
        }
    }
}

fn largest_index_of(body: &[u8], base: usize, at: usize, count: usize) -> (r: usize)
    requires
        at == 4 || at == 8,
    ensures
        r == largest_index(body@, base as int, at as int, count as nat),
{
    let mut maximum: usize = 0;
    let mut i: usize = 0;
    while i < count
        invariant
            i <= count,
            at == 4 || at == 8,
            maximum == largest_index(body@, base as int, at as int, i as nat),
            maximum <= i32::MAX,
        decreases count - i,
    {
        assert(body@.len() == body.len());
        if base <= body.len() && i <= (body.len() - base) / 12 && (body.len() - base) - i * 12 >= at + 4 {
            let value = read_i32_at(body, base + i * 12 + at);
            if value >= 0 && value as usize > maximum {
                maximum = value as usize;
            }
        } else {
            assert(!in_bounds(body@, base + 12 * i + at, 4));
        }
        i = i + 1;
    }
    maximum
}

/// The largest data index of the field defaults (at +4) and parameter defaults (at +8).
pub fn maximum_default_data_index(
    body: &[u8],
    field_base: usize,
    field_count: usize,
    parameter_base: usize,
    parameter_count: usize,
) -> (r: usize)
    ensures
        r == vstd::math::max(
            largest_index(body@, field_base as int, 4, field_count as nat) as int,
            largest_index(body@, parameter_base as int, 8, parameter_count as nat) as int,
        ),
{
    let fields = largest_index_of(body, field_base, 4, field_count);
    let parameters = largest_index_of(body, parameter_base, 8, parameter_count);
    if fields > parameters {
        fields
    } else {
        parameters
    }
}

/// Whether the four-byte value `i` at `base` lies in `body` and is not negative.
pub open spec fn map_entry_ok(body: Seq<u8>, base: int, i: int) -> bool {
    record_at(body, base, 4, i) && le_i32(body, base + 4 * i) >= 0
}

/// The largest of the first `n` four-byte values at `base`, and 0 when it is smaller.
pub open spec fn largest_map_entry(body: Seq<u8>, base: int, n: nat) -> int
    decreases n,
{
    if n == 0 {
        0
    } else {
        let rest = largest_map_entry(body, base, (n - 1) as nat);
        let value = le_i32(body, base + 4 * (n - 1)) as int;
        if value > rest {
            value
        } else {
            rest
        }
    }
}

/// The largest of the `count` four-byte values at `base`, when all lie in `body` and none is
/// negative.
pub fn maximum_field_map_index(body: &[u8], base: usize, count: usize) -> (r: Option<usize>)
    ensures
        r matches Some(m) ==> m == largest_map_entry(body@, base as int, count as nat),
        r is Some <==> forall|i: int| 0 <= i < count ==> #[trigger] map_entry_ok(body@, base as int, i),
        r matches Some(m) ==> (forall|i: int| 0 <= i < count ==> #[trigger] le_i32(body@, base + 4 * i) <= m)
            && (m == 0 || exists|i: int| 0 <= i < count && #[trigger] le_i32(body@, base + 4 * i) == m),
{
    let mut maximum: usize = 0;
    let mut i: usize = 0;
    while i < count
        invariant
            i <= count,
            forall|j: int| 0 <= j < i ==> #[trigger] map_entry_ok(body@, base as int, j),
            forall|j: int| 0 <= j < i ==> #[trigger] le_i32(body@, base + 4 * j) <= maximum,
            maximum == 0 || exists|j: int| 0 <= j < i && #[trigger] le_i32(body@, base + 4 * j) == maximum,
            maximum <= i32::MAX,
            maximum == largest_map_entry(body@, base as int, i as nat),
        decreases count - i,
    {
        if !fits(body.len(), base, 4, i) {
            assert(!map_entry_ok(body@, base as int, i as int));
            return None;
        }
        let value = read_i32_at(body, base + i * 4);
        assert(le_i32(body@, base + 4 * i) == value);
        if value < 0 {
            assert(!map_entry_ok(body@, base as int, i as int));
            return None;
        }
        assert(map_entry_ok(body@, base as int, i as int));
        if value as usize > maximum {
            maximum = value as usize;
        }
        i = i + 1;
    }
    Some(maximum)
}

/// Whether field-offset map record `index` at `base` lies in `body` and points at most
/// `field_count` fields in.
pub open spec fn field_map_entry_ok(body: Seq<u8>, base: int, field_count: usize, index: int) -> bool {
    let value = le_i32(body, base + 12 * index + 8);
    record_at(body, base, 12, index) && value >= 0 && value <= field_count
}

/// The number of sampled field-offset map records that are plausible.
pub fn score_field_offset_map(body: &[u8], base: usize, count: usize, field_count: usize) -> (r: usize)
    ensures
        r == count_where(
            samples(count as nat, 4096).len(),
            |k: int| field_map_entry_ok(body@, base as int, field_count, samples(count as nat, 4096)[k] as int),
        ),
{
    let indices = sample_indices(count, 4096);
    let ghost p = |k: int| field_map_entry_ok(body@, base as int, field_count, samples(count as nat, 4096)[k] as int);
    let mut total: usize = 0;
    let mut k: usize = 0;
    while k < indices.len()
        invariant
            k <= indices@.len(),
            indices@ == samples(count as nat, 4096),
            total <= k,
            p == (|k: int| field_map_entry_ok(body@, base as int, field_count, samples(count as nat, 4096)[k] as int)),
            total == count_where(k as nat, p),
        decreases indices.len() - k,
    {
        let index = indices[k];
        if fits(body.len(), base, 12, index) {
            let value = read_i32_at(body, base + index * 12 + 8);
            if value >= 0 && value as usize <= field_count {
                total = total + 1;
            }
        }
        k = k + 1;
    }
    total
}

/// The score of parameter record `index` at `base`: 4 when its name is the no-string value,
/// and 1 more when its type index is plausible; 0 when it does not lie in `body`.
pub open spec fn parameter_record_score(body: Seq<u8>, base: int, index: int) -> nat {
    let record = base + 8 * index;
    let term = parameter_term_spec(index as u64);
    let name = (le_u32(body, record + 4) ^ 0x7103_092e).wrapping_sub(term);
    let type_index = ((le_u32(body, record) ^ 0x67e9_0dc5).wrapping_sub(term)) as i32;
    if record_at(body, base, 8, index) {
        (if name == u32::MAX { 4nat } else { 0 }) + (if 0 <= type_index < 10_000_000 { 1nat } else { 0 })
    } else {
        0
    }
}

/// The total score of the sampled parameter records.
pub fn score_parameter_table(body: &[u8], base: usize, count: usize) -> (r: usize)
    ensures
        r == sum_at(samples(count as nat, 2048), |i: int| parameter_record_score(body@, base as int, i), samples(count as nat, 2048).len()),
{
    let indices = sample_indices(count, 2048);
    let ghost f = |i: int| parameter_record_score(body@, base as int, i);
    let mut total: usize = 0;
    let mut k: usize = 0;
    while k < indices.len()
        invariant
            k <= indices@.len(),
            indices@ == samples(count as nat, 2048),
            total <= 5 * k,
            f == (|i: int| parameter_record_score(body@, base as int, i)),
            total == sum_at(indices@, f, k as nat),
        decreases indices.len() - k,
    {
        let index = indices[k];
        if fits(body.len(), base, 8, index) {
            let record = base + index * 8;
            let term = parameter_term(index);
            let name = (read_u32_at(body, record + 4) ^ 0x7103_092e).wrapping_sub(term);
            let type_index = #[verifier::truncate] (((read_u32_at(body, record) ^ 0x67e9_0dc5).wrapping_sub(term)) as i32);
            let mut score: usize = 0;
            if name == u32::MAX {
                score = 4;
            }
            if 0 <= type_index && type_index < 10_000_000 {
                score = score + 1;
            }
            total = total + score;
        }
        k = k + 1;
    }
    total
}

/// Whether generic-container record `index` at `base` lies in `body`, has between 1 and 1023
/// parameters and a parameter range that ends by `parameter_count`.
pub open spec fn container_record_plausible(body: Seq<u8>, base: int, parameter_count: usize, index: int) -> bool {
    let record = base + 16 * index;
    let key = container_term(index as u64);
    let length = (le_u32(body, record).wrapping_sub(214_875_017) ^ key) as usize;
    let start = (le_u32(body, record + 12).wrapping_sub(248_843_855) ^ key) as usize;
    &&& record_at(body, base, 16, index)
    &&& length > 0
    &&& length < 1024
    &&& start + length <= parameter_count
}

/// The number of sampled generic-container records that are plausible.
pub fn score_generic_container_table(body: &[u8], base: usize, count: usize, parameter_count: usize) -> (r: usize)
    ensures
        r == count_where(
            samples(count as nat, 4096).len(),
            |k: int| container_record_plausible(body@, base as int, parameter_count, samples(count as nat, 4096)[k] as int),
        ),
{
    let indices = sample_indices(count, 4096);
    let ghost p = |k: int| container_record_plausible(body@, base as int, parameter_count, samples(count as nat, 4096)[k] as int);
    let mut total: usize = 0;
    let mut k: usize = 0;
    while k < indices.len()
        invariant
            k <= indices@.len(),
            indices@ == samples(count as nat, 4096),
            total <= k,
            p == (|k: int| container_record_plausible(body@, base as int, parameter_count, samples(count as nat, 4096)[k] as int)),
            total == count_where(k as nat, p),
        decreases indices.len() - k,
    {
        let index = indices[k];
        if fits(body.len(), base, 16, index) {
            let record = base + index * 16;
            let key = crate::reconstruction::generics::container_key(index as u64);
            let length = (read_u32_at(body, record).wrapping_sub(214_875_017) ^ key) as usize;
            let start = (read_u32_at(body, record + 12).wrapping_sub(248_843_855) ^ key) as usize;
            if length > 0 && length < 1024 && start <= parameter_count && length <= parameter_count - start {
                total = total + 1;
            }
        }
        k = k + 1;
    }
    total
}


// ---------------------------------------------------------------------------------------------
// Tables with names.

/// Whether no character of `s` is an ASCII control character.
pub open spec fn no_ascii_control(s: Seq<char>) -> bool {
    forall|i: int| 0 <= i < s.len() ==> !(#[trigger] s[i] <= '\x1f' || s[i] == '\x7f')
}

fn has_no_ascii_control(s: &str) -> (r: bool)
    ensures
        r == no_ascii_control(s@),
{
    let n = s.unicode_len();
    let mut i: usize = 0;
    while i < n
        invariant
            i <= n,
            n == s@.len(),
            forall|j: int| 0 <= j < i ==> !(#[trigger] s@[j] <= '\x1f' || s@[j] == '\x7f'),
        decreases n - i,
    {
        let c = s.get_char(i);
        if c <= '\x1f' || c == '\x7f' {
            return false;
        }
        i = i + 1;
    }
    true
}

/// Whether a name is present and free of control characters.
pub open spec fn readable_name(s: Seq<char>) -> bool {
    s.len() != 0 && no_ascii_control(s)
}

fn is_readable_name(s: &String) -> (r: bool)
    ensures
        r == readable_name(s@),
{
    !s.as_str().is_empty() && has_no_ascii_control(s.as_str())
}

/// The score of generic-parameter record `index` at `base`: 4 for a name, and 1 each for an
/// owner that is not negative, an ordinal below 1024 and flags below 0x100.
pub open spec fn generic_parameter_record_score(body: Seq<u8>, names: Seq<u8>, table: nat, base: int, index: int) -> nat {
    let record = base + 14 * index;
    let key = generic_parameter_term(index as u64);
    let name_index = le_u32(body, record).wrapping_sub(key as u32).wrapping_sub(1_149_796_643);
    let container = ((le_u16(body, record + 8) ^ 0x7526).wrapping_sub(key as u16)) as i16;
    let number = (le_u16(body, record + 10) ^ 0xbd3b).wrapping_sub(key as u16);
    let flags = (le_u16(body, record + 12) ^ 0x7af7).wrapping_sub(key as u16);
    if record_at(body, base, 14, index) {
        (if decrypted_string(names, table, name_index).len() != 0 { 4nat } else { 0 }) + (if container >= 0 { 1nat } else { 0 })
            + (if number < 1024 { 1nat } else { 0 }) + (if flags < 0x100 { 1nat } else { 0 })
    } else {
        0
    }
}

/// The total score of the sampled generic-parameter records.
pub fn score_generic_parameter_table(body: &[u8], decryptor: &StringDecryptor, base: usize, count: usize) -> (r: usize)
    ensures
        r == sum_at(
            samples(count as nat, 4096),
            |i: int| generic_parameter_record_score(body@, decryptor.body(), decryptor.table(), base as int, i),
            samples(count as nat, 4096).len(),
        ),
{
    let indices = sample_indices(count, 4096);
    let ghost f = |i: int| generic_parameter_record_score(body@, decryptor.body(), decryptor.table(), base as int, i);
    let mut total: usize = 0;
    let mut k: usize = 0;
    while k < indices.len()
        invariant
            k <= indices@.len(),
            indices@ == samples(count as nat, 4096),
            total <= 7 * k,
            f == (|i: int| generic_parameter_record_score(body@, decryptor.body(), decryptor.table(), base as int, i)),
            total == sum_at(indices@, f, k as nat),
        decreases indices.len() - k,
    {
        let index = indices[k];
        if fits(body.len(), base, 14, index) {
            let record = base + index * 14;
            let key = generic_parameter_key(index);
            let name_key = #[verifier::truncate] (key as u32);
            let key16 = #[verifier::truncate] (key as u16);
            let name_index = read_u32_at(body, record).wrapping_sub(name_key).wrapping_sub(1_149_796_643);
            let container = #[verifier::truncate] (((read_u16_at(body, record + 8) ^ 0x7526).wrapping_sub(key16)) as i16);
            let number = (read_u16_at(body, record + 10) ^ 0xbd3b).wrapping_sub(key16);
            let flags = (read_u16_at(body, record + 12) ^ 0x7af7).wrapping_sub(key16);
            let name = decryptor.decrypt_string(name_index);
            let mut score: usize = 0;
            if !name.as_str().is_empty() {
                score = 4;
            }
            if container >= 0 {
                score = score + 1;
            }
            if number < 1024 {
                score = score + 1;
            }
            if flags < 0x100 {
                score = score + 1;
            }
            total = total + score;
        }
        k = k + 1;
    }
    total
}

/// Whether an accessor is none or a method index no greater than `method_count`.
pub open spec fn accessor_plausible(accessor: i32, method_count: usize) -> bool {
    accessor < 0 || accessor <= method_count
}

/// The score of property record `index` at `base`: 4 for a name, and 1 for each plausible
/// accessor.
pub open spec fn property_record_score(body: Seq<u8>, names: Seq<u8>, table: nat, base: int, method_count: usize, index: int) -> nat {
    let record = base + 10 * index;
    let key = property_key_spec(index as u64);
    let name_index = (le_u32(body, record) ^ 0x6199_063c).wrapping_sub(key as u32);
    let set = accessor_spec(le_u16(body, record + 4) ^ 0x4b8f, key as u16);
    let get = accessor_spec(le_u16(body, record + 6) ^ 0xfa36, key as u16);
    if record_at(body, base, 10, index) {
        (if decrypted_string(names, table, name_index).len() != 0 { 4nat } else { 0 }) + (if accessor_plausible(set, method_count) { 1nat } else { 0 })
            + (if accessor_plausible(get, method_count) { 1nat } else { 0 })
    } else {
        0
    }
}

/// The total score of the sampled property records.
pub fn score_property_table(body: &[u8], decryptor: &StringDecryptor, base: usize, count: usize, method_count: usize) -> (r: usize)
    ensures
        r == sum_at(
            samples(count as nat, 1024),
            |i: int| property_record_score(body@, decryptor.body(), decryptor.table(), base as int, method_count, i),
            samples(count as nat, 1024).len(),
        ),
{
    let indices = sample_indices(count, 1024);
    let ghost f = |i: int| property_record_score(body@, decryptor.body(), decryptor.table(), base as int, method_count, i);
    let mut total: usize = 0;
    let mut k: usize = 0;
    while k < indices.len()
        invariant
            k <= indices@.len(),
            indices@ == samples(count as nat, 1024),
            total <= 6 * k,
            f == (|i: int| property_record_score(body@, decryptor.body(), decryptor.table(), base as int, method_count, i)),
            total == sum_at(indices@, f, k as nat),
        decreases indices.len() - k,
    {
        let index = indices[k];
        if fits(body.len(), base, 10, index) {
            let record = base + index * 10;
            let key = property_key(index);
            let key16 = #[verifier::truncate] (key as u16);
            let name_index = (read_u32_at(body, record) ^ 0x6199_063c).wrapping_sub(#[verifier::truncate] (key as u32));
            let set = super::decode_member_accessor(read_u16_at(body, record + 4) ^ 0x4b8f, key);
            let get = super::decode_member_accessor(read_u16_at(body, record + 6) ^ 0xfa36, key);
            let name = decryptor.decrypt_string(name_index);
            let mut score: usize = 0;
            if !name.as_str().is_empty() {
                score = 4;
            }
            if set < 0 || set as usize <= method_count {
                score = score + 1;
            }
            if get < 0 || get as usize <= method_count {
                score = score + 1;
            }
            total = total + score;
        }
        k = k + 1;
    }
    total
}

/// The score of event record `index` at `base`: 4 for a name, and 1 for each plausible
/// accessor (add, remove, raise).
pub open spec fn event_record_score(body: Seq<u8>, names: Seq<u8>, table: nat, base: int, method_count: usize, index: int) -> nat {
    let record = base + 14 * index;
    let key = event_key_spec(index as u64);
    let name_index = (le_u32(body, record) ^ 0x0789_81cb).wrapping_sub(key as u32);
    let add = accessor_spec(le_u16(body, record + 8) ^ 0x8450, key as u16);
    let remove = accessor_spec(le_u16(body, record + 10) ^ 0xe8cb, key as u16);
    let raise = accessor_spec(le_u16(body, record + 12) ^ 0x3ce2, key as u16);
    if record_at(body, base, 14, index) {
        (if decrypted_string(names, table, name_index).len() != 0 { 4nat } else { 0 }) + (if accessor_plausible(add, method_count) { 1nat } else { 0 })
            + (if accessor_plausible(remove, method_count) { 1nat } else { 0 })
            + (if accessor_plausible(raise, method_count) { 1nat } else { 0 })
    } else {
        0
    }
}

/// The total score of the sampled event records.
pub fn score_event_table(body: &[u8], decryptor: &StringDecryptor, base: usize, count: usize, method_count: usize) -> (r: usize)
    ensures
        r == sum_at(
            samples(count as nat, 1024),
            |i: int| event_record_score(body@, decryptor.body(), decryptor.table(), base as int, method_count, i),
            samples(count as nat, 1024).len(),
        ),
{
    let indices = sample_indices(count, 1024);
    let ghost f = |i: int| event_record_score(body@, decryptor.body(), decryptor.table(), base as int, method_count, i);
    let mut total: usize = 0;
    let mut k: usize = 0;
    while k < indices.len()
        invariant
            k <= indices@.len(),
            indices@ == samples(count as nat, 1024),
            total <= 7 * k,
            f == (|i: int| event_record_score(body@, decryptor.body(), decryptor.table(), base as int, method_count, i)),
            total == sum_at(indices@, f, k as nat),
        decreases indices.len() - k,
    {
        let index = indices[k];
        if fits(body.len(), base, 14, index) {
            let record = base + index * 14;
            let key = event_key(index);
            let name_index = (read_u32_at(body, record) ^ 0x0789_81cb).wrapping_sub(#[verifier::truncate] (key as u32));
            let add = super::decode_member_accessor(read_u16_at(body, record + 8) ^ 0x8450, key);
            let remove = super::decode_member_accessor(read_u16_at(body, record + 10) ^ 0xe8cb, key);
            let raise = super::decode_member_accessor(read_u16_at(body, record + 12) ^ 0x3ce2, key);
            let name = decryptor.decrypt_string(name_index);
            let mut score: usize = 0;
            if !name.as_str().is_empty() {
                score = 4;
            }
            if add < 0 || add as usize <= method_count {
                score = score + 1;
            }
            if remove < 0 || remove as usize <= method_count {
                score = score + 1;
            }
            if raise < 0 || raise as usize <= method_count {
                score = score + 1;
            }
            total = total + score;
        }
        k = k + 1;
    }
    total
}

/// The score of type record `index` at `base`: 4 for a readable name, 1 for a namespace
/// free of control characters, 2 for method and field counts below 4096.
pub open spec fn type_record_score(body: Seq<u8>, names: Seq<u8>, table: nat, base: int, index: int) -> nat {
    let record = base + 70 * index;
    let name = decrypted_string(names, table, le_u32(body, record + 40).wrapping_sub(369_268_488));
    let namespace = decrypted_string(names, table, le_u32(body, record + 36).wrapping_add(0xf1d3_2d89));
    let method_count = le_u16(body, record + 52).wrapping_add(24_467);
    let field_count = le_u16(body, record + 50).wrapping_add(17_485);
    if record_at(body, base, 70, index) {
        (if readable_name(name) { 4nat } else { 0 }) + (if no_ascii_control(namespace) { 1nat } else { 0 })
            + (if method_count < 4096 && field_count < 4096 { 2nat } else { 0 })
    } else {
        0
    }
}

/// The total score of the sampled type records.
pub fn score_type_table(body: &[u8], decryptor: &StringDecryptor, base: usize, count: usize) -> (r: usize)
    ensures
        r == sum_at(
            samples(count as nat, 512),
            |i: int| type_record_score(body@, decryptor.body(), decryptor.table(), base as int, i),
            samples(count as nat, 512).len(),
        ),
{
    let indices = sample_indices(count, 512);
    let ghost f = |i: int| type_record_score(body@, decryptor.body(), decryptor.table(), base as int, i);
    let mut total: usize = 0;
    let mut k: usize = 0;
    while k < indices.len()
        invariant
            k <= indices@.len(),
            indices@ == samples(count as nat, 512),
            total <= 7 * k,
            f == (|i: int| type_record_score(body@, decryptor.body(), decryptor.table(), base as int, i)),
            total == sum_at(indices@, f, k as nat),
        decreases indices.len() - k,
    {
        let index = indices[k];
        if fits(body.len(), base, 70, index) {
            let record = base + index * 70;
            let name = decryptor.decrypt_string(read_u32_at(body, record + 40).wrapping_sub(369_268_488));
            let namespace = decryptor.decrypt_string(read_u32_at(body, record + 36).wrapping_add(0xf1d3_2d89));
            let mut score: usize = 0;
            if is_readable_name(&name) {
                score = 4;
            }
            if has_no_ascii_control(namespace.as_str()) {
                score = score + 1;
            }
            let method_count = read_u16_at(body, record + 52).wrapping_add(24_467);
            let field_count = read_u16_at(body, record + 50).wrapping_add(17_485);
            if method_count < 4096 && field_count < 4096 {
                score = score + 2;
            }
            total = total + score;
        }
        k = k + 1;
    }
    total
}

/// The score of method record `index` at `base`: 4 for a readable name, 1 for fewer than 64
/// parameters.
pub open spec fn method_record_score(body: Seq<u8>, names: Seq<u8>, table: nat, base: int, index: int) -> nat {
    let record = base + 26 * index;
    let term = method_term(index as u128);
    let name = decrypted_string(names, table, le_u32(body, record) ^ term ^ 0x0e71_4bc1);
    let parameter_count = body[record + 24] ^ (term as u8) ^ 0xa8;
    if record_at(body, base, 26, index) {
        (if readable_name(name) { 4nat } else { 0 }) + (if parameter_count < 64 { 1nat } else { 0 })
    } else {
        0
    }
}

/// The total score of the sampled method records.
pub fn score_method_table(body: &[u8], decryptor: &StringDecryptor, base: usize, count: usize) -> (r: usize)
    ensures
        r == sum_at(
            samples(count as nat, 1024),
            |i: int| method_record_score(body@, decryptor.body(), decryptor.table(), base as int, i),
            samples(count as nat, 1024).len(),
        ),
{
    let indices = sample_indices(count, 1024);
    let ghost f = |i: int| method_record_score(body@, decryptor.body(), decryptor.table(), base as int, i);
    let mut total: usize = 0;
    let mut k: usize = 0;
    while k < indices.len()
        invariant
            k <= indices@.len(),
            indices@ == samples(count as nat, 1024),
            total <= 5 * k,
            f == (|i: int| method_record_score(body@, decryptor.body(), decryptor.table(), base as int, i)),
            total == sum_at(indices@, f, k as nat),
        decreases indices.len() - k,
    {
        let index = indices[k];
        if fits(body.len(), base, 26, index) {
            let record = base + index * 26;
            let term = calc_term(index);
            let name = decryptor.decrypt_string(read_u32_at(body, record) ^ term ^ 0x0e71_4bc1);
            let parameter_count = body[record + 24] ^ (#[verifier::truncate] (term as u8)) ^ 0xa8;
            let mut score: usize = 0;
            if is_readable_name(&name) {
                score = 4;
            }
            if parameter_count < 64 {
                score = score + 1;
            }
            total = total + score;
        }
        k = k + 1;
    }
    total
}


// ---------------------------------------------------------------------------------------------
// Fields and their offsets.

/// The first `f` fields of a type read at `field_base` from field `start` on: the score so far
/// (4 for a readable name, 1 for a plausible type), the number of fields read, and the key for
/// the next field. Fields that do not lie in `body` are passed over and keep the key.
pub open spec fn fields_scan(body: Seq<u8>, names: Seq<u8>, table: nat, field_base: int, start: int, key0: u32, f: nat) -> (nat, nat, u32)
    decreases f,
{
    if f == 0 {
        (0, 0, key0)
    } else {
        let (score, sampled, key) = fields_scan(body, names, table, field_base, start, key0, (f - 1) as nat);
        let offset = field_base + 8 * (start + f - 1);
        if offset + 8 <= body.len() {
            let name = decrypted_string(names, table, key.wrapping_add(le_u32(body, offset)).wrapping_add(716_162_949));
            let type_index = key.wrapping_add(le_u32(body, offset + 4)) as i32;
            (
                score + (if readable_name(name) { 4nat } else { 0 }) + (if 0 <= type_index < 10_000_000 { 1nat } else { 0 }),
                sampled + 1,
                key.wrapping_sub(744_344_320),
            )
        } else {
            (score, sampled, key)
        }
    }
}

/// The score and number of fields read of sampled type `type_index`: its first eight fields.
pub open spec fn type_fields_sample(body: Seq<u8>, names: Seq<u8>, table: nat, type_base: int, field_base: int, type_index: int) -> (nat, nat) {
    let record = type_base + 70 * type_index;
    let raw_start = le_i32(body, record + 32);
    let start = (raw_start as u32).wrapping_sub(1_954_887_780) as usize;
    let count = le_u16(body, record + 50).wrapping_add(17_485);
    let key0 = (-1_388_221_511i32).wrapping_sub(744_344_320i32.wrapping_mul(raw_start)) as u32;
    if record_at(body, type_base, 70, type_index) {
        let (score, sampled, _) = fields_scan(body, names, table, field_base, start as int, key0, vstd::math::min(count as int, 8) as nat);
        (score, sampled)
    } else {
        (0, 0)
    }
}

fn fields_scan_of(body: &[u8], decryptor: &StringDecryptor, field_base: usize, start: usize, key0: u32, count: usize) -> (r: (usize, usize))
    requires
        count <= 8,
    ensures
        ({
            let (score, sampled, _) = fields_scan(body@, decryptor.body(), decryptor.table(), field_base as int, start as int, key0, count as nat);
            r.0 == score && r.1 == sampled
        }),
{
    let mut score: usize = 0;
    let mut sampled: usize = 0;
    let mut key = key0;
    let mut field: usize = 0;
    while field < count
        invariant
            field <= count,
            count <= 8,
            score <= 5 * field,
            sampled <= field,
            fields_scan(body@, decryptor.body(), decryptor.table(), field_base as int, start as int, key0, field as nat) == (score as nat, sampled as nat, key),
        decreases count - field,
    {
        assert(body@.len() == body.len());
        if start <= usize::MAX - field && start + field <= usize::MAX / 8 && field_base <= usize::MAX - (start + field) * 8 {
            let offset = field_base + (start + field) * 8;
            if offset <= body.len() && body.len() - offset >= 8 {
                let name = decryptor.decrypt_string(key.wrapping_add(read_u32_at(body, offset)).wrapping_add(716_162_949));
                let type_index = #[verifier::truncate] (key.wrapping_add(read_u32_at(body, offset + 4)) as i32);
                if is_readable_name(&name) {
                    score = score + 4;
                }
                if 0 <= type_index && type_index < 10_000_000 {
                    score = score + 1;
                }
                sampled = sampled + 1;
                key = key.wrapping_sub(744_344_320);
            }
        }
        field = field + 1;
    }
    (score, sampled)
}

/// The score of the sampled fields of type `type_index`, and how many were read.
pub open spec fn field_scores(body: Seq<u8>, names: Seq<u8>, table: nat, type_base: int, field_base: int) -> spec_fn(int) -> nat {
    |i: int| type_fields_sample(body, names, table, type_base, field_base, i).0
}

/// How many fields of type `type_index` were read.
pub open spec fn field_reads(body: Seq<u8>, names: Seq<u8>, table: nat, type_base: int, field_base: int) -> spec_fn(int) -> nat {
    |i: int| type_fields_sample(body, names, table, type_base, field_base, i).1
}

/// Rates a field table at `field_base` by the first eight fields of each sampled type: the
/// sum of their scores, plus 1 when any field was read.
pub fn score_field_table(body: &[u8], decryptor: &StringDecryptor, type_base: usize, type_count: usize, field_base: usize) -> (r: usize)
    ensures
        ({
            let indices = samples(type_count as nat, 1024);
            let names = decryptor.body();
            let table = decryptor.table();
            let score = sum_at(indices, field_scores(body@, names, table, type_base as int, field_base as int), indices.len());
            let sampled = sum_at(indices, field_reads(body@, names, table, type_base as int, field_base as int), indices.len());
            r == score + (if sampled > 0 { 1nat } else { 0 })
        }),
{
    let indices = sample_indices(type_count, 1024);
    let ghost f = field_scores(body@, decryptor.body(), decryptor.table(), type_base as int, field_base as int);
    let ghost g = field_reads(body@, decryptor.body(), decryptor.table(), type_base as int, field_base as int);
    let mut score: usize = 0;
    let mut sampled: usize = 0;
    let mut k: usize = 0;
    while k < indices.len()
        invariant
            k <= indices@.len(),
            indices@ == samples(type_count as nat, 1024),
            score <= 40 * k,
            sampled <= 8 * k,
            f == field_scores(body@, decryptor.body(), decryptor.table(), type_base as int, field_base as int),
            g == field_reads(body@, decryptor.body(), decryptor.table(), type_base as int, field_base as int),
            score == sum_at(indices@, f, k as nat),
            sampled == sum_at(indices@, g, k as nat),
        decreases indices.len() - k,
    {
        let type_index = indices[k];
        if fits(body.len(), type_base, 70, type_index) {
            let record = type_base + type_index * 70;
            let raw_start = read_i32_at(body, record + 32);
            let start = (raw_start as u32).wrapping_sub(1_954_887_780) as usize;
            let count = read_u16_at(body, record + 50).wrapping_add(17_485) as usize;
            let key0 = (-1_388_221_511i32).wrapping_sub(744_344_320i32.wrapping_mul(raw_start)) as u32;
            let limit = if count < 8 { count } else { 8 };
            let (type_score, type_sampled) = fields_scan_of(body, decryptor, field_base, start, key0, limit);
            proof {
                let (a, b, _) = fields_scan(body@, decryptor.body(), decryptor.table(), field_base as int, start as int, key0, limit as nat);
                lemma_fields_scan_bounds(body@, decryptor.body(), decryptor.table(), field_base as int, start as int, key0, limit as nat);
            }
            score = score + type_score;
            sampled = sampled + type_sampled;
        }
        k = k + 1;
    }
    if sampled > 0 {
        score + 1
    } else {
        score
    }
}

proof fn lemma_fields_scan_bounds(body: Seq<u8>, names: Seq<u8>, table: nat, field_base: int, start: int, key0: u32, f: nat)
    ensures
        fields_scan(body, names, table, field_base, start, key0, f).0 <= 5 * f,
        fields_scan(body, names, table, field_base, start, key0, f).1 <= f,
    decreases f,
{
    if f > 0 {
        lemma_fields_scan_bounds(body, names, table, field_base, start, key0, (f - 1) as nat);
    }
}


/// The field count of type record `i` at `type_base`.
pub open spec fn type_field_count(body: Seq<u8>, type_base: int, i: int) -> nat {
    le_u16(body, type_base + 70 * i + 50).wrapping_add(17_485) as nat
}

/// The first field offset of type `i`: its field-type map entry names a field-offset map
/// record whose third value is the offset index; `None` when any of these is missing or
/// negative.
pub open spec fn type_offset_index(body: Seq<u8>, type_base: int, field_type_map: int, field_offset_map: int, i: int) -> Option<nat> {
    let map_index = le_i32(body, field_type_map + 4 * i);
    let at = field_offset_map + 12 * map_index + 8;
    if !record_at(body, type_base, 70, i) || !record_at(body, field_type_map, 4, i) || map_index < 0
        || !in_bounds(body, at, 4) || le_i32(body, at) < 0 {
        None
    } else {
        Some(le_i32(body, at) as nat)
    }
}

/// The end of the furthest field-offset range of the first `n` types; `None` when a type's
/// offset index cannot be read or an end does not fit in a `usize`.
pub open spec fn field_offset_end(body: Seq<u8>, type_base: int, field_type_map: int, field_offset_map: int, n: nat) -> Option<nat>
    decreases n,
{
    if n == 0 {
        Some(0)
    } else {
        match field_offset_end(body, type_base, field_type_map, field_offset_map, (n - 1) as nat) {
            None => None,
            Some(m) => match type_offset_index(body, type_base, field_type_map, field_offset_map, n - 1) {
                None => None,
                Some(start) => {
                    let end = start + type_field_count(body, type_base, n - 1);
                    if end > usize::MAX {
                        None
                    } else {
                        Some(vstd::math::max(m as int, end as int) as nat)
                    }
                },
            },
        }
    }
}

fn type_offset_index_of(body: &[u8], type_base: usize, field_type_map: usize, field_offset_map: usize, i: usize) -> (r: Option<(usize, usize)>)
    ensures
        match type_offset_index(body@, type_base as int, field_type_map as int, field_offset_map as int, i as int) {
            None => r is None,
            Some(start) => r == Some((start as usize, type_field_count(body@, type_base as int, i as int) as usize)),
        },
{
    if !fits(body.len(), type_base, 70, i) || !fits(body.len(), field_type_map, 4, i) {
        return None;
    }
    let field_count = read_u16_at(body, type_base + i * 70 + 50).wrapping_add(17_485) as usize;
    let map_index = read_i32_at(body, field_type_map + i * 4);
    if map_index < 0 {
        return None;
    }
    let m = map_index as usize;
    assert(body@.len() == body.len());
    if field_offset_map > body.len() || m > (body.len() - field_offset_map) / 12 || (body.len() - field_offset_map) - m * 12 < 12 {
        assert(!in_bounds(body@, field_offset_map + 12 * map_index + 8, 4));
        return None;
    }
    let value = read_i32_at(body, field_offset_map + m * 12 + 8);
    if value < 0 {
        return None;
    }
    Some((value as usize, field_count))
}

/// The end of the furthest field-offset range of the `type_count` types; see
/// `field_offset_end`.
pub fn maximum_field_offset_index(body: &[u8], type_base: usize, type_count: usize, field_type_map: usize, field_offset_map: usize) -> (r: Option<usize>)
    ensures
        match field_offset_end(body@, type_base as int, field_type_map as int, field_offset_map as int, type_count as nat) {
            None => r is None,
            Some(m) => r == Some(m as usize) && m <= usize::MAX,
        },
{
    let mut maximum: usize = 0;
    let mut index: usize = 0;
    while index < type_count
        invariant
            index <= type_count,
            field_offset_end(body@, type_base as int, field_type_map as int, field_offset_map as int, index as nat) == Some(maximum as nat),
        decreases type_count - index,
    {
        match type_offset_index_of(body, type_base, field_type_map, field_offset_map, index) {
            None => {
                proof {
                    lemma_field_offset_end_fails(body@, type_base as int, field_type_map as int, field_offset_map as int, (index + 1) as nat, type_count as nat);
                }
                return None;
            },
            Some((start, field_count)) => {
                if start > usize::MAX - field_count {
                    proof {
                        lemma_field_offset_end_fails(body@, type_base as int, field_type_map as int, field_offset_map as int, (index + 1) as nat, type_count as nat);
                    }
                    return None;
                }
                let end = start + field_count;
                if end > maximum {
                    maximum = end;
                }
            },
        }
        index = index + 1;
    }
    Some(maximum)
}

proof fn lemma_field_offset_end_fails(body: Seq<u8>, type_base: int, field_type_map: int, field_offset_map: int, n: nat, m: nat)
    requires
        n <= m,
        field_offset_end(body, type_base, field_type_map, field_offset_map, n) is None,
    ensures
        field_offset_end(body, type_base, field_type_map, field_offset_map, m) is None,
    decreases m - n,
{
    if n < m {
        lemma_field_offset_end_fails(body, type_base, field_type_map, field_offset_map, n, (m - 1) as nat);
    }
}

/// The first `n` field offsets of a type from `offset_index` on in the table at `base`: the
/// score so far (1 for an offset that is the no-offset value or below 0x100000, 1 for one that
/// is not below the last real offset) and the last real offset. Offsets that do not lie in
/// `body` are passed over.
pub open spec fn offsets_scan(body: Seq<u8>, base: int, offset_index: int, n: nat) -> (nat, u32)
    decreases n,
{
    if n == 0 {
        (0, 0)
    } else {
        let (sum, previous) = offsets_scan(body, base, offset_index, (n - 1) as nat);
        let at = base + 4 * (offset_index + n - 1);
        if in_bounds(body, at, 4) {
            let offset = le_u32(body, at) & 0x00ff_ffff;
            let valid = offset == 0x00ff_ffff || offset < 0x0010_0000;
            let ordered = offset == 0x00ff_ffff || offset >= previous;
            (
                sum + (if valid { 1nat } else { 0 }) + (if ordered { 1nat } else { 0 }),
                if offset != 0x00ff_ffff { offset } else { previous },
            )
        } else {
            (sum, previous)
        }
    }
}

/// The score of the field offsets of sampled type `t`: its first 64 offsets, or 0 when its
/// offset index cannot be read.
pub open spec fn type_offsets_score(body: Seq<u8>, base: int, type_base: int, field_type_map: int, field_offset_map: int, t: int) -> nat {
    match type_offset_index(body, type_base, field_type_map, field_offset_map, t) {
        None => 0,
        Some(start) => offsets_scan(
            body,
            base,
            start as int,
            vstd::math::min(type_field_count(body, type_base, t) as int, 64) as nat,
        ).0,
    }
}

fn offsets_scan_of(body: &[u8], base: usize, offset_index: usize, n: usize) -> (r: usize)
    requires
        n <= 64,
    ensures
        r == offsets_scan(body@, base as int, offset_index as int, n as nat).0,
        r <= 2 * n,
{
    let mut sum: usize = 0;
    let mut previous: u32 = 0;
    let mut index: usize = 0;
    while index < n
        invariant
            index <= n,
            n <= 64,
            sum <= 2 * index,
            offsets_scan(body@, base as int, offset_index as int, index as nat) == (sum as nat, previous),
        decreases n - index,
    {
        assert(body@.len() == body.len());
        if offset_index <= usize::MAX - index && offset_index + index <= usize::MAX / 4 && base <= usize::MAX - (offset_index + index) * 4 {
            let at = base + (offset_index + index) * 4;
            if at <= body.len() && body.len() - at >= 4 {
                let offset = read_u32_at(body, at) & 0x00ff_ffff;
                let valid = offset == 0x00ff_ffff || offset < 0x0010_0000;
                let ordered = offset == 0x00ff_ffff || offset >= previous;
                if offset != 0x00ff_ffff {
                    previous = offset;
                }
                if valid {
                    sum = sum + 1;
                }
                if ordered {
                    sum = sum + 1;
                }
            }
        } else {
            assert(!in_bounds(body@, base + 4 * (offset_index + index), 4));
        }
        index = index + 1;
    }
    sum
}

/// Rates a field-offset table at `base` by the first 64 offsets of each sampled type.
pub fn score_field_offset_table(
    body: &[u8],
    base: usize,
    type_base: usize,
    type_count: usize,
    field_type_map: usize,
    field_offset_map: usize,
) -> (r: usize)
    ensures
        r == sum_at(
            samples(type_count as nat, 4096),
            |t: int| type_offsets_score(body@, base as int, type_base as int, field_type_map as int, field_offset_map as int, t),
            samples(type_count as nat, 4096).len(),
        ),
{
    let indices = sample_indices(type_count, 4096);
    let ghost f = |t: int| type_offsets_score(body@, base as int, type_base as int, field_type_map as int, field_offset_map as int, t);
    let mut total: usize = 0;
    let mut k: usize = 0;
    while k < indices.len()
        invariant
            k <= indices@.len(),
            indices@ == samples(type_count as nat, 4096),
            total <= 128 * k,
            f == (|t: int| type_offsets_score(body@, base as int, type_base as int, field_type_map as int, field_offset_map as int, t)),
            total == sum_at(indices@, f, k as nat),
        decreases indices.len() - k,
    {
        match type_offset_index_of(body, type_base, field_type_map, field_offset_map, indices[k]) {
            None => {},
            Some((offset_index, field_count)) => {
                let n = if field_count < 64 { field_count } else { 64 };
                let score = offsets_scan_of(body, base, offset_index, n);
                total = total + score;
            },
        }
        k = k + 1;
    }
    total
}

// ---------------------------------------------------------------------------------------------
// Generic classes and the method map.

/// Whether sampled generic-class record `index` at `base` lies in `startup`, names one of
/// `type_count` types and a generic instance that is not negative.
pub open spec fn class_record_ok(startup: Seq<u8>, base: int, type_count: usize, index: int) -> bool {
    &&& record_at(startup, base, 8, index)
    &&& 0 <= le_i32(startup, base + 8 * index) < (type_count as i32)
    &&& le_i32(startup, base + 8 * index + 4) >= 0
}

/// The number of sampled generic-class records of a table of `count` at `base` that are sound.
pub open spec fn class_table_score(startup: Seq<u8>, base: int, count: nat, type_count: usize) -> nat {
    count_where(samples(count, 4096).len(), |k: int| class_record_ok(startup, base, type_count, samples(count, 4096)[k] as int))
}

/// The scored (base, count) candidates of row `base` over the first `n` counts: a count that
/// is zero, above ten million, or whose table does not fit is passed over, and so is one
/// that scores zero.
pub open spec fn class_row(startup: Seq<u8>, base: u32, counts: Seq<u32>, type_count: usize, n: nat) -> Seq<(usize, (usize, usize))>
    decreases n,
{
    if n == 0 {
        Seq::empty()
    } else {
        let earlier = class_row(startup, base, counts, type_count, (n - 1) as nat);
        let count = counts[n - 1];
        let score = class_table_score(startup, base as int, count as nat, type_count);
        if count == 0 || count > 10_000_000 || base + 8 * count > startup.len() || score == 0 {
            earlier
        } else {
            earlier.push((score as usize, (base as usize, count as usize)))
        }
    }
}

/// The scored candidates of the first `n` bases, each with every count.
pub open spec fn class_candidates(startup: Seq<u8>, bases: Seq<u32>, counts: Seq<u32>, type_count: usize, n: nat) -> Seq<(usize, (usize, usize))>
    decreases n,
{
    if n == 0 {
        Seq::empty()
    } else {
        class_candidates(startup, bases, counts, type_count, (n - 1) as nat) + class_row(startup, bases[n - 1], counts, type_count, counts.len())
    }
}

fn class_table_score_of(startup: &[u8], base: usize, count: usize, type_count: usize) -> (r: usize)
    ensures
        r == class_table_score(startup@, base as int, count as nat, type_count),
{
    let indices = sample_indices(count, 4096);
    let ghost p = |k: int| class_record_ok(startup@, base as int, type_count, samples(count as nat, 4096)[k] as int);
    let limit = #[verifier::truncate] (type_count as i32);
    let mut total: usize = 0;
    let mut k: usize = 0;
    while k < indices.len()
        invariant
            k <= indices@.len(),
            indices@ == samples(count as nat, 4096),
            limit == type_count as i32,
            total <= k,
            p == (|k: int| class_record_ok(startup@, base as int, type_count, samples(count as nat, 4096)[k] as int)),
            total == count_where(k as nat, p),
        decreases indices.len() - k,
    {
        let index = indices[k];
        if fits(startup.len(), base, 8, index) {
            let record = base + index * 8;
            let type_index = read_i32_at(startup, record);
            let inst_index = read_i32_at(startup, record + 4);
            if 0 <= type_index && type_index < limit && inst_index >= 0 {
                total = total + 1;
            }
        }
        k = k + 1;
    }
    total
}

/// Picks the generic-class table (base, count) among the candidate bases and counts whose
/// sampled records fit `type_count` best, when it is unique.
pub fn select_generic_class_table(startup: &[u8], bases: &[u32], counts: &[u32], type_count: usize) -> (r: Option<(usize, usize)>)
    ensures
        r == (match unique_best_spec(class_candidates(startup@, bases@, counts@, type_count, bases@.len())) {
            Some((_, value)) => Some(value),
            None => None,
        }),
{
    let mut scored: Vec<(usize, (usize, usize))> = Vec::new();
    let mut i: usize = 0;
    while i < bases.len()
        invariant
            i <= bases@.len(),
            scored@ == class_candidates(startup@, bases@, counts@, type_count, i as nat),
        decreases bases.len() - i,
    {
        let base = bases[i];
        let ghost row_start = scored@;
        let mut j: usize = 0;
        while j < counts.len()
            invariant
                j <= counts@.len(),
                base == bases@[i as int],
                i < bases@.len(),
                scored@ == row_start + class_row(startup@, base, counts@, type_count, j as nat),
            decreases counts.len() - j,
        {
            let count = counts[j];
            assert(startup@.len() == startup.len());
            if !(count == 0 || count > 10_000_000 || base as usize > startup.len() || (count as usize) > (startup.len() - base as usize) / 8) {
                let score = class_table_score_of(startup, base as usize, count as usize, type_count);
                if score != 0 {
                    scored.push((score, (base as usize, count as usize)));
                }
            }
            proof {
                assert(row_start + class_row(startup@, base, counts@, type_count, (j + 1) as nat) =~= scored@);
            }
            j = j + 1;
        }
        i = i + 1;
    }
    match unique_best(scored) {
        Some((_, value)) => Some(value),
        None => None,
    }
}

/// Whether method-map record `j` at `base` lies in `body`, names one of `method_count`
/// methods, and (after the first) names a later method and a later pointer slot than the one
/// before it.
pub open spec fn map_step_ok(body: Seq<u8>, base: int, method_count: usize, j: int) -> bool {
    let method = le_i32(body, base + 6 * j);
    let pointer = le_u16(body, base + 6 * j + 4);
    &&& record_at(body, base, 6, j)
    &&& 0 <= method < (method_count as i32)
    &&& (j > 0 ==> method > le_i32(body, base + 6 * (j - 1)) && pointer > le_u16(body, base + 6 * (j - 1) + 4))
}

/// The length of the run of sound records from the start of the method map at `base`, at most
/// `n`.
pub open spec fn map_run(body: Seq<u8>, base: int, method_count: usize, n: nat) -> nat
    decreases n,
{
    if n == 0 {
        0
    } else {
        let earlier = map_run(body, base, method_count, (n - 1) as nat);
        if earlier == n - 1 && map_step_ok(body, base, method_count, n - 1) {
            n
        } else {
            earlier
        }
    }
}

/// The scored (base, run) candidates of the first `n` bases whose run is not empty.
pub open spec fn map_candidates(body: Seq<u8>, bases: Seq<u32>, method_count: usize, n: nat) -> Seq<(usize, (usize, usize))>
    decreases n,
{
    if n == 0 {
        Seq::empty()
    } else {
        let earlier = map_candidates(body, bases, method_count, (n - 1) as nat);
        let run = map_run(body, bases[n - 1] as int, method_count, method_count as nat);
        if run > 0 {
            earlier.push((run as usize, (bases[n - 1] as usize, run as usize)))
        } else {
            earlier
        }
    }
}

fn map_run_of(body: &[u8], base: usize, method_count: usize) -> (r: usize)
    ensures
        r == map_run(body@, base as int, method_count, method_count as nat),
{
    let limit = #[verifier::truncate] (method_count as i32);
    let mut count: usize = 0;
    let mut previous_method: i32 = -1;
    let mut previous_pointer: u16 = 0;
    while count < method_count
        invariant
            count <= method_count,
            limit == method_count as i32,
            map_run(body@, base as int, method_count, count as nat) == count,
            count > 0 ==> previous_method == le_i32(body@, base + 6 * (count - 1)) && previous_pointer == le_u16(body@, base + 6 * (count - 1) + 4),
        decreases method_count - count,
    {
        if !fits(body.len(), base, 6, count) {
            proof {
                lemma_map_run_stops(body@, base as int, method_count, count as nat, method_count as nat);
            }
            return count;
        }
        let record = base + count * 6;
        let method = read_i32_at(body, record);
        let pointer = read_u16_at(body, record + 4);
        if !(0 <= method && method < limit) || (count > 0 && (method <= previous_method || pointer <= previous_pointer)) {
            assert(!map_step_ok(body@, base as int, method_count, count as int));
            proof {
                lemma_map_run_stops(body@, base as int, method_count, count as nat, method_count as nat);
            }
            return count;
        }
        previous_method = method;
        previous_pointer = pointer;
        count = count + 1;
    }
    count
}

proof fn lemma_map_run_stops(body: Seq<u8>, base: int, method_count: usize, n: nat, m: nat)
    requires
        n < m,
        map_run(body, base, method_count, n) == n,
        !map_step_ok(body, base, method_count, n as int),
    ensures
        map_run(body, base, method_count, m) == n,
    decreases m - n,
{
    if m > n + 1 {
        lemma_map_run_stops(body, base, method_count, n, (m - 1) as nat);
    }
}

/// Picks the method map (base, length) whose run of sound records is longest, when it is
/// unique.
pub fn select_method_map(body: &[u8], bases: &[u32], method_count: usize) -> (r: Option<(usize, usize)>)
    ensures
        r == (match unique_best_spec(map_candidates(body@, bases@, method_count, bases@.len())) {
            Some((_, value)) => Some(value),
            None => None,
        }),
{
    let mut scored: Vec<(usize, (usize, usize))> = Vec::new();
    let mut i: usize = 0;
    while i < bases.len()
        invariant
            i <= bases@.len(),
            scored@ == map_candidates(body@, bases@, method_count, i as nat),
        decreases bases.len() - i,
    {
        let base = bases[i] as usize;
        let count = map_run_of(body, base, method_count);
        if count > 0 {
            scored.push((count, (base, count)));
        }
        i = i + 1;
    }
    match unique_best(scored) {
        Some((_, value)) => Some(value),
        None => None,
    }
}


// ---------------------------------------------------------------------------------------------
// Table sizes that the type table implies.

/// The sizes of the member tables that the type table declares.
#[derive(Clone, Copy, Debug)]
pub struct SecondaryCounts {
    pub properties: usize,
    pub events: usize,
    pub interfaces: usize,
    pub vtables: usize,
    pub interface_offsets: usize,
}

/// `current` raised to the end of a nonempty range.
pub open spec fn raise_to(current: nat, start: nat, count: nat) -> nat {
    if count != 0 && start + count > current {
        start + count
    } else {
        current
    }
}

/// The table sizes that the first `n` type records at `type_base` declare, as (properties,
/// events, interfaces, vtables, interface offsets); `None` when a record does not lie in
/// `body` or a range end does not fit in a `usize`.
pub open spec fn counts_scan(body: Seq<u8>, type_base: int, n: nat) -> Option<(nat, nat, nat, nat, nat)>
    decreases n,
{
    if n == 0 {
        Some((0, 0, 0, 0, 0))
    } else {
        match counts_scan(body, type_base, (n - 1) as nat) {
            None => None,
            Some(c) => {
                let i = n - 1;
                let record = type_base + 70 * i;
                let bias = match byte_at(body, type_base + 68) {
                    Some(b) => b,
                    None => 0,
                };
                let pc = body[record + 65].wrapping_add(31) as nat;
                let ps = le_u32(body, record + 28).wrapping_sub(970_393_327) as nat;
                let ec = (body[record + 64] ^ 0x73) as nat;
                let es = (le_u16(body, record + 48) ^ 0x6ecd) as nat;
                let vc = (body[record + 66] ^ 8) as nat;
                let vs = (le_u32(body, record + 24) ^ 0x4b4c_5f23) as nat;
                let oc = body[record + 69].wrapping_sub(1) as nat;
                let os = (le_u16(body, record + 62) ^ 0x3e74) as nat;
                let range = interface_range_at(body, record, bias);
                if !record_at(body, type_base, 70, i) || ps + pc > usize::MAX || vs + vc > usize::MAX || range.start + range.count > usize::MAX {
                    None
                } else {
                    Some((
                        raise_to(c.0, ps, pc),
                        raise_to(c.1, es, ec),
                        vstd::math::max(c.2 as int, (range.start + range.count) as int) as nat,
                        raise_to(c.3, vs, vc),
                        raise_to(c.4, os, oc),
                    ))
                }
            },
        }
    }
}

proof fn lemma_counts_scan_fails(body: Seq<u8>, type_base: int, n: nat, m: nat)
    requires
        n <= m,
        counts_scan(body, type_base, n) is None,
    ensures
        counts_scan(body, type_base, m) is None,
    decreases m - n,
{
    if n < m {
        lemma_counts_scan_fails(body, type_base, n, (m - 1) as nat);
    }
}

/// The sizes of the member tables that the `type_count` type records at `type_base` declare:
/// see `counts_scan`.
pub fn secondary_counts(body: &[u8], type_base: usize, type_count: usize) -> (r: Option<SecondaryCounts>)
    ensures
        match counts_scan(body@, type_base as int, type_count as nat) {
            None => r is None,
            Some(c) => r matches Some(x) && x.properties == c.0 && x.events == c.1 && x.interfaces == c.2
                && x.vtables == c.3 && x.interface_offsets == c.4,
        },
{
    let ranges = decode_interface_ranges(body, type_base, type_count);
    let mut counts = SecondaryCounts { properties: 0, events: 0, interfaces: 0, vtables: 0, interface_offsets: 0 };
    let mut index: usize = 0;
    while index < type_count
        invariant
            index <= type_count,
            ranges@.len() == type_count,
            forall|i: int| 0 <= i < type_count ==> #[trigger] ranges@[i] == interface_range_at(
                body@,
                type_base + 70 * i,
                match byte_at(body@, type_base + 68) {
                    Some(b) => b,
                    None => 0,
                },
            ),
            counts_scan(body@, type_base as int, index as nat) == Some((
                counts.properties as nat,
                counts.events as nat,
                counts.interfaces as nat,
                counts.vtables as nat,
                counts.interface_offsets as nat,
            )),
        decreases type_count - index,
    {
        if !fits(body.len(), type_base, 70, index) {
            proof {
                lemma_counts_scan_fails(body@, type_base as int, (index + 1) as nat, type_count as nat);
            }
            return None;
        }
        let record = type_base + index * 70;
        let property_count = body[record + 65].wrapping_add(31) as usize;
        let property_start = read_u32_at(body, record + 28).wrapping_sub(970_393_327) as usize;
        let event_count = (body[record + 64] ^ 0x73) as usize;
        let event_start = (read_u16_at(body, record + 48) ^ 0x6ecd) as usize;
        let vtable_count = (body[record + 66] ^ 8) as usize;
        let vtable_start = (read_u32_at(body, record + 24) ^ 0x4b4c_5f23) as usize;
        let offset_count = body[record + 69].wrapping_sub(1) as usize;
        let offset_start = (read_u16_at(body, record + 62) ^ 0x3e74) as usize;
        let range = &ranges[index];
        if property_start > usize::MAX - property_count || vtable_start > usize::MAX - vtable_count || range.start > usize::MAX - range.count {
            proof {
                lemma_counts_scan_fails(body@, type_base as int, (index + 1) as nat, type_count as nat);
            }
            return None;
        }
        if property_count != 0 && property_start + property_count > counts.properties {
            counts.properties = property_start + property_count;
        }
        if event_count != 0 && event_start + event_count > counts.events {
            counts.events = event_start + event_count;
        }
        if vtable_count != 0 && vtable_start + vtable_count > counts.vtables {
            counts.vtables = vtable_start + vtable_count;
        }
        if offset_count != 0 && offset_start + offset_count > counts.interface_offsets {
            counts.interface_offsets = offset_start + offset_count;
        }
        if range.start + range.count > counts.interfaces {
            counts.interfaces = range.start + range.count;
        }
        index = index + 1;
    }
    Some(counts)
}

} // verus!
