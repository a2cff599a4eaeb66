use super::strings::{decrypt_blocks, lemma_rolling_key_closed, lemma_xor_blocks_undo, rolling_key, xor_blocks};
use crate::bytes::{in_bounds, le_u32, le_u64, read_u32_at};
use crate::discovery::mhy::MhyHeader;
use vstd::prelude::*;

verus! {

/// The bytes of one string literal.
pub struct StringLiteral {
    pub data: Vec<u8>,
}

/// The mask that hides the position of string literal `index`.
pub open spec fn literal_mask(index: u64) -> u64 {
    604_527_770u64.wrapping_mul(
        0x32c1_cf25_bb14u64.wrapping_mul(index).wrapping_add(0x001f_0fe2_59cf_0538) >> 14,
    ) >> 8
}

/// Where string literal `index` starts, when its entry lies in the body.
#[verifier::opaque]
pub open spec fn literal_position_at(body: Seq<u8>, offsets: usize, data: u32, index: int) -> Option<usize> {
    let offset = offsets + 4 * index;
    if in_bounds(body, offset, 4) {
        Some(
            data.wrapping_add(
                le_u32(body, offset).wrapping_sub(literal_mask(index as u64) as u32),
            ) as usize,
        )
    } else {
        None
    }
}

/// Reading a literal's position undoes how it is stored: when the entry of literal `index`
/// holds the literal's position `position` less the data base `data`, plus the literal's
/// mask `(604527770 * ((0x32c1cf25bb14 * index + 0x1f0fe259cf0538) >> 14)) >> 8` (its
/// products and sums taken modulo 2^64, the entry's arithmetic modulo 2^32), the literal is
/// found at `position`.
pub proof fn lemma_literal_position_stored(body: Seq<u8>, offsets: usize, data: u32, index: u64, position: u32)
    requires
        in_bounds(body, offsets + 4 * index, 4),
        le_u32(body, offsets + 4 * index) == position.wrapping_sub(data).wrapping_add(
            (604527_770u64.wrapping_mul(0x32C1CF25BB14u64.wrapping_mul(index).wrapping_add(0x1F0FE2_59CF0538u64)
                >>14u64) >>8u64) as u32,
        ),
    ensures
        literal_position_at(body, offsets, data, index as int) == Some(position as usize),
{
    reveal(literal_position_at);
}

/// Whether the positions of literals `k - 1` and `k` break the ordered run that starts at 0:
/// the later one goes backwards or beyond the position table.
pub open spec fn literal_run_breaks_at(body: Seq<u8>, offsets: usize, data: u32, k: int) -> bool {
    let limit = if offsets <= body.len() {
        offsets as int
    } else {
        body.len() as int
    };
    literal_position_at(body, offsets, data, k).unwrap() < literal_position_at(body, offsets, data, k - 1).unwrap()
        || literal_position_at(body, offsets, data, k).unwrap() > limit
}

/// Whether `count` is the number of string literals: literal 0 starts before the position
/// table, positions `0..=count` are ordered and within it, and position `count + 1` is the first
/// that breaks the run.
pub open spec fn is_literal_count_at(body: Seq<u8>, offsets: usize, data: u32, count: int) -> bool {
    let table = offsets as int;
    let limit = if table <= body.len() {
        table
    } else {
        body.len() as int
    };
    &&& table + 4 <= body.len()
    &&& literal_position_at(body, offsets, data, 0).unwrap() < limit
    &&& 1 <= count
    &&& count + 1 < (body.len() - table) / 4
    &&& literal_run_breaks_at(body, offsets, data, count + 1)
    &&& forall|j: int| 1 <= j <= count ==> !#[trigger] literal_run_breaks_at(body, offsets, data, j)
}

/// The number of string literals, found from where their ordered positions stop.
pub fn discover_count_at(global_body: &[u8], offsets: usize, data: u32) -> (r: Option<usize>)
    ensures
        r matches Some(c) ==> is_literal_count_at(global_body@, offsets, data, c as int),
        r is None ==> forall|c: int| !is_literal_count_at(global_body@, offsets, data, c),
{
    let table = offsets;
    let limit = if table <= global_body.len() {
        table
    } else {
        global_body.len()
    };
    if global_body.len() < table {
        return None;
    }
    let maximum = (global_body.len() - table) / 4;
    reveal(literal_position_at);
    let mut previous = match data_position_at(global_body, offsets, data, 0) {
        Some(value) => value,
        None => return None,
    };
    if previous >= limit {
        return None;
    }
    let mut index: usize = 1;
    while index < maximum
        invariant
            1 <= index <= maximum || maximum == 0,
            maximum == (global_body@.len() - table) / 4,
            table == offsets,
            table <= global_body@.len(),
            limit == table,
            table + 4 <= global_body@.len(),
            literal_position_at(global_body@, offsets, data, 0).unwrap() < limit,
            Some(previous) == literal_position_at(global_body@, offsets, data, index - 1),
            forall|j: int| 1 <= j < index ==> !#[trigger] literal_run_breaks_at(global_body@, offsets, data, j),
        decreases maximum - index,
    {
        reveal(literal_position_at);
        let current = match data_position_at(global_body, offsets, data, index) {
            Some(value) => value,
            None => return None,
        };
        if current < previous || current > limit {
            assert(literal_run_breaks_at(global_body@, offsets, data, index as int));
            if index > 1 {
                assert(is_literal_count_at(global_body@, offsets, data, index - 1));
                return Some(index - 1);
            }
            return None;
        }
        previous = current;
        index = index + 1;
    }
    None
}

/// The literal key of record `index`.
pub open spec fn literal_key(index: u64) -> u64 {
    (0xde8c_09c8_3613_3dbdu64.wrapping_mul(index) ^ 0x18d0_25c9_6ee7_4e86).wrapping_add(
        0x2c68_33cc_6f0a_9c48,
    )
}

/// The decrypted bytes of string literal `index`, when its start, end and padded bytes are
/// all in the body.
pub open spec fn literal_data_at(body: Seq<u8>, offsets: usize, data: u32, index: int) -> Option<Seq<u8>> {
    let start = literal_position_at(body, offsets, data, index).unwrap();
    let end = literal_position_at(body, offsets, data, index + 1).unwrap();
    let length = end - start;
    let blocks = (length + 7) / 8;
    if literal_position_at(body, offsets, data, index) is Some && literal_position_at(body, offsets, data, index + 1) is Some
        && start <= end && in_bounds(body, start as int, 8 * blocks) {
        Some(
            xor_blocks(
                body,
                start as int,
                literal_key(index as u64),
                0x464c_4654_0f73_0312,
                blocks as nat,
            ).take(length),
        )
    } else {
        None
    }
}

/// Decryption undoes the encryption of string literals: when the blocks of literal `index`
/// are those of `padded` (its bytes followed by any bytes up to a whole block) XORed with the
/// literal key schedule, whose first key is `(0xde8c09c836133dbd * index XOR
/// 0x18d025c96ee74e86) + 0x2c6833cc6f0a9c48` and which grows by `0x464c46540f730312` after every
/// block, all modulo 2^64, the literal decrypts to its bytes.
pub proof fn lemma_literal_decrypts_encrypted(
    body: Seq<u8>,
    offsets: usize,
    data: u32,
    index: u64,
    start: usize,
    end: usize,
    padded: Seq<u8>,
)
    requires
        literal_position_at(body, offsets, data, index as int) == Some(start),
        literal_position_at(body, offsets, data, index + 1) == Some(end),
        start <= end,
        padded.len() == 8 * ((end - start + 7) / 8),
        start + padded.len() <= body.len(),
        forall|k: int|
            0 <= k < padded.len() / 8 ==> #[trigger] le_u64(body, start + 8 * k) == le_u64(padded, 8 * k)
                ^ (((0xDE8C09C8_36133DBDu64.wrapping_mul(index) ^ 0x18D025C9_6EE74E86u64) + 0x2C6833CC_6F0A9C48
                + k * 0x464C4654_0F730312) % 0x1_0000_0000_0000_0000) as u64,
    ensures
        literal_data_at(body, offsets, data, index as int) == Some(padded.take(end - start)),
{
    let step: u64 = 0x464c_4654_0f73_0312;
    let blocks = ((end - start + 7) / 8) as nat;
    let mixed = 0xde8c_09c8_3613_3dbdu64.wrapping_mul(index) ^ 0x18d0_25c9_6ee7_4e86u64;
    let key0 = literal_key(index);
    assert(key0 as int == (mixed + 0x2c68_33cc_6f0a_9c48) % 0x1_0000_0000_0000_0000);
    assert forall|k: int| 0 <= k < blocks implies #[trigger] le_u64(body, start + 8 * k) == le_u64(padded, 8 * k)
        ^ rolling_key(key0, step, k as nat) by {
        lemma_rolling_key_closed(key0, step, k as nat);
        vstd::arithmetic::div_mod::lemma_add_mod_noop_right(
            k * step,
            mixed + 0x2c68_33cc_6f0a_9c48,
            0x1_0000_0000_0000_0000,
        );
        assert(rolling_key(key0, step, k as nat) as int == (mixed + 0x2c68_33cc_6f0a_9c48 + k * step)
            % 0x1_0000_0000_0000_0000);
    }
    lemma_xor_blocks_undo(body, start as int, key0, step, padded, blocks);
    assert(padded.take((8 * blocks) as int) =~= padded);
}

/// The data of the first `n` literals whose bytes can be read, in order.
pub open spec fn literal_datas_at(body: Seq<u8>, offsets: usize, data: u32, n: nat) -> Seq<Seq<u8>>
    decreases n,
{
    if n == 0 {
        Seq::empty()
    } else {
        let earlier = literal_datas_at(body, offsets, data, (n - 1) as nat);
        match literal_data_at(body, offsets, data, n - 1) {
            Some(bytes) => earlier.push(bytes),
            None => earlier,
        }
    }
}

/// Decrypts the first `count` string literals, leaving out those whose bytes cannot be read.
pub fn decrypt_at(global_body: &[u8], offsets: usize, data: u32, count: usize) -> (r: Vec<StringLiteral>)
    ensures
        r@.len() == literal_datas_at(global_body@, offsets, data, count as nat).len(),
        forall|k: int|
            0 <= k < r@.len() ==> (#[trigger] r@[k]).data@ == literal_datas_at(
                global_body@,
                offsets,
                data,
                count as nat,
            )[k],
{
    let mut result: Vec<StringLiteral> = Vec::new();
    let mut index: usize = 0;
    while index < count
        invariant
            index <= count,
            global_body@.len() == global_body.len(),
            result@.len() == literal_datas_at(global_body@, offsets, data, index as nat).len(),
            forall|k: int|
                0 <= k < result@.len() ==> (#[trigger] result@[k]).data@ == literal_datas_at(
                    global_body@,
                    offsets,
                    data,
                    index as nat,
                )[k],
        decreases count - index,
    {
        if let Some(bytes) = decrypt_one(global_body, offsets, data, index) {
            result.push(StringLiteral { data: bytes });
        }
        index = index + 1;
    }
    result
}

fn decrypt_one(global_body: &[u8], offsets: usize, data: u32, index: usize) -> (r: Option<Vec<u8>>)
    ensures
        match literal_data_at(global_body@, offsets, data, index as int) {
            Some(bytes) => r matches Some(v) && v@ == bytes,
            None => r is None,
        },
{
    let start = match data_position_at(global_body, offsets, data, index) {
        Some(value) => value,
        None => return None,
    };
    if index == usize::MAX {
        proof {
            assert(global_body@.len() == global_body.len());
            lemma_no_position_past_usize(global_body@, offsets, data, index as int + 1);
        }
        return None;
    }
    let end = match data_position_at(global_body, offsets, data, index + 1) {
        Some(value) => value,
        None => return None,
    };
    decrypt_range(global_body, start, end, index)
}

proof fn lemma_no_position_past_usize(body: Seq<u8>, offsets: usize, data: u32, index: int)
    requires
        index > usize::MAX,
        body.len() <= usize::MAX,
    ensures
        literal_position_at(body, offsets, data, index) is None,
{
    reveal(literal_position_at);
}

fn decrypt_range(global_body: &[u8], start: usize, end: usize, index: usize) -> (r: Option<Vec<u8>>)
    ensures
        ({
            let length = end - start;
            let blocks = (length + 7) / 8;
            if start <= end && in_bounds(global_body@, start as int, 8 * blocks) {
                r matches Some(v) && v@ == xor_blocks(
                    global_body@,
                    start as int,
                    literal_key(index as u64),
                    0x464c_4654_0f73_0312,
                    blocks as nat,
                ).take(length)
            } else {
                r is None
            }
        }),
{
    if end < start {
        return None;
    }
    let length = end - start;
    let blocks = block_count_of(length);
    if start > global_body.len() || (global_body.len() - start) / 8 < blocks {
        return None;
    }
    let key = literal_key_of(index as u64);
    Some(decrypt_blocks(global_body, start, key, 0x464c_4654_0f73_0312, blocks, length))
}

/// Where string literal `index` starts in the literal data of `mhy`; see `data_position_at`.
pub fn data_position(global_body: &[u8], mhy: &MhyHeader, index: usize) -> (r: Option<usize>)
    ensures
        r == literal_position_at(global_body@, mhy.string_literal_offsets_base(), mhy.string_literal_data_base(), index as int),
{
    data_position_at(global_body, mhy.string_literal_offsets_base(), mhy.string_literal_data_base(), index)
}

/// Where string literal `index` starts in the literal data at `data`: its four-byte entry in
/// the table at `offsets`, unmasked with the index's mask, added to `data` with wrapping
/// 32-bit arithmetic; `None` when the entry does not lie in the body.
pub fn data_position_at(global_body: &[u8], offsets: usize, data: u32, index: usize) -> (r: Option<usize>)
    ensures
        r == literal_position_at(global_body@, offsets, data, index as int),
{
    reveal(literal_position_at);
    let base = offsets;
    let len = global_body.len();
    if base > len || (len - base) / 4 <= index {
        return None;
    }
    let offset = base + index * 4;
    let encoded = read_u32_at(global_body, offset);
    let mask = literal_mask_of(index as u64);
    let relative = encoded.wrapping_sub(mask as u32);
    Some(data.wrapping_add(relative) as usize)
}

fn literal_key_of(index: u64) -> (r: u64)
    ensures
        r == literal_key(index),
{
    (0xde8c_09c8_3613_3dbdu64.wrapping_mul(index) ^ 0x18d0_25c9_6ee7_4e86).wrapping_add(
        0x2c68_33cc_6f0a_9c48,
    )
}

fn block_count_of(length: usize) -> (r: usize)
    ensures
        r == (length + 7) / 8,
        8 * r >= length,
{
    (length / 8) + if length % 8 == 0 {
        0
    } else {
        1
    }
}

fn literal_mask_of(index: u64) -> (r: u64)
    ensures
        r == literal_mask(index),
{
    let scaled = 0x32c1_cf25_bb14u64.wrapping_mul(index);
    let mixed = scaled.wrapping_add(0x001f_0fe2_59cf_0538) >> 14;
    604_527_770u64.wrapping_mul(mixed) >> 8
}

/// Where string literal `index` starts, with the tables that `mhy` locates.
pub open spec fn literal_position(body: Seq<u8>, mhy: MhyHeader, index: int) -> Option<usize> {
    literal_position_at(body, mhy.string_literal_offsets_base(), mhy.string_literal_data_base(), index)
}

/// Whether `count` is the number of string literals that `mhy` locates; see
/// `is_literal_count_at`.
pub open spec fn is_literal_count(body: Seq<u8>, mhy: MhyHeader, count: int) -> bool {
    is_literal_count_at(body, mhy.string_literal_offsets_base(), mhy.string_literal_data_base(), count)
}

/// The data of the first `n` literals that `mhy` locates whose bytes can be read, in order.
pub open spec fn literal_datas(body: Seq<u8>, mhy: MhyHeader, n: nat) -> Seq<Seq<u8>> {
    literal_datas_at(body, mhy.string_literal_offsets_base(), mhy.string_literal_data_base(), n)
}

/// The number of string literals, found from where their ordered positions stop, in the
/// tables that `mhy` locates.
pub fn discover_count(global_body: &[u8], mhy: &MhyHeader) -> (r: Option<usize>)
    ensures
        r matches Some(c) ==> is_literal_count(global_body@, *mhy, c as int),
        r is None ==> forall|c: int| !is_literal_count(global_body@, *mhy, c),
{
    discover_count_at(global_body, mhy.string_literal_offsets_base(), mhy.string_literal_data_base())
}

/// Decrypts the first `count` string literals that `mhy` locates, leaving out those whose
/// bytes cannot be read.
pub fn decrypt(global_body: &[u8], mhy: &MhyHeader, count: usize) -> (r: Vec<StringLiteral>)
    ensures
        r@.len() == literal_datas(global_body@, *mhy, count as nat).len(),
        forall|k: int|
            0 <= k < r@.len() ==> (#[trigger] r@[k]).data@ == literal_datas(global_body@, *mhy, count as nat)[k],
{
    decrypt_at(global_body, mhy.string_literal_offsets_base(), mhy.string_literal_data_base(), count)
}

} // verus!
