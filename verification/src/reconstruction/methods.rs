use super::members::lemma_unmask32;
use super::strings::{decimal_digits, decrypted_string, name_or, numbered_name, StringDecryptor};
use crate::bytes::{le_i32, le_u16, le_u32, read_i32_at, read_u16_at, read_u32_at};
use crate::discovery::mhy::MhyHeader;
use crate::discovery::parameter_term;
use std::collections::HashMap;
use vstd::prelude::*;

verus! {

/// A parameter definition.
pub struct ParamDef {
    pub name: String,
    pub name_off: u32,
    pub type_index: i32,
    pub token: u32,
}

/// A method definition.
pub struct MethodDef {
    pub name: String,
    pub name_off: u32,
    pub token: u32,
    pub return_type: i32,
    pub parameter_start: i32,
    pub parameter_count: u16,
    pub flags: u16,
    pub slot: u16,
    pub generic_container_index: i32,
}

/// The key term of method record `m`.
pub open spec fn method_term(m: u128) -> u32 {
    let step1 = ((12769 * m) as u128) ^ 0x33914937u128;
    let step2 = ((738455933 * step1) as u128) >> 23;
    let step3 = ((1410124276 * step2) as u128) >> 21;
    (((step3 + 1908176993) as u128) & 0xFFFFFFFFu128) as u32
}

/// The key term of method record `m`.
pub fn calc_term(m: usize) -> (r: u32)
    ensures
        r == method_term(m as u128),
{
    let r8 = m as u128;
    assert(r8 < 0x1_0000_0000_0000_0000u128);
    let product1 = 12769u128 * r8;
    let step1 = product1 ^ 0x33914937u128;
    assert(step1 < 0x4000_0000_0000_0000_0000u128) by (bit_vector)
        requires
            product1 < 0x4000_0000_0000_0000_0000u128,
            step1 == product1 ^ 0x33914937u128,
    ;
    let product2 = 738455933u128 * step1;
    let step2 = product2 >> 23;
    assert(step2 < 0x20_0000_0000_0000_0000_0000u128) by (bit_vector)
        requires
            product2 < 0x1000_0000_0000_0000_0000_0000_0000u128,
            step2 == product2 >> 23,
    ;
    let product3 = 1410124276u128 * step2;
    let step3 = product3 >> 21;
    assert(step3 < 0x8000_0000_0000_0000_0000_0000u128) by (bit_vector)
        requires
            product3 < 0x10_0000_0000_0000_0000_0000_0000_0000u128,
            step3 == product3 >> 21,
    ;
    let sum = step3 + 1908176993;
    let low = sum & 0xFFFFFFFF;
    assert(low < 0x1_0000_0000u128) by (bit_vector)
        requires
            low == sum & 0xFFFFFFFFu128,
    ;
    low as u32
}

/// The key term of parameter record `index`.
pub open spec fn parameter_term_spec(index: u64) -> u32 {
    (1488482466u64.wrapping_mul(0x72E1D74B12Bu64.wrapping_mul(index).wrapping_add(0x1911D05AFF5) >> 11) as u32).wrapping_sub(
        2083554492,
    )
}

/// Whether `p` is the parameter that record `index` of the table at `base` decodes to.
pub open spec fn is_decoded_parameter(
    p: ParamDef,
    body: Seq<u8>,
    names: Seq<u8>,
    table: nat,
    base: int,
    index: int,
) -> bool {
    let term = parameter_term_spec(index as u64);
    let record = base + 8 * index;
    &&& p.name@ == decrypted_string(
        names,
        table,
        (le_u32(body, record + 4) ^ 0x7103092E).wrapping_sub(term),
    )
    &&& p.name_off == 0
    &&& p.type_index == ((le_u32(body, record) ^ 0x67E90DC5).wrapping_sub(term)) as i32
    &&& p.token == 0x0800_0000 | (index as u32).wrapping_add(1)
}

/// Decoding undoes the encoding of parameter records: when record `index` holds its type
/// index and name index, each with the record's term added modulo 2^32 and masked with the
/// field's constant, where the term of record `i` is `(1488482466 * ((0x72E1D74B12B * i +
/// 0x1911D05AFF5) >> 11) - 2083554492) mod 2^32` with the inner product and sum taken modulo
/// 2^64, the decoded parameter has that name and type.
pub proof fn lemma_parameter_decodes_encoded(
    p: ParamDef,
    body: Seq<u8>,
    names: Seq<u8>,
    table: nat,
    base: int,
    index: u64,
    name_index: u32,
    type_index: u32,
)
    requires
        is_decoded_parameter(p, body, names, table, base, index as int),
        ({
            let term: u32 = (1_488_482_466u64.wrapping_mul(0x72e_1d74_b12bu64.wrapping_mul(index).wrapping_add(0x191_1d05_aff5u64)
                >>11u64) as u32).wrapping_sub(2_083_554_492u32);
            let record = base + 8 * index;
            &&& le_u32(body, record + 4) == name_index.wrapping_add(term) ^ 0x7103_092eu32
            &&& le_u32(body, record) == type_index.wrapping_add(term) ^ 0x67e9_0dc5u32
        }),
    ensures
        p.name@ == decrypted_string(names, table, name_index),
        p.type_index == type_index as i32,
{
    let term = parameter_term_spec(index);
    lemma_unmask32(name_index, term, 0x7103092E);
    lemma_unmask32(type_index, term, 0x67E90DC5);
}

/// Decodes the first `total_params` parameter records.
pub fn decrypt_parameters(
    global_body: &[u8],
    mhy: &MhyHeader,
    decryptor: &StringDecryptor,
    total_params: usize,
) -> (r: Vec<ParamDef>)
    requires
        total_params > 0 ==> mhy.param_table_base() + 8 * total_params <= global_body@.len(),
    ensures
        r@.len() == total_params,
        forall|i: int|
            0 <= i < total_params ==> is_decoded_parameter(
                #[trigger] r@[i],
                global_body@,
                decryptor.body(),
                decryptor.table(),
                mhy.param_table_base() as int,
                i,
            ),
{
    let param_base = mhy.param_table_base();
    let mut result: Vec<ParamDef> = Vec::new();
    let mut v28: usize = 0;
    while v28 < total_params
        invariant
            v28 <= total_params,
            param_base == mhy.param_table_base(),
            total_params > 0 ==> param_base + 8 * total_params <= global_body@.len(),
            result@.len() == v28,
            forall|i: int|
                0 <= i < v28 ==> is_decoded_parameter(
                    #[trigger] result@[i],
                    global_body@,
                    decryptor.body(),
                    decryptor.table(),
                    param_base as int,
                    i,
                ),
        decreases total_params - v28,
    {
        result.push(decrypt_parameter(global_body, param_base, decryptor, v28));
        v28 = v28 + 1;
    }
    result
}

fn decrypt_parameter(
    global_body: &[u8],
    param_base: usize,
    decryptor: &StringDecryptor,
    index: usize,
) -> (r: ParamDef)
    requires
        param_base + 8 * index + 8 <= global_body@.len(),
    ensures
        is_decoded_parameter(
            r,
            global_body@,
            decryptor.body(),
            decryptor.table(),
            param_base as int,
            index as int,
        ),
{
    let v30 = parameter_term(index);
    assert(global_body@.len() == global_body.len());
    let off = param_base + 8 * index;
    let raw_0 = read_u32_at(global_body, off);
    let raw_1 = read_u32_at(global_body, off + 4);
    let pname_idx = (raw_1 ^ 0x7103092E).wrapping_sub(v30);
    let ptype_idx = #[verifier::truncate] (((raw_0 ^ 0x67E90DC5).wrapping_sub(v30)) as i32);
    let pname = decryptor.decrypt_string(pname_idx);
    let token = 0x08000000 | (#[verifier::truncate] (index as u32)).wrapping_add(1);
    ParamDef { name: pname, name_off: 0, type_index: ptype_idx, token }
}

/// The parameter range of a method: start and count when the count is not zero, the start is not
/// the all-ones value and lies below `total_params`; else (-1, 0).
pub open spec fn parameter_range(count: u16, start: u32, total_params: nat) -> (i32, u16) {
    if count > 0 && start != u32::MAX && (start as nat) < total_params {
        (start as i32, count)
    } else {
        (-1i32, 0u16)
    }
}

/// Whether `d` is the method that record `m` of the table at `base` decodes to.
pub open spec fn is_decoded_method(
    d: MethodDef,
    body: Seq<u8>,
    names: Seq<u8>,
    table: nat,
    base: int,
    total_params: nat,
    containers: Map<usize, usize>,
    m: int,
) -> bool {
    let record = base + 26 * m;
    let term = method_term(m as u128);
    let term_w = term as u16;
    let range = parameter_range(
        (body[record + 24] ^ (term as u8) ^ 0xA8) as u16,
        le_u32(body, record + 4) ^ term ^ 0x9889B8,
        total_params,
    );
    &&& d.name@ == name_or(
        decrypted_string(names, table, le_u32(body, record) ^ term ^ 0x0E714BC1),
        "Method_"@ + decimal_digits(m as nat),
    )
    &&& d.name_off == 0
    &&& d.token == 0x0600_0000 | (m as u32).wrapping_add(1)
    &&& d.return_type == (((le_i32(body, record + 8) as u32).wrapping_sub(1698564893)) ^ term) as i32
    &&& d.parameter_start == range.0
    &&& d.parameter_count == range.1
    &&& d.flags == le_u16(body, record + 14) ^ term_w ^ 0x3733
    &&& d.slot == (le_u16(body, record + 20).wrapping_sub(30979)) ^ term_w
    &&& d.generic_container_index == (if containers.contains_key(m as usize) {
        containers[m as usize] as i32
    } else {
        -1i32
    })
}

/// Decoding undoes the encoding of method records: when record `m` holds its name index and
/// flags XORed with the record's term and the field's constant, its return type XORed with
/// the term and then raised by 1698564893, and its slot XORed with the term and then raised
/// by 30979 (modulo the field's width), where the term of record `m` is `(((1410124276 *
/// ((738455933 * ((12769 * m) XOR 0x33914937)) >> 23)) >> 21) + 1908176993) mod 2^32`, the
/// decoded method has that return type, flags and slot, and that name when it is not empty.
pub proof fn lemma_method_decodes_encoded(
    d: MethodDef,
    body: Seq<u8>,
    names: Seq<u8>,
    table: nat,
    base: int,
    total_params: nat,
    containers: Map<usize, usize>,
    m: u64,
    name_index: u32,
    return_type: i32,
    flags: u16,
    slot: u16,
)
    requires
        is_decoded_method(d, body, names, table, base, total_params, containers, m as int),
        ({
            let mixed: u128 = ((m * 12_769) as u128) ^ 0x3391_4937u128;
            let scaled: u128 = ((mixed * 738_455_933) as u128) >>23u128;
            let shifted: u128 = ((scaled * 1_410_124_276) as u128) >>21u128;
            let term: u32 = (((shifted + 1_908_176_993) as u128) & 0xFFFF_FFFFu128) as u32;
            let record = base + 26 * m;
            &&& le_u32(body, record) == name_index ^ term ^ 0x0e71_4bc1u32
            &&& le_i32(body, record + 8) as u32 == ((return_type as u32) ^ term).wrapping_add(1_698_564_893u32)
            &&& le_u16(body, record + 14) == flags ^ (term as u16) ^ 0x37_33u16
            &&& le_u16(body, record + 20) == (slot ^ (term as u16)).wrapping_add(30_979u16)
        }),
    ensures
        d.name@ == name_or(decrypted_string(names, table, name_index), "Method_"@ + decimal_digits(m as nat)),
        d.return_type == return_type,
        d.flags == flags,
        d.slot == slot,
{
    let term = method_term(m as u128);
    let tw = term as u16;
    assert((name_index ^ term ^ 0x0E714BC1u32) ^ term ^ 0x0E714BC1u32 == name_index) by (bit_vector);
    assert((flags ^ tw ^ 0x3733u16) ^ tw ^ 0x3733u16 == flags) by (bit_vector);
    let mixed_slot = slot ^ tw;
    assert(mixed_slot.wrapping_add(30979).wrapping_sub(30979) == mixed_slot);
    assert(mixed_slot ^ tw == slot) by (bit_vector)
        requires
            mixed_slot == slot ^ tw,
    ;
    let r = return_type as u32;
    let mixed_return = r ^ term;
    assert(mixed_return.wrapping_add(1698564893).wrapping_sub(1698564893) == mixed_return);
    assert(mixed_return ^ term == r) by (bit_vector)
        requires
            mixed_return == r ^ term,
    ;
    assert((r as i32) == return_type) by (bit_vector)
        requires
            r == return_type as u32,
    ;
}

/// Decodes the first `total_methods` method records; `method_to_container` gives the generic
/// container of each generic method.
pub fn decrypt_methods(
    global_body: &[u8],
    mhy: &MhyHeader,
    decryptor: &StringDecryptor,
    total_methods: usize,
    total_params: usize,
    method_to_container: &HashMap<usize, usize>,
) -> (r: Vec<MethodDef>)
    requires
        total_methods > 0 ==> mhy.method_table_base() + 26 * total_methods - 1 <= global_body@.len(),
    ensures
        r@.len() == total_methods,
        forall|m: int|
            0 <= m < total_methods ==> is_decoded_method(
                #[trigger] r@[m],
                global_body@,
                decryptor.body(),
                decryptor.table(),
                mhy.method_table_base() as int,
                total_params as nat,
                method_to_container@,
                m,
            ),
{
    broadcast use vstd::std_specs::hash::group_hash_axioms;

    let method_base = mhy.method_table_base();
    let mut result: Vec<MethodDef> = Vec::new();
    let mut m: usize = 0;
    while m < total_methods
        invariant
            m <= total_methods,
            method_base == mhy.method_table_base(),
            total_methods > 0 ==> method_base + 26 * total_methods - 1 <= global_body@.len(),
            result@.len() == m,
            forall|k: int|
                0 <= k < m ==> is_decoded_method(
                    #[trigger] result@[k],
                    global_body@,
                    decryptor.body(),
                    decryptor.table(),
                    method_base as int,
                    total_params as nat,
                    method_to_container@,
                    k,
                ),
        decreases total_methods - m,
    {
        result.push(decrypt_method(global_body, method_base, decryptor, m, total_params, method_to_container));
        m = m + 1;
    }
    result
}

fn decrypt_method(
    global_body: &[u8],
    method_base: usize,
    decryptor: &StringDecryptor,
    m: usize,
    total_params: usize,
    method_to_container: &HashMap<usize, usize>,
) -> (r: MethodDef)
    requires
        method_base + 26 * m + 25 <= global_body@.len(),
    ensures
        is_decoded_method(
            r,
            global_body@,
            decryptor.body(),
            decryptor.table(),
            method_base as int,
            total_params as nat,
            method_to_container@,
            m as int,
        ),
{
    broadcast use vstd::std_specs::hash::group_hash_axioms;

    assert(global_body@.len() == global_body.len());
    let m_off = method_base + m * 26;
    let raw_0 = read_u32_at(global_body, m_off);
    let raw_1 = read_u32_at(global_body, m_off + 4);
    let raw_dword_8 = read_i32_at(global_body, m_off + 8);
    let raw_u16_7 = read_u16_at(global_body, m_off + 14);
    let raw_u16_20 = read_u16_at(global_body, m_off + 20);
    let raw_24 = global_body[m_off + 24];
    let term = calc_term(m);
    let term_w = #[verifier::truncate] ((term & 0xFFFF) as u16);
    assert(term_w == term as u16) by (bit_vector)
        requires
            term_w == ((term & 0xFFFF) as u16),
    ;
    let name_idx = raw_0 ^ term ^ 0x0E714BC1;
    let mut name = decryptor.decrypt_string(name_idx);
    if name.as_str().is_empty() {
        name = numbered_name("Method_", m, "");
        proof {
            reveal_strlit("");
            assert(name@ =~= "Method_"@ + decimal_digits(m as nat));
        }
    }
    let p_cnt = (raw_24 ^ (#[verifier::truncate] (term as u8)) ^ 0xA8) as u16;
    let p_start_raw = raw_1 ^ term ^ 0x9889B8;
    let (p_start, p_count) = if p_cnt > 0 && p_start_raw != u32::MAX && (p_start_raw as usize)
        < total_params {
        (#[verifier::truncate] (p_start_raw as i32), p_cnt)
    } else {
        (-1, 0)
    };
    let ret_type_idx = (((raw_dword_8 as u32).wrapping_sub(1698564893)) ^ term) as i32;
    let flags = raw_u16_7 ^ term_w ^ 0x3733;
    let slot = (raw_u16_20.wrapping_sub(30979)) ^ term_w;
    let token = 0x06000000 | (#[verifier::truncate] (m as u32)).wrapping_add(1);
    let gc_idx = match method_to_container.get(&m) {
        Some(c) => #[verifier::truncate] (*c as i32),
        None => -1,
    };
    MethodDef {
        name,
        name_off: 0,
        token,
        return_type: ret_type_idx,
        parameter_start: p_start,
        parameter_count: p_count,
        flags,
        slot,
        generic_container_index: gc_idx,
    }
}

} // verus!
