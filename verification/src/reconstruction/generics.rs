use super::members::lemma_unmask16;
use super::strings::{decrypted_string, name_or, StringDecryptor};
use crate::bytes::{le_i32, le_u16, le_u32, read_i32_at, read_u16_at, read_u32_at};
use crate::discovery::layout::{parameter_constraint_length, parameter_constraint_start, parameter_container};
use crate::discovery::mhy::MhyHeader;
use crate::discovery::{generic_parameter_key, generic_parameter_term};
use crate::discovery::profile::BuildProfile;
use std::collections::HashMap;
use vstd::prelude::*;

verus! {

/// The generic parameters, constraints and containers of the metadata.
pub struct GenericsData {
    pub gp_names: Vec<String>,
    pub gp_containers: Vec<u32>,
    pub gp_name_offs: Vec<u32>,
    pub gp_constraint_starts: Vec<i16>,
    pub gp_constraint_counts: Vec<i16>,
    pub gp_nums: Vec<u16>,
    pub gp_flags: Vec<u16>,
    pub constraints: Vec<i32>,
    pub containers: Vec<(i32, i32, i32, i32)>,
    pub method_to_container: HashMap<usize, usize>,
}

/// How many records of `size` bytes fit in a buffer of `len` bytes from `base` on.
pub open spec fn records_within(len: nat, base: nat, size: nat) -> nat
    recommends
        size > 0,
{
    if base <= len {
        ((len - base) as nat / size) as nat
    } else {
        0
    }
}

/// Whether entry `p` of the parameter columns of `g` is what record `p` of the table at
/// `base` decodes to.
pub open spec fn is_decoded_generic_parameter(
    g: GenericsData,
    body: Seq<u8>,
    names: Seq<u8>,
    table: nat,
    base: int,
    p: int,
) -> bool {
    let record = base + 14 * p;
    let term = generic_parameter_term(p as u64);
    let key = term as u16;
    &&& g.gp_names@[p]@ == name_or(
        decrypted_string(
            names,
            table,
            le_u32(body, record).wrapping_sub(term as u32).wrapping_sub(1149796643),
        ),
        "T"@,
    )
    &&& g.gp_constraint_starts@[p] == ((le_u16(body, record + 4) ^ 0x69B4).wrapping_sub(key)) as i16
    &&& g.gp_constraint_counts@[p] == ((le_u16(body, record + 6) ^ 0x0FD1).wrapping_sub(key)) as i16
    &&& g.gp_containers@[p] == ((le_u16(body, record + 8) ^ 0x7526).wrapping_sub(key)) as u32
    &&& g.gp_nums@[p] == (le_u16(body, record + 10) ^ 0xBD3B).wrapping_sub(key)
    &&& g.gp_flags@[p] == (le_u16(body, record + 12) ^ 0x7AF7).wrapping_sub(key)
}

/// Decoding undoes the encoding of generic parameter records: when record `p` holds its name
/// index raised by 1149796643 and by the record's term (modulo 2^32), and its constraint
/// start, constraint count, container, ordinal and flags each with the term added and masked
/// with the field's constant (modulo 2^16), where the term of record `p` is `(1252900171 *
/// ((((0x617fe3cc452c * p + 0x9dc5db71f0eb440) >> 9) + 718849585) XOR 0x5278374d)) >> 15` in
/// wrapping 64-bit arithmetic, the decoded parameter has that name (or `T` when it is empty)
/// and those fields.
pub proof fn lemma_generic_parameter_decodes_encoded(
    g: GenericsData,
    body: Seq<u8>,
    names: Seq<u8>,
    table: nat,
    base: int,
    p: u64,
    name_index: u32,
    constraint_start: u16,
    constraint_count: u16,
    container: u16,
    ordinal: u16,
    flags: u16,
)
    requires
        is_decoded_generic_parameter(g, body, names, table, base, p as int),
        ({
            let term: u64 = 1252_900171u64.wrapping_mul(
                ((0x617F_E3CC_452Cu64.wrapping_mul(p).wrapping_add(0x09DC_5DB7_1F0E_B440u64) >>9u64).wrapping_add(
                    718849_585u64,
                )) ^ 0x5278_374Du64,
            ) >>15u64;
            let key = term as u16;
            let record = base + 14 * p;
            &&& le_u32(body, record) == name_index.wrapping_add(1_149_796_643u32).wrapping_add(term as u32)
            &&& le_u16(body, record + 4) == constraint_start.wrapping_add(key) ^ 0x69_B4u16
            &&& le_u16(body, record + 6) == constraint_count.wrapping_add(key) ^ 0x0F_D1u16
            &&& le_u16(body, record + 8) == container.wrapping_add(key) ^ 0x75_26u16
            &&& le_u16(body, record + 10) == ordinal.wrapping_add(key) ^ 0xBD_3Bu16
            &&& le_u16(body, record + 12) == flags.wrapping_add(key) ^ 0x7A_F7u16
        }),
    ensures
        g.gp_names@[p as int]@ == name_or(decrypted_string(names, table, name_index), "T"@),
        g.gp_constraint_starts@[p as int] == constraint_start as i16,
        g.gp_constraint_counts@[p as int] == constraint_count as i16,
        g.gp_containers@[p as int] == container as u32,
        g.gp_nums@[p as int] == ordinal,
        g.gp_flags@[p as int] == flags,
{
    let term = generic_parameter_term(p);
    let key = term as u16;
    lemma_unmask16(constraint_start, key, 0x69B4);
    lemma_unmask16(constraint_count, key, 0x0FD1);
    lemma_unmask16(container, key, 0x7526);
    lemma_unmask16(ordinal, key, 0xBD3B);
    lemma_unmask16(flags, key, 0x7AF7);
}

/// Layout discovery reads generic parameter records as decoding does: the container, first
/// constraint and constraint count that it scores record `p` by are those that decoding gives
/// record `p`.
pub proof fn lemma_scored_parameters_are_decoded(
    g: GenericsData,
    body: Seq<u8>,
    names: Seq<u8>,
    table: nat,
    base: int,
    p: int,
)
    requires
        0 <= p,
        is_decoded_generic_parameter(g, body, names, table, base, p),
    ensures
        parameter_container(body, base, p) == g.gp_containers@[p] as i16,
        parameter_constraint_start(body, base, p) == g.gp_constraint_starts@[p],
        parameter_constraint_length(body, base, p) == g.gp_constraint_counts@[p],
{
    let term = generic_parameter_term(p as u64);
    assert((term as u32) as u16 == term as u16) by (bit_vector);
    assert(crate::discovery::layout::parameter_key16(p) == term as u16);
    let c = (le_u16(body, base + 14 * p + 8) ^ 0x7526u16).wrapping_sub(term as u16);
    assert(((c as u32) as i16) == (c as i16)) by (bit_vector);
}

/// The end of the furthest constraint range among the first `n` parameters whose start and
/// count are not negative; 0 when there is none.
pub open spec fn constraint_end(starts: Seq<i16>, counts: Seq<i16>, n: nat) -> nat
    decreases n,
{
    if n == 0 {
        0
    } else {
        let earlier = constraint_end(starts, counts, (n - 1) as nat);
        let start = starts[n - 1];
        let count = counts[n - 1];
        if start >= 0 && count >= 0 && start + count > earlier {
            (start + count) as nat
        } else {
            earlier
        }
    }
}

/// Each container that one of the first `n` types names, mapped to the last type that names it.
pub open spec fn container_types(type_containers: Seq<i32>, n: nat) -> Map<usize, usize>
    decreases n,
{
    if n == 0 {
        Map::empty()
    } else {
        let earlier = container_types(type_containers, (n - 1) as nat);
        let c = type_containers[n - 1];
        if c >= 0 {
            earlier.insert(c as usize, (n - 1) as usize)
        } else {
            earlier
        }
    }
}

/// The key of generic container record `c`.
pub open spec fn container_term(c: u64) -> u32 {
    let step1 = 0x3D6913E0AF40u64.wrapping_mul(c).wrapping_add(0xA64CAD60FA052C0) >> 23u64;
    let step2 = 1_997_422_568u64.wrapping_mul(step1) >> 11u64;
    (748_293_795u64.wrapping_mul(step2) >> 23u64) as u32
}

/// Decoding undoes the encoding of generic container records: when record `c` holds its
/// parameter count and first parameter, each XORed with the record's term and then raised by
/// 214875017 and 248843855 respectively (modulo 2^32), and its owning method XORed with the
/// term and 0x687A16BA, where the term of record `c` is `(748293795 * ((1997422568 *
/// ((0x3D6913E0AF40 * c + 0xA64CAD60FA052C0) >> 23)) >> 11)) >> 23` in wrapping 64-bit
/// arithmetic, cut to 32 bits, the container's entry has that count and first parameter, and
/// a container that no type owns names that method.
pub proof fn lemma_container_decodes_encoded(
    body: Seq<u8>,
    base: int,
    owners: Map<usize, usize>,
    c: u64,
    count: i32,
    start: i32,
    method: u32,
)
    requires
        c < records_within(body.len(), base as nat, 16),
        ({
            let term: u32 = (748293_795u64.wrapping_mul(
                1997_422568u64.wrapping_mul(
                    0x3D69_13E0_AF40u64.wrapping_mul(c).wrapping_add(0x0A64_CAD6_0FA0_52C0u64) >>23u64,
                ) >>11u64,
            ) >>23u64) as u32;
            let record = base + 16 * c;
            &&& le_u32(body, record) == ((count as u32) ^ term).wrapping_add(214875_017u32)
            &&& le_u32(body, record + 12) == ((start as u32) ^ term).wrapping_add(248843_855u32)
            &&& le_u32(body, record + 8) == method ^ term ^ 0x687A_16BAu32
        }),
    ensures
        container_entry(body, base, owners, c as int).1 == count,
        container_entry(body, base, owners, c as int).3 == start,
        container_method(body, base + 16 * c, c) == method as usize,
        !owners.contains_key(c as usize) ==> container_entry(body, base, owners, c as int) == (
        method as usize as i32,
        count,
        1i32,
        start,
        ),
{
    let term = container_term(c);
    let n = count as u32;
    let f = start as u32;
    assert(((n ^ term) ^ term) as i32 == count) by (bit_vector)
        requires
            n == count as u32,
    ;
    assert(((f ^ term) ^ term) as i32 == start) by (bit_vector)
        requires
            f == start as u32,
    ;
    assert(term ^ (method ^ term ^ 0x687A_16BAu32) ^ 0x687A16BAu32 == method) by (bit_vector);
}

/// The method that the record of container `c` at `record` names as its owner.
pub open spec fn container_method(body: Seq<u8>, record: int, c: u64) -> usize {
    (container_term(c) ^ le_u32(body, record + 8) ^ 0x687A16BA) as usize
}

/// The entry (owner, parameter count, whether a method owns it, first parameter) of container
/// `c` of the table at `base`.
pub open spec fn container_entry(
    body: Seq<u8>,
    base: int,
    owners: Map<usize, usize>,
    c: int,
) -> (i32, i32, i32, i32) {
    let record = base + 16 * c;
    if c < records_within(body.len(), base as nat, 16) {
        let v22 = container_term(c as u64);
        let count = (le_u32(body, record).wrapping_sub(214_875_017) ^ v22) as i32;
        let start = (le_u32(body, record + 12).wrapping_sub(248_843_855) ^ v22) as i32;
        if owners.contains_key(c as usize) {
            (owners[c as usize] as i32, count, 0i32, start)
        } else {
            (container_method(body, record, c as u64) as i32, count, 1i32, start)
        }
    } else {
        (-1i32, 0i32, 0i32, -1i32)
    }
}

/// Each method below `method_count` that one of the first `n` containers names as its
/// owner, mapped to the last such container.
pub open spec fn method_containers(
    body: Seq<u8>,
    base: int,
    owners: Map<usize, usize>,
    method_count: nat,
    n: nat,
) -> Map<usize, usize>
    decreases n,
{
    if n == 0 {
        Map::empty()
    } else {
        let earlier = method_containers(body, base, owners, method_count, (n - 1) as nat);
        let c = n - 1;
        let method = container_method(body, base + 16 * c, c as u64);
        if c < records_within(body.len(), base as nat, 16) && !owners.contains_key(c as usize)
            && method < method_count {
            earlier.insert(method, c as usize)
        } else {
            earlier
        }
    }
}

/// The number of method records that fit after the method table of `mhy`.
pub open spec fn method_record_count(body: Seq<u8>, mhy: MhyHeader) -> nat {
    if mhy.method_table_base() <= body.len() {
        ((body.len() - mhy.method_table_base()) as nat / 26) as nat
    } else {
        0
    }
}

/// Whether `r` holds, but for the name offsets of the generic parameters, what
/// `decrypt_generics` decodes from `body` (names read through `names` and `table`) for the
/// tables of `mhy` and the counts of `profile`, when `containers` gives the generic container
/// of each type.
pub open spec fn generics_decoded(
    r: GenericsData,
    global_body: Seq<u8>,
    names: Seq<u8>,
    table: nat,
    mhy: MhyHeader,
    profile: BuildProfile,
    containers: Seq<i32>,
) -> bool {
    let n = vstd::math::min(
        profile.generic_parameter_count as int,
        records_within(global_body.len(), mhy.gp_table_base() as nat, 14) as int,
    );
    &&& r.gp_names@.len() == n
    &&& r.gp_constraint_starts@.len() == n
    &&& r.gp_constraint_counts@.len() == n
    &&& r.gp_containers@.len() == n
    &&& r.gp_nums@.len() == n
    &&& r.gp_flags@.len() == n
    &&& forall|p: int|
        0 <= p < n ==> #[trigger] is_decoded_generic_parameter(r, global_body, names, table, mhy.gp_table_base() as int, p)
    &&& r.constraints@.len() == vstd::math::min(
        constraint_end(r.gp_constraint_starts@, r.gp_constraint_counts@, r.gp_constraint_starts@.len()) as int,
        records_within(global_body.len(), mhy.generic_constraint_table_base() as nat, 4) as int,
    )
    &&& forall|i: int|
        0 <= i < r.constraints@.len() ==> #[trigger] r.constraints@[i] == le_i32(
            global_body,
            mhy.generic_constraint_table_base() + 4 * i,
        )
    &&& r.containers@.len() == profile.generic_container_count
    &&& forall|c: int|
        0 <= c < profile.generic_container_count ==> #[trigger] r.containers@[c] == container_entry(
            global_body,
            mhy.gc_table_base() as int,
            container_types(containers, containers.len()),
            c,
        )
    &&& r.method_to_container@ == method_containers(
        global_body,
        mhy.gc_table_base() as int,
        container_types(containers, containers.len()),
        method_record_count(global_body, mhy),
        profile.generic_container_count as nat,
    )
}

/// Decodes the generic parameters (as many of `profile.generic_parameter_count` as fit in
/// `global_body`), their constraints, and `profile.generic_container_count` containers; a
/// container that one of `type_generic_containers` names belongs to that type, any other to
/// the method its record names.
pub fn decrypt_generics(
    global_body: &[u8],
    mhy: &MhyHeader,
    decryptor: &StringDecryptor,
    profile: &BuildProfile,
    type_generic_containers: &[i32],
) -> (r: GenericsData)
    ensures
        generics_decoded(r, global_body@, decryptor.body(), decryptor.table(), *mhy, *profile, type_generic_containers@),
        r.gp_name_offs@.len() == 0,
{
    let g = decrypt_generic_parameters(global_body, mhy, decryptor, profile.generic_parameter_count);
    let constraints = read_constraints(
        global_body,
        mhy.generic_constraint_table_base(),
        &g.gp_constraint_starts,
        &g.gp_constraint_counts,
    );
    let owners = container_type_map(type_generic_containers);
    let method_count = if mhy.method_table_base() <= global_body.len() {
        (global_body.len() - mhy.method_table_base()) / 26
    } else {
        0
    };
    let (containers, method_to_container) = decrypt_containers(
        global_body,
        mhy.gc_table_base(),
        profile.generic_container_count,
        &owners,
        method_count,
    );
    let r = GenericsData { constraints, containers, method_to_container, ..g };
    assert forall|p: int| 0 <= p < r.gp_names@.len() implies #[trigger] is_decoded_generic_parameter(
        r,
        global_body@,
        decryptor.body(),
        decryptor.table(),
        mhy.gp_table_base() as int,
        p,
    ) by {
        assert(is_decoded_generic_parameter(
            g,
            global_body@,
            decryptor.body(),
            decryptor.table(),
            mhy.gp_table_base() as int,
            p,
        ));
    }
    r
}

fn decrypt_generic_parameters(
    global_body: &[u8],
    mhy: &MhyHeader,
    decryptor: &StringDecryptor,
    total_gp: usize,
) -> (g: GenericsData)
    ensures
        g.gp_name_offs@.len() == 0,
        g.constraints@.len() == 0,
        ({
            let n = vstd::math::min(
                total_gp as int,
                records_within(global_body@.len(), mhy.gp_table_base() as nat, 14) as int,
            );
            &&& g.gp_names@.len() == n
            &&& g.gp_constraint_starts@.len() == n
            &&& g.gp_constraint_counts@.len() == n
            &&& g.gp_containers@.len() == n
            &&& g.gp_nums@.len() == n
            &&& g.gp_flags@.len() == n
            &&& forall|p: int|
                0 <= p < n ==> #[trigger] is_decoded_generic_parameter(
                    g,
                    global_body@,
                    decryptor.body(),
                    decryptor.table(),
                    mhy.gp_table_base() as int,
                    p,
                )
        }),
{
    let gp_base = mhy.gp_table_base();
    let room = if gp_base <= global_body.len() {
        (global_body.len() - gp_base) / 14
    } else {
        0
    };
    let n = if total_gp < room {
        total_gp
    } else {
        room
    };
    let mut g = GenericsData {
        gp_names: Vec::new(),
        gp_containers: Vec::new(),
        gp_name_offs: Vec::new(),
        gp_constraint_starts: Vec::new(),
        gp_constraint_counts: Vec::new(),
        gp_nums: Vec::new(),
        gp_flags: Vec::new(),
        constraints: Vec::new(),
        containers: Vec::new(),
        method_to_container: HashMap::new(),
    };
    let mut p: usize = 0;
    while p < n
        invariant
            p <= n,
            gp_base == mhy.gp_table_base(),
            n <= room,
            room == records_within(global_body@.len(), gp_base as nat, 14),
            n == vstd::math::min(total_gp as int, room as int),
            g.gp_name_offs@.len() == 0,
            g.constraints@.len() == 0,
            g.gp_names@.len() == p,
            g.gp_constraint_starts@.len() == p,
            g.gp_constraint_counts@.len() == p,
            g.gp_containers@.len() == p,
            g.gp_nums@.len() == p,
            g.gp_flags@.len() == p,
            forall|q: int|
                0 <= q < p ==> #[trigger] is_decoded_generic_parameter(
                    g,
                    global_body@,
                    decryptor.body(),
                    decryptor.table(),
                    gp_base as int,
                    q,
                ),
        decreases n - p,
    {
        assert(global_body@.len() == global_body.len());
        let off = gp_base + p * 14;
        let term = generic_parameter_key(p);
        let dword = #[verifier::truncate] (term as u32);
        let key = #[verifier::truncate] (term as u16);
        let name_dword = read_u32_at(global_body, off);
        let name_idx = name_dword.wrapping_sub(dword).wrapping_sub(1149796643);
        let mut pname = decryptor.decrypt_string(name_idx);
        if pname.as_str().is_empty() {
            pname = "T".to_owned();
        }
        let ghost before = g;
        g.gp_names.push(pname);
        g.gp_constraint_starts.push(
            #[verifier::truncate] ((read_u16_at(global_body, off + 4) ^ 0x69B4).wrapping_sub(
                key,
            ) as i16),
        );
        g.gp_constraint_counts.push(
            #[verifier::truncate] ((read_u16_at(global_body, off + 6) ^ 0x0FD1).wrapping_sub(
                key,
            ) as i16),
        );
        g.gp_containers.push((read_u16_at(global_body, off + 8) ^ 0x7526).wrapping_sub(key) as u32);
        g.gp_nums.push((read_u16_at(global_body, off + 10) ^ 0xBD3B).wrapping_sub(key));
        g.gp_flags.push((read_u16_at(global_body, off + 12) ^ 0x7AF7).wrapping_sub(key));
        assert forall|q: int| 0 <= q < p + 1 implies #[trigger] is_decoded_generic_parameter(
            g,
            global_body@,
            decryptor.body(),
            decryptor.table(),
            gp_base as int,
            q,
        ) by {
            if q < p {
                assert(is_decoded_generic_parameter(
                    before,
                    global_body@,
                    decryptor.body(),
                    decryptor.table(),
                    gp_base as int,
                    q,
                ));
            }
        }
        p = p + 1;
    }
    g
}

fn read_constraints(
    global_body: &[u8],
    constraint_base: usize,
    starts: &Vec<i16>,
    counts: &Vec<i16>,
) -> (r: Vec<i32>)
    requires
        starts@.len() == counts@.len(),
    ensures
        r@.len() == vstd::math::min(
            constraint_end(starts@, counts@, starts@.len()) as int,
            records_within(global_body@.len(), constraint_base as nat, 4) as int,
        ),
        forall|i: int|
            0 <= i < r@.len() ==> #[trigger] r@[i] == le_i32(global_body@, constraint_base + 4 * i),
{
    let mut end: usize = 0;
    let mut k: usize = 0;
    while k < starts.len()
        invariant
            k <= starts@.len(),
            starts@.len() == counts@.len(),
            end == constraint_end(starts@, counts@, k as nat),
            end <= 0xFFFF,
        decreases starts.len() - k,
    {
        let start = starts[k];
        let count = counts[k];
        if start >= 0 && count >= 0 {
            let e = start as usize + count as usize;
            if e > end {
                end = e;
            }
        }
        k = k + 1;
    }
    let room = if constraint_base <= global_body.len() {
        (global_body.len() - constraint_base) / 4
    } else {
        0
    };
    let n = if end < room {
        end
    } else {
        room
    };
    let mut constraints: Vec<i32> = Vec::new();
    let mut i: usize = 0;
    while i < n
        invariant
            i <= n,
            n <= room,
            room == records_within(global_body@.len(), constraint_base as nat, 4),
            constraints@.len() == i,
            forall|j: int|
                0 <= j < i ==> #[trigger] constraints@[j] == le_i32(
                    global_body@,
                    constraint_base + 4 * j,
                ),
        decreases n - i,
    {
        assert(global_body@.len() == global_body.len());
        constraints.push(read_i32_at(global_body, constraint_base + i * 4));
        i = i + 1;
    }
    constraints
}

fn container_type_map(type_generic_containers: &[i32]) -> (r: HashMap<usize, usize>)
    ensures
        r@ == container_types(type_generic_containers@, type_generic_containers@.len()),
{
    broadcast use vstd::std_specs::hash::group_hash_axioms;

    let mut owners: HashMap<usize, usize> = HashMap::new();
    let mut t: usize = 0;
    while t < type_generic_containers.len()
        invariant
            t <= type_generic_containers@.len(),
            owners@ == container_types(type_generic_containers@, t as nat),
        decreases type_generic_containers.len() - t,
    {
        let c = type_generic_containers[t];
        if c >= 0 {
            owners.insert(c as usize, t);
        }
        t = t + 1;
    }
    owners
}

fn decrypt_containers(
    global_body: &[u8],
    gc_base: usize,
    total_containers: usize,
    owners: &HashMap<usize, usize>,
    method_count: usize,
) -> (r: (Vec<(i32, i32, i32, i32)>, HashMap<usize, usize>))
    ensures
        r.0@.len() == total_containers,
        forall|c: int|
            0 <= c < total_containers ==> #[trigger] r.0@[c] == container_entry(
                global_body@,
                gc_base as int,
                owners@,
                c,
            ),
        r.1@ == method_containers(
            global_body@,
            gc_base as int,
            owners@,
            method_count as nat,
            total_containers as nat,
        ),
{
    broadcast use vstd::std_specs::hash::group_hash_axioms;

    let room = if gc_base <= global_body.len() {
        (global_body.len() - gc_base) / 16
    } else {
        0
    };
    let mut containers: Vec<(i32, i32, i32, i32)> = Vec::new();
    let mut method_to_container: HashMap<usize, usize> = HashMap::new();
    let mut c: usize = 0;
    while c < total_containers
        invariant
            c <= total_containers,
            room == records_within(global_body@.len(), gc_base as nat, 16),
            containers@.len() == c,
            forall|k: int|
                0 <= k < c ==> #[trigger] containers@[k] == container_entry(
                    global_body@,
                    gc_base as int,
                    owners@,
                    k,
                ),
            method_to_container@ == method_containers(
                global_body@,
                gc_base as int,
                owners@,
                method_count as nat,
                c as nat,
            ),
        decreases total_containers - c,
    {
        let mut entry: (i32, i32, i32, i32) = (-1, 0, 0, -1);
        if c < room {
            assert(global_body@.len() == global_body.len());
            let off = gc_base + c * 16;
            let d0 = read_u32_at(global_body, off);
            let d2 = read_u32_at(global_body, off + 8);
            let d3 = read_u32_at(global_body, off + 12);
            let v22 = container_key(c as u64);
            let p_cnt = #[verifier::truncate] ((d0.wrapping_sub(214_875_017) ^ v22) as i32);
            let p_start = #[verifier::truncate] ((d3.wrapping_sub(248_843_855) ^ v22) as i32);
            match owners.get(&c) {
                Some(owner) => {
                    entry = (#[verifier::truncate] (*owner as i32), p_cnt, 0, p_start);
                },
                None => {
                    let owner = (v22 ^ d2 ^ 0x687A16BA) as usize;
                    entry = (#[verifier::truncate] (owner as i32), p_cnt, 1, p_start);
                    if owner < method_count {
                        method_to_container.insert(owner, c);
                    }
                },
            }
        }
        containers.push(entry);
        c = c + 1;
    }
    (containers, method_to_container)
}

/// The key of generic container record `c`.
pub(crate) fn container_key(c: u64) -> (r: u32)
    ensures
        r == container_term(c),
{
    let step1 = (0x3D6913E0AF40u64.wrapping_mul(c).wrapping_add(0xA64CAD60FA052C0)) >> 23;
    let step2 = 1_997_422_568u64.wrapping_mul(step1) >> 11;
    #[verifier::truncate] ((748_293_795u64.wrapping_mul(step2) >> 23) as u32)
}

} // verus!
