use crate::bytes::{in_bounds, le_u64, lemma_le_u64_bytes, read_u64_at, u64_bytes, u64_le_bytes};
use vstd::hash_map::StringHashMap;
use vstd::prelude::*;
use vstd::string::StrSliceExecFns;
use vstd::string::StringExecFns;
use vstd::utf8::{decode_utf8, encode_utf8, encode_utf8_decode_utf8, encode_utf8_valid_utf8, valid_utf8};

verus! {

/// What `String::from_utf8_lossy` makes of `bytes` that are not valid UTF-8.
pub uninterp spec fn utf8_lossy(bytes: Seq<u8>) -> Seq<char>;

/// What `String::from_utf8_lossy` makes of `bytes`: the string that valid UTF-8 encodes, as
/// its documentation says; for other bytes, the name `utf8_lossy`.
pub open spec fn lossy_decoding(bytes: Seq<u8>) -> Seq<char> {
    if valid_utf8(bytes) {
        decode_utf8(bytes)
    } else {
        utf8_lossy(bytes)
    }
}

/// Calls `String::from_utf8_lossy` on `bytes` and takes the owned result. Its
/// documentation says that valid UTF-8 comes back as the string it encodes; what replaces
/// invalid sequences is left to the name `utf8_lossy`.
#[verifier::external_body]
pub(crate) fn lossy_string(bytes: &[u8]) -> (s: String)
    ensures
        s@ == (if valid_utf8(bytes@) {
            decode_utf8(bytes@)
        } else {
            utf8_lossy(bytes@)
        }),
{
    String::from_utf8_lossy(bytes).into_owned()
}

/// The decimal digits of `n`, most significant first.
pub open spec fn decimal_digits(n: nat) -> Seq<char>
    decreases n,
{
    if n < 10 {
        seq![(n + 48) as char]
    } else {
        decimal_digits(n / 10).push(((n % 10) + 48) as char)
    }
}

/// The one-character string of the decimal digit `d`.
fn digit_str(d: u128) -> (r: &'static str)
    requires
        d < 10,
    ensures
        r@ == seq![(d + 48) as char],
{
    proof {
        reveal_strlit("0");
        reveal_strlit("1");
        reveal_strlit("2");
        reveal_strlit("3");
        reveal_strlit("4");
        reveal_strlit("5");
        reveal_strlit("6");
        reveal_strlit("7");
        reveal_strlit("8");
        reveal_strlit("9");
    }
    if d == 0 {
        "0"
    } else if d == 1 {
        "1"
    } else if d == 2 {
        "2"
    } else if d == 3 {
        "3"
    } else if d == 4 {
        "4"
    } else if d == 5 {
        "5"
    } else if d == 6 {
        "6"
    } else if d == 7 {
        "7"
    } else if d == 8 {
        "8"
    } else {
        "9"
    }
}

/// Appends the decimal digits of `n` to `s`.
pub(crate) fn push_decimal(s: &mut String, n: u128)
    ensures
        final(s)@ == old(s)@ + decimal_digits(n as nat),
    decreases n,
{
    if n < 10 {
        s.append(digit_str(n));
    } else {
        push_decimal(s, n / 10);
        s.append(digit_str(n % 10));
        assert(decimal_digits(n as nat) == decimal_digits((n / 10) as nat).push(((n % 10) + 48) as char));
    }
}

/// `prefix`, the decimal form of `n` and `suffix`, in that order.
pub(crate) fn numbered_name(prefix: &str, n: usize, suffix: &str) -> (s: String)
    ensures
        s@ == prefix@ + decimal_digits(n as nat) + suffix@,
{
    let mut s = String::from_str(prefix);
    push_decimal(&mut s, n as u128);
    s.append(suffix);
    s
}

/// `s`, or `default` when `s` is empty.
pub open spec fn name_or(s: Seq<char>, default: Seq<char>) -> Seq<char> {
    if s.len() == 0 {
        default
    } else {
        s
    }
}

/// The byte length and table offset that a string index encodes.
pub open spec fn string_index_parts(index: u32) -> (nat, nat) {
    if index >= 0x8000_0000 {
        (((index >> 23) & 0xFF) as nat, (index & 0x7F_FFFF) as nat)
    } else {
        (((index >> 25) & 0x3F) as nat, (index & 0x1FF_FFFF) as nat)
    }
}

/// The key of block `j` of a rolling XOR schedule that starts at `key0` and grows by `step`
/// after every eight-byte block.
pub open spec fn rolling_key(key0: u64, step: u64, j: nat) -> u64
    decreases j,
{
    if j == 0 {
        key0
    } else {
        rolling_key(key0, step, (j - 1) as nat).wrapping_add(step)
    }
}

/// Block `k` of a rolling schedule is `key0 + k * step` modulo 2^64.
pub(crate) proof fn lemma_rolling_key_closed(key0: u64, step: u64, k: nat)
    ensures
        rolling_key(key0, step, k) as int == (key0 + k * step) % 0x1_0000_0000_0000_0000,
    decreases k,
{
    if k > 0 {
        lemma_rolling_key_closed(key0, step, (k - 1) as nat);
        let r = rolling_key(key0, step, (k - 1) as nat);
        let before = key0 + (k - 1) * step;
        assert(r.wrapping_add(step) as int == (r + step) % 0x1_0000_0000_0000_0000);
        vstd::arithmetic::div_mod::lemma_add_mod_noop_right(step as int, before, 0x1_0000_0000_0000_0000);
        assert(step + before == key0 + k * step) by (nonlinear_arith)
            requires
                before == key0 + (k - 1) * step,
        ;
    } else {
        assert(key0 + 0 * step == key0);
    }
}

/// The first `n` eight-byte blocks from `start` in `body`, each XORed with its rolling key.
pub open spec fn xor_blocks(body: Seq<u8>, start: int, key0: u64, step: u64, n: nat) -> Seq<u8>
    decreases n,
{
    if n == 0 {
        Seq::empty()
    } else {
        xor_blocks(body, start, key0, step, (n - 1) as nat) + u64_bytes(
            le_u64(body, start + 8 * (n - 1)) ^ rolling_key(key0, step, (n - 1) as nat),
        )
    }
}

/// The first key of the string at table offset `offset`.
pub open spec fn string_key(offset: nat) -> u64 {
    (offset as u64).wrapping_mul(0x907C49622D94D21A).wrapping_add(0x75B679DAF67C3F24)
}

/// The first `n` decrypted eight-byte blocks of the string whose encrypted bytes start at
/// `start` in `body` and whose table offset is `offset`.
pub open spec fn string_blocks(body: Seq<u8>, start: int, offset: nat, n: nat) -> Seq<u8> {
    xor_blocks(body, start, string_key(offset), 0x3E693CD23A41FDEF, n)
}

/// Decrypts `blocks` eight-byte blocks of `body` from `start` on and keeps the first `length`
/// bytes.
pub(crate) fn decrypt_blocks(body: &[u8], start: usize, key0: u64, step: u64, blocks: usize, length: usize) -> (r: Vec<u8>)
    requires
        start + 8 * blocks <= body@.len(),
        length <= 8 * blocks,
    ensures
        r@ == xor_blocks(body@, start as int, key0, step, blocks as nat).take(length as int),
{
    let mut key = key0;
    let mut dec: Vec<u8> = Vec::new();
    let mut j: usize = 0;
    while j < blocks
        invariant
            j <= blocks,
            start + 8 * blocks <= body@.len(),
            body@.len() == body.len(),
            key == rolling_key(key0, step, j as nat),
            dec@ == xor_blocks(body@, start as int, key0, step, j as nat),
        decreases blocks - j,
    {
        let chunk = read_u64_at(body, start + 8 * j);
        let bytes = u64_le_bytes(chunk ^ key);
        let mut k: usize = 0;
        let ghost before = dec@;
        while k < 8
            invariant
                k <= 8,
                dec@ == before + bytes@.take(k as int),
            decreases 8 - k,
        {
            dec.push(bytes[k]);
            k = k + 1;
        }
        assert(bytes@.take(8) =~= bytes@);
        let ghost old_j = j;
        key = key.wrapping_add(step);
        j = j + 1;
        assert(rolling_key(key0, step, j as nat) == rolling_key(key0, step, old_j as nat).wrapping_add(step));
        assert(dec@ =~= xor_blocks(body@, start as int, key0, step, j as nat));
    }
    proof {
        lemma_xor_blocks_len(body@, start as int, key0, step, blocks as nat);
    }
    let mut plain: Vec<u8> = Vec::with_capacity(length);
    let mut k: usize = 0;
    while k < length
        invariant
            k <= length,
            length <= dec@.len(),
            plain@ == dec@.take(k as int),
        decreases length - k,
    {
        plain.push(dec[k]);
        k = k + 1;
        assert(plain@ =~= dec@.take(k as int));
    }
    plain
}

/// The XORed blocks hold eight bytes each.
pub proof fn lemma_xor_blocks_len(body: Seq<u8>, start: int, key0: u64, step: u64, n: nat)
    ensures
        xor_blocks(body, start, key0, step, n).len() == 8 * n,
    decreases n,
{
    if n > 0 {
        lemma_xor_blocks_len(body, start, key0, step, (n - 1) as nat);
    }
}

/// The number of eight-byte blocks that hold `length` bytes.
pub open spec fn block_count(length: nat) -> nat {
    (length + 7) as nat / 8
}

/// Whether the string index `index` names bytes that the table at `table` in `body` holds.
pub open spec fn string_is_readable(body: Seq<u8>, table: nat, index: u32) -> bool {
    let (length, offset) = string_index_parts(index);
    &&& index != 0
    &&& index != u32::MAX
    &&& length != 0
    &&& in_bounds(body, (table + offset) as int, (8 * block_count(length)) as int)
}

/// The decrypted bytes of the string that `index` names in the table at `table` of `body`.
pub open spec fn string_bytes(body: Seq<u8>, table: nat, index: u32) -> Seq<u8> {
    let (length, offset) = string_index_parts(index);
    string_blocks(body, (table + offset) as int, offset, block_count(length)).take(length as int)
}

/// The string that `index` names in the table at `table` of `body`: empty when the index
/// is a sentinel, has no length or runs past the body.
#[verifier::opaque]
pub open spec fn decrypted_string(body: Seq<u8>, table: nat, index: u32) -> Seq<char> {
    if string_is_readable(body, table, index) {
        lossy_decoding(string_bytes(body, table, index))
    } else {
        Seq::empty()
    }
}

/// Decrypts names from the string table of a metadata body.
pub struct StringDecryptor<'a> {
    global_body: &'a [u8],
    string_table_off: usize,
}

impl<'a> StringDecryptor<'a> {
    /// The metadata body that the strings are read from.
    pub closed spec fn body(&self) -> Seq<u8> {
        self.global_body@
    }

    /// The offset of the string table in the body.
    pub closed spec fn table(&self) -> nat {
        self.string_table_off as nat
    }

    pub fn new(global_body: &'a [u8], string_table_off: usize) -> (r: Self)
        ensures
            r.body() == global_body@,
            r.table() == string_table_off,
    {
        Self { global_body, string_table_off }
    }

    /// The string that `index` names, or an empty string.
    pub fn decrypt_string(&self, index: u32) -> (s: String)
        ensures
            s@ == decrypted_string(self.body(), self.table(), index),
    {
        reveal(decrypted_string);
        if index == 0 || index == u32::MAX {
            return String::new();
        }
        let is_neg = index >= 0x8000_0000;
        let (length, offset) = if is_neg {
            (((index >> 23) & 0xFF) as usize, (index & 0x7FFFFF) as usize)
        } else {
            (((index >> 25) & 0x3F) as usize, (index & 0x1FFFFFF) as usize)
        };
        assert((index >> 23) & 0xFF <= 0xFF) by (bit_vector);
        assert((index >> 25) & 0x3F <= 0x3F) by (bit_vector);
        assert((length as nat, offset as nat) == string_index_parts(index));
        assert(self.global_body@.len() == self.global_body.len());
        if length == 0 {
            return String::new();
        }
        let pad_len = (length + 7) / 8 * 8;
        let blocks = (length + 7) / 8;
        let str_off = match self.string_table_off.checked_add(offset) {
            Some(value) => value,
            None => return String::new(),
        };
        if str_off > self.global_body.len() || self.global_body.len() - str_off < pad_len {
            return String::new();
        }
        assert(string_is_readable(self.body(), self.table(), index));
        let key = (offset as u64).wrapping_mul(0x907C49622D94D21A).wrapping_add(
            0x75B679DAF67C3F24,
        );
        let plain = decrypt_blocks(self.global_body, str_off, key, 0x3E693CD23A41FDEF, blocks, length);
        lossy_string(plain.as_slice())
    }
}

/// Whether `pool` holds the UTF-8 bytes of `k` at `off`, followed by a NUL byte.
pub open spec fn pool_holds(pool: Seq<u8>, k: Seq<char>, off: int) -> bool {
    let b = encode_utf8(k);
    &&& 0 <= off
    &&& off + b.len() < pool.len()
    &&& pool.subrange(off, off + b.len()) == b
    &&& pool[off + b.len()] == 0
}

/// The NUL-terminated string pool of the rebuilt metadata, with the offset of every string
/// that was added to it.
pub struct StringPool {
    pub pool: Vec<u8>,
    pub map: StringHashMap<u32>,
    pub list: Vec<String>,
}

impl StringPool {
    /// Every string of the map stands in the pool at its offset; the empty string is at 0.
    pub open spec fn wf(&self) -> bool {
        &&& self.map@.contains_key(Seq::empty())
        &&& self.map@[Seq::empty()] == 0
        &&& forall|k: Seq<char>|
            #[trigger] self.map@.contains_key(k) ==> pool_holds(self.pool@, k, self.map@[k] as int)
    }

    /// A pool that holds only the empty string, at offset 0.
    pub fn new() -> (r: Self)
        ensures
            r.wf(),
            r.pool@ == seq![0u8],
            r.map@ == Map::<Seq<char>, u32>::empty().insert(Seq::empty(), 0),
            r.list@.len() == 0,
    {
        let mut map = StringHashMap::new();
        map.insert(String::new(), 0);
        let mut pool: Vec<u8> = Vec::new();
        pool.push(0);
        let r = Self { pool, map, list: Vec::new() };
        proof {
            assert(encode_utf8(Seq::<char>::empty()) =~= Seq::<u8>::empty()) by {
                reveal_with_fuel(encode_utf8, 1);
            }
            assert(r.pool@.subrange(0, 0) =~= Seq::<u8>::empty());
        }
        r
    }

    /// The offset of `s` in the pool; a string that is not there yet is appended with a NUL.
    #[verifier::spinoff_prover]
    pub fn add_string(&mut self, s: &str) -> (off: u32)
        ensures
            s@.len() == 0 ==> off == 0 && *final(self) == *old(self),
            s@.len() != 0 && old(self).map@.contains_key(s@) ==> off == old(self).map@[s@]
                && *final(self) == *old(self),
            s@.len() != 0 && !old(self).map@.contains_key(s@) ==> {
                &&& off == old(self).pool@.len() as u32
                &&& final(self).pool@ == old(self).pool@ + encode_utf8(s@) + seq![0u8]
                &&& final(self).map@ == old(self).map@.insert(s@, off)
                &&& final(self).list@.len() == old(self).list@.len() + 1
                &&& final(self).list@.last()@ == s@
                &&& final(self).list@.drop_last() == old(self).list@
            },
            old(self).wf() && old(self).pool@.len() + encode_utf8(s@).len() < 0x1_0000_0000 ==> {
                &&& final(self).wf()
                &&& pool_holds(final(self).pool@, s@, off as int)
            },
    {
        if s.is_empty() {
            proof {
                if old(self).wf() {
                    assert(s@ =~= Seq::<char>::empty());
                    assert(self.map@.contains_key(s@));
                }
            }
            return 0;
        }
        if let Some(off) = self.map.get(s) {
            proof {
                if old(self).wf() {
                    assert(self.map@.contains_key(s@));
                }
            }
            return *off;
        }
        let off = #[verifier::truncate] (self.pool.len() as u32);
        let bytes = s.as_bytes();
        let ghost old_pool = self.pool@;
        let mut i: usize = 0;
        while i < bytes.len()
            invariant
                i <= bytes@.len(),
                self.pool@ == old_pool + bytes@.take(i as int),
                self.map == old(self).map,
                self.list == old(self).list,
                bytes@ == encode_utf8(s@),
                old_pool == old(self).pool@,
            decreases bytes@.len() - i,
        {
            self.pool.push(bytes[i]);
            i = i + 1;
            assert(self.pool@ =~= old_pool + bytes@.take(i as int));
        }
        assert(bytes@.take(bytes@.len() as int) =~= bytes@);
        self.pool.push(0);
        let owned = s.to_owned();
        assert(owned@ == s@);
        self.map.insert(owned, off);
        assert(self.map@ == old(self).map@.insert(s@, off));
        let ghost old_list = self.list@;
        self.list.push(s.to_owned());
        assert(self.list@.drop_last() =~= old_list);
        proof {
            let b = encode_utf8(s@);
            let new_pool = self.pool@;
            assert(new_pool =~= old_pool + b + seq![0u8]);
            if old(self).wf() && old_pool.len() + b.len() < 0x1_0000_0000 {
                assert forall|k: Seq<char>| #[trigger] self.map@.contains_key(k) implies pool_holds(
                    self.pool@,
                    k,
                    self.map@[k] as int,
                ) by {
                    if k == s@ {
                        assert(off as int == old_pool.len());
                        assert(new_pool.subrange(off as int, off + b.len()) =~= b);
                    } else {
                        assert(old(self).map@.contains_key(k));
                        let o = old(self).map@[k] as int;
                        let kb = encode_utf8(k);
                        assert(pool_holds(old_pool, k, o));
                        assert(new_pool.subrange(o, o + kb.len()) =~= old_pool.subrange(o, o + kb.len()));
                    }
                }
            }
        }
        off
    }
}

/// Whether `s` ends with the characters of `suffix`.
pub fn str_ends_with(s: &str, suffix: &str) -> (r: bool)
    ensures
        r == (suffix@.len() <= s@.len() && s@.subrange(s@.len() - suffix@.len(), s@.len() as int)
            == suffix@),
{
    let n = suffix.unicode_len();
    let m = s.unicode_len();
    if n > m {
        return false;
    }
    let mut i: usize = 0;
    while i < n
        invariant
            i <= n,
            n == suffix@.len(),
            m == s@.len(),
            n <= m,
            forall|j: int| 0 <= j < i ==> s@[m - n + j] == suffix@[j],
        decreases n - i,
    {
        if s.get_char(m - n + i) != suffix.get_char(i) {
            assert(s@.subrange(m - n, m as int)[i as int] != suffix@[i as int]);
            return false;
        }
        i = i + 1;
    }
    assert(s@.subrange(m - n, m as int) =~= suffix@);
    true
}

/// Whether `a` and `b` hold the same characters.
pub fn str_equals(a: &str, b: &str) -> (r: bool)
    ensures
        r == (a@ == b@),
{
    let n = a.unicode_len();
    if n != b.unicode_len() {
        return false;
    }
    let mut i: usize = 0;
    while i < n
        invariant
            i <= n,
            n == a@.len(),
            n == b@.len(),
            forall|j: int| 0 <= j < i ==> a@[j] == b@[j],
        decreases n - i,
    {
        if a.get_char(i) != b.get_char(i) {
            return false;
        }
        i = i + 1;
    }
    assert(a@ =~= b@);
    true
}

/// Whether `s` starts with the characters of `prefix`.
pub fn str_starts_with(s: &str, prefix: &str) -> (r: bool)
    ensures
        r == (prefix@.len() <= s@.len() && s@.subrange(0, prefix@.len() as int) == prefix@),
{
    let n = prefix.unicode_len();
    if n > s.unicode_len() {
        return false;
    }
    let mut i: usize = 0;
    while i < n
        invariant
            i <= n,
            n == prefix@.len(),
            n <= s@.len(),
            forall|j: int| 0 <= j < i ==> s@[j] == prefix@[j],
        decreases n - i,
    {
        if s.get_char(i) != prefix.get_char(i) {
            assert(s@.subrange(0, n as int)[i as int] != prefix@[i as int]);
            return false;
        }
        i = i + 1;
    }
    assert(s@.subrange(0, n as int) =~= prefix@);
    true
}

proof fn lemma_xor_blocks_shift(body: Seq<u8>, table: int, start: int, key0: u64, step: u64, n: nat)
    requires
        0 <= table,
        0 <= start,
        table + start + 8 * n <= body.len(),
    ensures
        xor_blocks(body, table + start, key0, step, n) == xor_blocks(
            body.subrange(table, body.len() as int),
            start,
            key0,
            step,
            n,
        ),
    decreases n,
{
    if n > 0 {
        lemma_xor_blocks_shift(body, table, start, key0, step, (n - 1) as nat);
        let sub = body.subrange(table, body.len() as int);
        let p = start + 8 * (n - 1);
        assert(le_u64(body, table + p) == le_u64(sub, p)) by {
            assert(sub[p] == body[table + p]);
            assert(sub[p + 1] == body[table + p + 1]);
            assert(sub[p + 2] == body[table + p + 2]);
            assert(sub[p + 3] == body[table + p + 3]);
            assert(sub[p + 4] == body[table + p + 4]);
            assert(sub[p + 5] == body[table + p + 5]);
            assert(sub[p + 6] == body[table + p + 6]);
            assert(sub[p + 7] == body[table + p + 7]);
        }
    }
}

/// A string table at `table` of `body` holds the same strings as the body cut at `table`
/// with its table at 0: the table offset only moves where the encrypted bytes are read, the
/// key depends on the offset within the table alone.
pub proof fn lemma_table_offset_shift(body: Seq<u8>, table: nat, index: u32)
    requires
        table <= body.len(),
    ensures
        decrypted_string(body, table, index) == decrypted_string(body.subrange(table as int, body.len() as int), 0, index),
{
    reveal(decrypted_string);
    let sub = body.subrange(table as int, body.len() as int);
    let (length, offset) = string_index_parts(index);
    assert(string_is_readable(body, table, index) == string_is_readable(sub, 0, index));
    if string_is_readable(body, table, index) {
        lemma_xor_blocks_shift(body, table as int, offset as int, string_key(offset), 0x3E693CD23A41FDEF, block_count(length));
        assert(string_bytes(body, table, index) == string_bytes(sub, 0, index));
    }
}

pub(crate) proof fn lemma_xor_blocks_undo(body: Seq<u8>, start: int, key0: u64, step: u64, plain: Seq<u8>, n: nat)
    requires
        0 <= start,
        start + 8 * n <= body.len(),
        8 * n <= plain.len(),
        forall|k: int|
            0 <= k < n ==> #[trigger] le_u64(body, start + 8 * k) == le_u64(plain, 8 * k) ^ rolling_key(key0, step, k as nat),
    ensures
        xor_blocks(body, start, key0, step, n) == plain.take((8 * n) as int),
    decreases n,
{
    if n > 0 {
        let m = (n - 1) as nat;
        let w = 8 * m as int;
        lemma_xor_blocks_undo(body, start, key0, step, plain, m);
        let key = rolling_key(key0, step, m);
        let x = le_u64(plain, w);
        assert(le_u64(body, start + w) == x ^ key);
        assert((x ^ key) ^ key == x) by (bit_vector);
        lemma_le_u64_bytes(plain, w);
        assert(plain.take(w + 8) =~= plain.take(w) + plain.subrange(w, w + 8));
    }
}

/// Decryption undoes the rolling-XOR encryption: when the eight-byte blocks at
/// `table + offset` of `body` are those of `padded` (the UTF-8 bytes of `text` followed by
/// any bytes up to a whole block) XORed with the key schedule of `offset`, whose key for
/// block `k` is `offset * 0x907C49622D94D21A + 0x75B679DAF67C3F24 + k * 0x3E693CD23A41FDEF`
/// modulo 2^64, the string index
/// of length `encode_utf8(text).len()` and offset `offset` decrypts to `text`.
pub proof fn lemma_decrypt_encrypted(body: Seq<u8>, table: nat, offset: nat, text: Seq<char>, padded: Seq<u8>)
    requires
        0 < encode_utf8(text).len() <= 63,
        offset < 0x200_0000,
        padded.len() == 8 * block_count(encode_utf8(text).len()),
        padded.take(encode_utf8(text).len() as int) == encode_utf8(text),
        table + offset + padded.len() <= body.len(),
        forall|k: int|
            0 <= k < block_count(encode_utf8(text).len()) ==> #[trigger] le_u64(body, table + offset + 8 * k)
                == le_u64(padded, 8 * k) ^ ((offset * 0x907C_4962_2D94_D21A + 0x75B6_79DA_F67C_3F24 + k
                * 0x3E69_3CD2_3A41_FDEF) % 0x1_0000_0000_0000_0000) as u64,
    ensures
        decrypted_string(body, table, (((encode_utf8(text).len() as u32) << 25u32) | offset as u32) as u32) == text,
{
    reveal(decrypted_string);
    let bytes = encode_utf8(text);
    let len = bytes.len() as u32;
    let off = offset as u32;
    let index = ((len << 25u32) | off) as u32;
    assert(index < 0x8000_0000 && ((index >> 25u32) & 0x3F) == len && (index & 0x1FF_FFFF) == off) by (bit_vector)
        requires
            0 < len <= 63,
            off < 0x200_0000,
            index == ((len << 25u32) | off) as u32,
    ;
    assert(index != 0) by (bit_vector)
        requires
            0 < len,
            ((index >> 25u32) & 0x3F) == len,
    ;
    let blocks = block_count(bytes.len());
    let key0 = string_key(offset);
    let step: u64 = 0x3E693CD23A41FDEF;
    let spread: int = offset as int * 0x907C_4962_2D94_D21A;
    assert(key0 as int == ((spread % 0x1_0000_0000_0000_0000) + 0x75B6_79DA_F67C_3F24) % 0x1_0000_0000_0000_0000);
    vstd::arithmetic::div_mod::lemma_add_mod_noop_right(0x75B6_79DA_F67C_3F24, spread, 0x1_0000_0000_0000_0000);
    assert forall|k: int| 0 <= k < blocks implies #[trigger] le_u64(body, table + offset + 8 * k) == le_u64(padded, 8 * k)
        ^ rolling_key(key0, step, k as nat) by {
        lemma_rolling_key_closed(key0, step, k as nat);
        vstd::arithmetic::div_mod::lemma_add_mod_noop_right(k * step, spread + 0x75B6_79DA_F67C_3F24, 0x1_0000_0000_0000_0000);
        assert(rolling_key(key0, step, k as nat) as int == (spread + 0x75B6_79DA_F67C_3F24 + k * step)
            % 0x1_0000_0000_0000_0000);
    }
    lemma_xor_blocks_undo(body, (table + offset) as int, key0, step, padded, blocks);
    assert(string_bytes(body, table, index) =~= bytes);
    encode_utf8_valid_utf8(text);
    encode_utf8_decode_utf8(text);
}

} // verus!
