use super::layout::{MhyCandidates, MhyLayout};
use super::runtime::{complete_type_records, discover_method_count, largest_method_end};
use super::secondary::{scored_table_scores, select_scored, ScoredTable};
use super::{
    declared_fields, declared_parameters, discover_field_count, discover_parameter_count,
    image_records_score, score_images_at, sorted_distinct, table_choice, unique_best,
    unique_best_spec, unique_values,
};
use crate::bytes::le_u32;
use crate::reconstruction::images::{decrypt_images_at, image_key, image_run, is_image_record_at};
use crate::reconstruction::literals::{decrypt_at, discover_count_at, is_literal_count_at, literal_datas_at};
use crate::reconstruction::strings::StringDecryptor;
use vstd::prelude::*;
use vstd::utf8::{decode_utf8, valid_utf8};

verus! {

/// Whether `c` has the Unicode general category of control codes (`Cc`): U+0000 to U+001F
/// and U+007F to U+009F.
pub open spec fn char_is_control(c: char) -> bool {
    let u = c as u32;
    u <= 0x1F || (0x7F <= u && u <= 0x9F)
}

/// Whether `c` has the Unicode `White_Space` property: U+0009 to U+000D, U+0020, U+0085,
/// U+00A0, U+1680, U+2000 to U+200A, U+2028, U+2029, U+202F, U+205F and U+3000.
pub open spec fn char_is_whitespace(c: char) -> bool {
    let u = c as u32;
    ||| (0x09 <= u && u <= 0x0D)
    ||| u == 0x20
    ||| u == 0x85
    ||| u == 0xA0
    ||| u == 0x1680
    ||| (0x2000 <= u && u <= 0x200A)
    ||| u == 0x2028
    ||| u == 0x2029
    ||| u == 0x202F
    ||| u == 0x205F
    ||| u == 0x3000
}

/// Whether `c` is a control character (general category `Cc`), as `char::is_control` says.
fn is_control_char(c: char) -> (r: bool)
    ensures
        r == char_is_control(c),
{
    let u = c as u32;
    u <= 0x1F || (0x7F <= u && u <= 0x9F)
}

/// Whether `c` has the Unicode `White_Space` property, as `char::is_whitespace` says.
fn is_whitespace_char(c: char) -> (r: bool)
    ensures
        r == char_is_whitespace(c),
{
    let u = c as u32;
    (0x09 <= u && u <= 0x0D) || u == 0x20 || u == 0x85 || u == 0xA0 || u == 0x1680 || (0x2000 <= u && u
        <= 0x200A) || u == 0x2028 || u == 0x2029 || u == 0x202F || u == 0x205F || u == 0x3000
}

/// Calls `std::str::from_utf8` on `data` and takes the characters of the text: `None` when
/// the bytes are not UTF-8, and otherwise the characters they encode.
#[verifier::external_body]
fn utf8_chars(data: &[u8]) -> (r: Option<Vec<char>>)
    ensures
        r is Some <==> valid_utf8(data@),
        r matches Some(v) ==> v@ == decode_utf8(data@),
{
    std::str::from_utf8(data).ok().map(|text| text.chars().collect())
}

/// Whether every character of `text` is either not a control character or whitespace.
pub open spec fn plain_text(text: Seq<char>) -> bool {
    forall|i: int| 0 <= i < text.len() ==> !char_is_control(#[trigger] text[i]) || char_is_whitespace(text[i])
}

/// How much the bytes of a decrypted literal look like text: 4 for UTF-8 without control
/// characters other than whitespace, 1 for other UTF-8, 0 otherwise.
pub open spec fn payload_score(data: Seq<u8>) -> nat {
    if !valid_utf8(data) {
        0
    } else if plain_text(decode_utf8(data)) {
        4
    } else {
        1
    }
}

/// The total payload score of the first `n` of `datas`.
pub open spec fn payload_total(datas: Seq<Seq<u8>>, n: nat) -> nat
    decreases n,
{
    if n == 0 {
        0
    } else {
        payload_total(datas, (n - 1) as nat) + payload_score(datas[n - 1])
    }
}

fn payload_score_of(data: &Vec<u8>) -> (r: usize)
    ensures
        r == payload_score(data@),
{
    match utf8_chars(data.as_slice()) {
        None => 0,
        Some(chars) => {
            let mut i: usize = 0;
            while i < chars.len()
                invariant
                    i <= chars@.len(),
                    chars@ == decode_utf8(data@),
                    valid_utf8(data@),
                    forall|j: int| 0 <= j < i ==> !char_is_control(#[trigger] chars@[j]) || char_is_whitespace(chars@[j]),
                decreases chars.len() - i,
            {
                if is_control_char(chars[i]) && !is_whitespace_char(chars[i]) {
                    return 1;
                }
                i = i + 1;
            }
            4
        },
    }
}

/// The number of string literals in the tables at `offsets` and `data`, when there is one;
/// see `is_literal_count_at`.
pub open spec fn literal_count(body: Seq<u8>, offsets: usize, data: u32) -> Option<nat> {
    if exists|c: int| #[trigger] is_literal_count_at(body, offsets, data, c) {
        Some((choose|c: int| #[trigger] is_literal_count_at(body, offsets, data, c)) as nat)
    } else {
        None
    }
}

pub(crate) proof fn lemma_literal_count_unique(body: Seq<u8>, offsets: usize, data: u32, c: int)
    requires
        is_literal_count_at(body, offsets, data, c),
    ensures
        literal_count(body, offsets, data) == Some(c as nat),
{
    let d = choose|d: int| #[trigger] is_literal_count_at(body, offsets, data, d);
    assert(is_literal_count_at(body, offsets, data, d));
    if d < c {
        assert(crate::reconstruction::literals::literal_run_breaks_at(body, offsets, data, d + 1));
    } else if d > c {
        assert(crate::reconstruction::literals::literal_run_breaks_at(body, offsets, data, c + 1));
    }
}

/// `value * by`, or `usize::MAX` when it does not fit.
pub open spec fn saturating_product(value: nat, by: nat) -> usize {
    if value * by > usize::MAX {
        usize::MAX
    } else {
        (value * by) as usize
    }
}

/// `a + b`, or `usize::MAX` when it does not fit.
pub open spec fn saturating_sum(a: nat, b: nat) -> usize {
    if a + b > usize::MAX {
        usize::MAX
    } else {
        (a + b) as usize
    }
}

/// The literal layout that the offset table `table` and data base `data` give, scored by the
/// number of literals and how much the first 256 look like text; `None` unless they hold
/// between one and ten million literals.
pub open spec fn literal_layout(body: Seq<u8>, table: usize, data: u32) -> Option<(usize, (usize, u32))> {
    match literal_count(body, table, data) {
        Some(count) => if 1 <= count < 10_000_000 {
            let sampled = if count < 256 {
                count
            } else {
                256
            };
            let datas = literal_datas_at(body, table, data, sampled);
            Some((saturating_sum(saturating_product(count, 2048) as nat, payload_total(datas, datas.len())) as usize, (table, data)))
        } else {
            None
        },
        None => None,
    }
}

/// `found` with the literal layouts of offset table `table` and the first `n` additive
/// candidates as data bases.
pub open spec fn literal_layouts_by_data(body: Seq<u8>, table: usize, additive: Seq<u32>, n: nat, found: Seq<(usize, (usize, u32))>) -> Seq<(usize, (usize, u32))>
    decreases n,
{
    if n == 0 || n > additive.len() {
        found
    } else {
        let earlier = literal_layouts_by_data(body, table, additive, (n - 1) as nat, found);
        match literal_layout(body, table, additive[n - 1]) {
            Some(l) => earlier.push(l),
            None => earlier,
        }
    }
}

/// The literal layouts of the first `n` xor candidates that lie in `body` as offset tables.
pub open spec fn literal_layouts(body: Seq<u8>, xor: Seq<u32>, additive: Seq<u32>, n: nat) -> Seq<(usize, (usize, u32))>
    decreases n,
{
    if n == 0 || n > xor.len() {
        Seq::empty()
    } else {
        let earlier = literal_layouts(body, xor, additive, (n - 1) as nat);
        let table = xor[n - 1] as usize;
        if table >= body.len() {
            earlier
        } else {
            literal_layouts_by_data(body, table, additive, additive.len(), earlier)
        }
    }
}

fn literal_layout_of(body: &[u8], table: usize, data: u32) -> (r: Option<(usize, (usize, u32))>)
    ensures
        r == literal_layout(body@, table, data),
{
    let count = match discover_count_at(body, table, data) {
        Some(c) => c,
        None => {
            assert(literal_count(body@, table, data) is None);
            return None;
        },
    };
    proof {
        lemma_literal_count_unique(body@, table, data, count as int);
    }
    if count < 1 || count >= 10_000_000 {
        return None;
    }
    let sampled = if count < 256 { count } else { 256 };
    let literals = decrypt_at(body, table, data, sampled);
    proof {
        lemma_literal_datas_len(body@, table, data, sampled as nat);
    }
    let mut payload: usize = 0;
    let mut i: usize = 0;
    while i < literals.len()
        invariant
            i <= literals@.len(),
            literals@.len() == literal_datas_at(body@, table, data, sampled as nat).len(),
            forall|k: int| 0 <= k < literals@.len() ==> (#[trigger] literals@[k]).data@ == literal_datas_at(body@, table, data, sampled as nat)[k],
            payload == payload_total(literal_datas_at(body@, table, data, sampled as nat), i as nat),
            payload <= 4 * i,
            literals@.len() <= 256,
        decreases literals.len() - i,
    {
        payload = payload + payload_score_of(&literals[i].data);
        i = i + 1;
    }
    let product = if count > usize::MAX / 2048 { usize::MAX } else { count * 2048 };
    let key = if product > usize::MAX - payload { usize::MAX } else { product + payload };
    Some((key, (table, data)))
}

fn collect_literal_layouts(body: &[u8], xor: &Vec<u32>, additive: &Vec<u32>) -> (r: Vec<(usize, (usize, u32))>)
    ensures
        r@ == literal_layouts(body@, xor@, additive@, xor@.len()),
{
    let mut layouts: Vec<(usize, (usize, u32))> = Vec::new();
    let mut t: usize = 0;
    while t < xor.len()
        invariant
            t <= xor@.len(),
            layouts@ == literal_layouts(body@, xor@, additive@, t as nat),
        decreases xor.len() - t,
    {
        let table = xor[t] as usize;
        if table < body.len() {
            let ghost before = layouts@;
            let mut d: usize = 0;
            while d < additive.len()
                invariant
                    d <= additive@.len(),
                    table == xor@[t as int] as usize,
                    layouts@ == literal_layouts_by_data(body@, table, additive@, d as nat, before),
                decreases additive.len() - d,
            {
                match literal_layout_of(body, table, additive[d]) {
                    Some(l) => layouts.push(l),
                    None => {},
                }
                d = d + 1;
            }
        }
        t = t + 1;
    }
    layouts
}


proof fn lemma_literal_datas_len(body: Seq<u8>, table: usize, data: u32, n: nat)
    ensures
        literal_datas_at(body, table, data, n).len() <= n,
    decreases n,
{
    if n > 0 {
        lemma_literal_datas_len(body, table, data, (n - 1) as nat);
    }
}


/// An image layout: (score, (metadata prefix, string table, image table, image count)).
pub type ImageLayout = (usize, (usize, usize, usize, usize));

/// The image counts that the first `n` xor candidates give: those that are multiples of 40,
/// divided by 40, from one to ten thousand.
pub open spec fn image_count_candidates(xor: Seq<u32>, n: nat) -> Seq<usize>
    decreases n,
{
    if n == 0 || n > xor.len() {
        Seq::empty()
    } else {
        let earlier = image_count_candidates(xor, (n - 1) as nat);
        let v = xor[n - 1];
        if v % 40 == 0 && 1 <= v / 40 <= 10_000 {
            earlier.push((v / 40) as usize)
        } else {
            earlier
        }
    }
}

/// The first `n` additive candidates that lie in a file of `len` bytes.
pub open spec fn offsets_below(additive: Seq<u32>, len: nat, n: nat) -> Seq<usize>
    decreases n,
{
    if n == 0 || n > additive.len() {
        Seq::empty()
    } else {
        let earlier = offsets_below(additive, len, (n - 1) as nat);
        if additive[n - 1] < len {
            earlier.push(additive[n - 1] as usize)
        } else {
            earlier
        }
    }
}

/// The score of the image table at `image_offset` with `image_count` records, rated on its
/// first sixteen and named through the string table `string_offset` of `body`.
pub open spec fn image_layout_score(startup: Seq<u8>, body: Seq<u8>, string_offset: usize, image_offset: usize, image_count: usize) -> nat {
    let rated = if image_count < 16 {
        image_count
    } else {
        16
    };
    image_records_score(startup, image_offset as int, body, string_offset as nat, image_run(startup.len(), image_offset as int, rated as nat))
}

/// `found` with the layouts that score at least 32 among the first `n` image counts.
pub open spec fn image_layouts_by_count(
    startup: Seq<u8>,
    body: Seq<u8>,
    prefix: usize,
    string_offset: usize,
    image_offset: usize,
    counts: Seq<usize>,
    n: nat,
    found: Seq<ImageLayout>,
) -> Seq<ImageLayout>
    decreases n,
{
    if n == 0 || n > counts.len() {
        found
    } else {
        let earlier = image_layouts_by_count(startup, body, prefix, string_offset, image_offset, counts, (n - 1) as nat, found);
        let image_count = counts[n - 1];
        if image_offset + 40 * image_count > startup.len() {
            earlier
        } else {
            let score = image_layout_score(startup, body, string_offset, image_offset, image_count);
            if score >= 32 {
                earlier.push((score as usize, (prefix, string_offset, image_offset, image_count)))
            } else {
                earlier
            }
        }
    }
}

/// `found` with the layouts over the first `n` image offsets.
pub open spec fn image_layouts_by_offset(
    startup: Seq<u8>,
    body: Seq<u8>,
    prefix: usize,
    string_offset: usize,
    offsets: Seq<usize>,
    counts: Seq<usize>,
    n: nat,
    found: Seq<ImageLayout>,
) -> Seq<ImageLayout>
    decreases n,
{
    if n == 0 || n > offsets.len() {
        found
    } else {
        image_layouts_by_count(
            startup,
            body,
            prefix,
            string_offset,
            offsets[n - 1],
            counts,
            counts.len(),
            image_layouts_by_offset(startup, body, prefix, string_offset, offsets, counts, (n - 1) as nat, found),
        )
    }
}

/// `found` with the layouts over the first `n` additive candidates that lie in `body` as
/// string tables.
pub open spec fn image_layouts_by_string(
    startup: Seq<u8>,
    body: Seq<u8>,
    prefix: usize,
    additive: Seq<u32>,
    offsets: Seq<usize>,
    counts: Seq<usize>,
    n: nat,
    found: Seq<ImageLayout>,
) -> Seq<ImageLayout>
    decreases n,
{
    if n == 0 || n > additive.len() {
        found
    } else {
        let earlier = image_layouts_by_string(startup, body, prefix, additive, offsets, counts, (n - 1) as nat, found);
        let string_offset = additive[n - 1] as usize;
        if string_offset >= body.len() {
            earlier
        } else {
            image_layouts_by_offset(startup, body, prefix, string_offset, offsets, counts, offsets.len(), earlier)
        }
    }
}

/// The image layouts over the first `n` metadata prefixes, 0, 4, 8 and so on.
pub open spec fn image_layouts(
    metadata: Seq<u8>,
    startup: Seq<u8>,
    additive: Seq<u32>,
    offsets: Seq<usize>,
    counts: Seq<usize>,
    n: nat,
) -> Seq<ImageLayout>
    decreases n,
{
    if n == 0 || 4 * (n - 1) > metadata.len() {
        Seq::empty()
    } else {
        let prefix = (4 * (n - 1)) as usize;
        image_layouts_by_string(
            startup,
            metadata.subrange(prefix as int, metadata.len() as int),
            prefix,
            additive,
            offsets,
            counts,
            additive.len(),
            image_layouts(metadata, startup, additive, offsets, counts, (n - 1) as nat),
        )
    }
}

/// The number of metadata prefixes that phase A tries: every multiple of four up to the
/// smaller of the metadata's length and 4096.
pub open spec fn prefix_count(len: nat) -> nat {
    (if len < 4096 {
        len
    } else {
        4096
    }) / 4 + 1
}

fn layouts_for_string(
    startup: &[u8],
    body: &[u8],
    prefix: usize,
    string_offset: usize,
    offsets: &Vec<usize>,
    counts: &Vec<usize>,
    layouts: &mut Vec<ImageLayout>,
)
    ensures
        final(layouts)@ == image_layouts_by_offset(startup@, body@, prefix, string_offset, offsets@, counts@, offsets@.len(), old(layouts)@),
{
    let decryptor = StringDecryptor::new(body, string_offset);
    let ghost start = layouts@;
    let mut o: usize = 0;
    while o < offsets.len()
        invariant
            o <= offsets@.len(),
            decryptor.body() == body@,
            decryptor.table() == string_offset,
            layouts@ == image_layouts_by_offset(startup@, body@, prefix, string_offset, offsets@, counts@, o as nat, start),
        decreases offsets.len() - o,
    {
        let image_offset = offsets[o];
        let ghost before = layouts@;
        let mut c: usize = 0;
        while c < counts.len()
            invariant
                c <= counts@.len(),
                decryptor.body() == body@,
                decryptor.table() == string_offset,
                image_offset == offsets@[o as int],
                startup@.len() == startup.len(),
                layouts@ == image_layouts_by_count(startup@, body@, prefix, string_offset, image_offset, counts@, c as nat, before),
            decreases counts.len() - c,
        {
            let image_count = counts[c];
            if image_count <= (usize::MAX - image_offset) / 40 && image_offset + image_count * 40 <= startup.len() {
                let rated = if image_count < 16 { image_count } else { 16 };
                let score = score_images_at(startup, image_offset, rated, &decryptor);
                if score >= 32 {
                    layouts.push((score, (prefix, string_offset, image_offset, image_count)));
                }
            }
            c = c + 1;
        }
        o = o + 1;
    }
}

fn collect_image_layouts(
    metadata: &[u8],
    startup: &[u8],
    additive: &Vec<u32>,
    offsets: &Vec<usize>,
    counts: &Vec<usize>,
) -> (r: Vec<ImageLayout>)
    ensures
        r@ == image_layouts(metadata@, startup@, additive@, offsets@, counts@, prefix_count(metadata@.len())),
{
    let last = if metadata.len() < 4096 { metadata.len() } else { 4096 };
    let mut layouts: Vec<ImageLayout> = Vec::new();
    let mut prefix: usize = 0;
    let mut k: usize = 0;
    while prefix <= last
        invariant
            prefix == 4 * k,
            last <= metadata@.len(),
            last == (if metadata@.len() < 4096 { metadata@.len() } else { 4096 }),
            prefix <= last + 4,
            layouts@ == image_layouts(metadata@, startup@, additive@, offsets@, counts@, k as nat),
        decreases last + 4 - prefix,
    {
        let body = slice_from(metadata, prefix);
        let ghost before = layouts@;
        let mut t: usize = 0;
        while t < additive.len()
            invariant
                t <= additive@.len(),
                body@ == metadata@.subrange(prefix as int, metadata@.len() as int),
                layouts@ == image_layouts_by_string(startup@, body@, prefix, additive@, offsets@, counts@, t as nat, before),
            decreases additive.len() - t,
        {
            let string_offset = additive[t] as usize;
            if string_offset < body.len() {
                layouts_for_string(startup, body, prefix, string_offset, offsets, counts, &mut layouts);
            }
            t = t + 1;
        }
        prefix = prefix + 4;
        k = k + 1;
    }
    assert(k == prefix_count(metadata@.len()));
    layouts
}

/// The bytes of `data` from `start` on.
pub(crate) fn slice_from(data: &[u8], start: usize) -> (r: &[u8])
    requires
        start <= data@.len(),
    ensures
        r@ == data@.subrange(start as int, data@.len() as int),
{
    vstd::slice::slice_subrange(data, start, data.len())
}


/// The total of the type counts of the first `n` image records of the table at `base`.
pub open spec fn image_type_total(startup: Seq<u8>, base: int, n: nat) -> nat
    decreases n,
{
    if n == 0 {
        0
    } else {
        image_type_total(startup, base, (n - 1) as nat) + (image_key((n - 1) as u32) ^ le_u32(
            startup,
            base + 40 * (n - 1) + 4,
        ) ^ 0x7FDC8C8F ^ 0x1324FE97) as nat
    }
}

/// The number of fields that the `count` type records at `base` declare, when all lie in
/// `body` and the number fits a `usize`.
pub open spec fn field_count_spec(body: Seq<u8>, base: usize, count: usize) -> Option<usize> {
    if (forall|i: int| 0 <= i < count ==> #[trigger] crate::bytes::in_bounds(body, base + 70 * i, 70))
        && declared_fields(body, base as int, count as nat) <= usize::MAX {
        Some(declared_fields(body, base as int, count as nat) as usize)
    } else {
        None
    }
}

/// The number of parameters that the `count` method records at `base` declare, when all
/// lie in `body` and the number fits a `usize`.
pub open spec fn parameter_count_spec(body: Seq<u8>, base: usize, count: usize) -> Option<usize> {
    if (forall|i: int| 0 <= i < count ==> #[trigger] crate::bytes::in_bounds(body, base + 26 * i, 26))
        && declared_parameters(body, base as int, count as nat) <= usize::MAX {
        Some(declared_parameters(body, base as int, count as nat) as usize)
    } else {
        None
    }
}

/// The primary tables that phase A places in `body`, read through the string table
/// `string_offset`, once the images give `type_count` types: the type, method, field and
/// parameter tables by score, then the string literal tables.
#[verifier::opaque]
pub open spec fn phase_a_tables(
    body: Seq<u8>,
    string_offset: usize,
    additive: Seq<u32>,
    xor: Seq<u32>,
    type_count: usize,
) -> Option<(usize, usize, usize, usize, usize, u32)> {
    let len = body.len();
    let names = body;
    let table = string_offset as nat;
    match table_choice(xor, len, saturating_product(type_count as nat, 70) as nat, scored_table_scores(body, names, table, ScoredTable::Type { count: type_count }, xor)) {
        None => None,
        Some(type_offset) => {
            let method_count = largest_method_end(body, type_offset as int, complete_type_records(body, type_offset, type_count)) as usize;
            match field_count_spec(body, type_offset, type_count) {
                None => None,
                Some(field_count) => match table_choice(additive, len, saturating_product(method_count as nat, 26) as nat, scored_table_scores(body, names, table, ScoredTable::Method { count: method_count }, additive)) {
                    None => None,
                    Some(method_table) => match parameter_count_spec(body, method_table, method_count) {
                        None => None,
                        Some(parameter_count) => match table_choice(additive, len, saturating_product(field_count as nat, 8) as nat, scored_table_scores(body, names, table, ScoredTable::Field { type_base: type_offset, type_count }, additive)) {
                            None => None,
                            Some(field_table) => match table_choice(additive, len, saturating_product(parameter_count as nat, 8) as nat, scored_table_scores(body, names, table, ScoredTable::Parameter { count: parameter_count }, additive)) {
                                None => None,
                                Some(parameter_table) => match unique_best_spec(literal_layouts(body, xor, additive, xor.len())) {
                                    None => None,
                                    Some((_, (literal_table, literal_data))) => Some((type_offset, method_table, field_table, parameter_table, literal_table, literal_data)),
                                },
                            },
                        },
                    },
                },
            }
        },
    }
}

/// What phase A gives: the metadata prefix, the image score and the layout with the string,
/// image and primary tables, when the image layouts (rated on their first sixteen images)
/// have a unique best with a plausible number of types and every primary table is found.
#[verifier::opaque]
pub open spec fn phase_a_spec(
    metadata: Seq<u8>,
    startup: Seq<u8>,
    layout: MhyLayout,
    candidates_additive: Seq<u32>,
    candidates_xor: Seq<u32>,
) -> Option<(usize, usize, MhyLayout)> {
    let additive = sorted_distinct(candidates_additive);
    let xor = sorted_distinct(candidates_xor);
    let counts = image_count_candidates(xor, xor.len());
    let offsets = offsets_below(additive, startup.len(), additive.len());
    match unique_best_spec(image_layouts(metadata, startup, additive, offsets, counts, prefix_count(metadata.len()))) {
        None => None,
        Some((score, (prefix, string_offset, image_offset, image_count))) => {
            let body = metadata.subrange(prefix as int, metadata.len() as int);
            let total = image_type_total(startup, image_offset as int, image_run(startup.len(), image_offset as int, image_count as nat));
            if prefix > metadata.len() || total > usize::MAX || total == 0 || total > 10_000_000 {
                None
            } else {
                match phase_a_tables(body, string_offset, additive, xor, total as usize) {
                    None => None,
                    Some((type_offset, method_table, field_table, parameter_table, literal_table, literal_data)) => Some(
                        (
                            prefix,
                            score,
                            MhyLayout {
                                string_table_offset: string_offset,
                                image_offset,
                                image_count,
                                type_definition_offset: type_offset,
                                method_table,
                                field_table,
                                parameter_table,
                                string_literal_offsets: literal_table,
                                string_literal_data: literal_data,
                                ..layout
                            },
                        ),
                    ),
                }
            }
        },
    }
}

/// The metadata prefix that phase A finds lies within the metadata.
pub(crate) proof fn lemma_phase_a_prefix(
    metadata: Seq<u8>,
    startup: Seq<u8>,
    layout: MhyLayout,
    additive: Seq<u32>,
    xor: Seq<u32>,
)
    ensures
        phase_a_spec(metadata, startup, layout, additive, xor) matches Some((prefix, _, _)) ==> prefix <= metadata.len(),
{
    reveal(phase_a_spec);
}

fn saturating_mul_usize(value: usize, by: usize) -> (r: usize)
    ensures
        r == saturating_product(value as nat, by as nat),
{
    if by != 0 && value > usize::MAX / by {
        assert(value * by > usize::MAX) by (nonlinear_arith)
            requires
                by != 0,
                value > usize::MAX / by,
        ;
        usize::MAX
    } else {
        assert(value * by <= usize::MAX) by (nonlinear_arith)
            requires
                by == 0 || value <= usize::MAX / by,
        ;
        value * by
    }
}

fn primary_tables(
    body: &[u8],
    string_offset: usize,
    additive: &Vec<u32>,
    xor: &Vec<u32>,
    type_count: usize,
) -> (r: Option<(usize, usize, usize, usize, usize, u32)>)
    ensures
        r == phase_a_tables(body@, string_offset, additive@, xor@, type_count),
{
    reveal(phase_a_tables);
    let decryptor = StringDecryptor::new(body, string_offset);
    let type_offset = select_scored(body, &decryptor, xor, saturating_mul_usize(type_count, 70), ScoredTable::Type { count: type_count })?;
    let method_count = discover_method_count(body, type_offset, type_count);
    let field_count = discover_field_count(body, type_offset, type_count)?;
    let method_table = select_scored(body, &decryptor, additive, saturating_mul_usize(method_count, 26), ScoredTable::Method { count: method_count })?;
    let parameter_count = discover_parameter_count(body, method_table, method_count)?;
    let field_table = select_scored(body, &decryptor, additive, saturating_mul_usize(field_count, 8), ScoredTable::Field { type_base: type_offset, type_count })?;
    let parameter_table = select_scored(body, &decryptor, additive, saturating_mul_usize(parameter_count, 8), ScoredTable::Parameter { count: parameter_count })?;
    let literals = collect_literal_layouts(body, xor, additive);
    let (_, (literal_table, literal_data)) = unique_best(literals)?;
    Some((type_offset, method_table, field_table, parameter_table, literal_table, literal_data))
}

/// Phase A of discovery: finds the metadata prefix, the string table and the image table by
/// the images they give, then the primary tables; see `phase_a_spec`.
pub fn discover_phase_a(
    metadata: &[u8],
    startup: &[u8],
    layout: MhyLayout,
    candidates: &MhyCandidates,
) -> (r: Option<(usize, usize, MhyLayout)>)
    ensures
        r == phase_a_spec(metadata@, startup@, layout, candidates.additive@, candidates.xor@),
{
    reveal(phase_a_spec);
    let additive = unique_values(candidates.additive.as_slice());
    let xor = unique_values(candidates.xor.as_slice());
    let mut counts: Vec<usize> = Vec::new();
    let mut k: usize = 0;
    while k < xor.len()
        invariant
            k <= xor@.len(),
            counts@ == image_count_candidates(xor@, k as nat),
        decreases xor.len() - k,
    {
        let v = xor[k];
        if v % 40 == 0 && 1 <= v / 40 && v / 40 <= 10_000 {
            counts.push((v / 40) as usize);
        }
        k = k + 1;
    }
    let mut offsets: Vec<usize> = Vec::new();
    let mut a: usize = 0;
    while a < additive.len()
        invariant
            a <= additive@.len(),
            startup@.len() == startup.len(),
            offsets@ == offsets_below(additive@, startup@.len(), a as nat),
        decreases additive.len() - a,
    {
        let v = additive[a] as usize;
        if v < startup.len() {
            offsets.push(v);
        }
        a = a + 1;
    }
    let layouts = collect_image_layouts(metadata, startup, &additive, &offsets, &counts);
    let (score, (prefix, string_offset, image_offset, image_count)) = unique_best(layouts)?;
    let body = slice_from_checked(metadata, prefix)?;
    let total = image_types(startup, image_offset, image_count, body, string_offset)?;
    if total == 0 || total > 10_000_000 {
        return None;
    }
    let (type_offset, method_table, field_table, parameter_table, literal_table, literal_data) = primary_tables(body, string_offset, &additive, &xor, total)?;
    Some((
        prefix,
        score,
        MhyLayout {
            string_table_offset: string_offset,
            image_offset,
            image_count,
            type_definition_offset: type_offset,
            method_table,
            field_table,
            parameter_table,
            string_literal_offsets: literal_table,
            string_literal_data: literal_data,
            ..layout
        },
    ))
}

fn image_types(startup: &[u8], image_offset: usize, image_count: usize, body: &[u8], string_offset: usize) -> (r: Option<usize>)
    ensures
        ({
            let total = image_type_total(startup@, image_offset as int, image_run(startup@.len(), image_offset as int, image_count as nat));
            if total > usize::MAX {
                r is None
            } else {
                r == Some(total as usize)
            }
        }),
{
    let decryptor = StringDecryptor::new(body, string_offset);
    let images = decrypt_images_at(startup, image_offset, image_count, &decryptor);
    let mut total: usize = 0;
    let mut i: usize = 0;
    while i < images.len()
        invariant
            i <= images@.len(),
            images@.len() == image_run(startup@.len(), image_offset as int, image_count as nat),
            total == image_type_total(startup@, image_offset as int, i as nat),
            forall|j: int|
                0 <= j < images@.len() ==> is_image_record_at(
                    #[trigger] images@[j],
                    startup@,
                    image_offset as int,
                    decryptor.body(),
                    decryptor.table(),
                    j,
                ),
        decreases images.len() - i,
    {
        assert(is_image_record_at(images@[i as int], startup@, image_offset as int, decryptor.body(), decryptor.table(), i as int));
        let count = images[i].type_count as usize;
        if total > usize::MAX - count {
            proof {
                lemma_type_total_grows(startup@, image_offset as int, (i + 1) as nat, images@.len());
            }
            return None;
        }
        total = total + count;
        i = i + 1;
    }
    Some(total)
}

pub(crate) proof fn lemma_type_total_grows(startup: Seq<u8>, base: int, n: nat, m: nat)
    requires
        n <= m,
    ensures
        image_type_total(startup, base, n) <= image_type_total(startup, base, m),
    decreases m - n,
{
    if n < m {
        lemma_type_total_grows(startup, base, n, (m - 1) as nat);
    }
}

/// The bytes of `data` from `start` on; `None` when `start` lies past its end.
fn slice_from_checked(data: &[u8], start: usize) -> (r: Option<&[u8]>)
    ensures
        start <= data@.len() ==> (r matches Some(s) && s@ == data@.subrange(start as int, data@.len() as int)),
        start > data@.len() ==> r is None,
{
    if start <= data.len() {
        Some(slice_from(data, start))
    } else {
        None
    }
}

} // verus!
