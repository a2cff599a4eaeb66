use super::layout::{interface_table_score, MhyCandidates, MhyLayout};
use super::tables::{
    count_where, counts_scan, default_record_ok, event_record_score, field_map_entry_ok,
    field_offset_end, largest_index, largest_map_entry, interface_offset_ok, maximum_default_data_index,
    maximum_field_map_index, maximum_field_offset_index, property_record_score,
    score_event_table, score_field_offset_map, score_field_offset_table, score_interface_offset_table,
    score_interface_table, score_property_table, secondary_counts, select_generic_class_table,
    select_method_map, class_candidates, map_candidates, sum_at, type_offsets_score,
    valid_default_records, vtable_entry_plausible, vtable_score, type_record_score, method_record_score,
    field_scores, field_reads, parameter_record_score, score_type_table, score_method_table,
    score_field_table, score_parameter_table,
};
use super::{
    lemma_table_choice, lemma_table_choice_fits, sample_indices, samples, select_table_offset,
    sorted_distinct, table_choice, unique_best, unique_best_spec, unique_values,
};
use crate::reconstruction::strings::StringDecryptor;
use vstd::prelude::*;

verus! {

/// The numbers of types, methods, parameters and fields that the primary tables hold.
#[derive(Clone, Copy, Debug)]
pub struct PrimaryCounts {
    pub types: usize,
    pub methods: usize,
    pub parameters: usize,
    pub fields: usize,
}

/// The score `score_property_table` gives the `count` records at `base`.
pub open spec fn property_table_score(body: Seq<u8>, names: Seq<u8>, table: nat, base: usize, count: usize, method_count: usize) -> usize {
    sum_at(
        samples(count as nat, 1024),
        |i: int| property_record_score(body, names, table, base as int, method_count, i),
        samples(count as nat, 1024).len(),
    ) as usize
}

/// The score `score_event_table` gives the `count` records at `base`.
pub open spec fn event_table_score(body: Seq<u8>, names: Seq<u8>, table: nat, base: usize, count: usize, method_count: usize) -> usize {
    sum_at(
        samples(count as nat, 1024),
        |i: int| event_record_score(body, names, table, base as int, method_count, i),
        samples(count as nat, 1024).len(),
    ) as usize
}

/// The score `vtable_score` gives the `count` entries at `base`.
pub open spec fn vtable_table_score(body: Seq<u8>, base: usize, count: usize) -> usize {
    count_where(count as nat, |i: int| vtable_entry_plausible(body, base as int, i)) as usize
}

/// The score `score_interface_offset_table` gives the `count` records at `base`.
pub open spec fn interface_offset_table_score(body: Seq<u8>, base: usize, count: usize) -> usize {
    count_where(count as nat, |i: int| interface_offset_ok(body, base as int, i)) as usize
}

/// The score `score_field_offset_table` gives the offset table at `base`.
pub open spec fn field_offset_table_score(
    body: Seq<u8>,
    base: usize,
    type_base: usize,
    type_count: usize,
    field_type_map: usize,
    field_offset_map: usize,
) -> usize {
    sum_at(
        samples(type_count as nat, 4096),
        |t: int| type_offsets_score(body, base as int, type_base as int, field_type_map as int, field_offset_map as int, t),
        samples(type_count as nat, 4096).len(),
    ) as usize
}

/// The kinds of table placed by their score.
#[derive(Clone, Copy)]
pub enum ScoredTable {
    Property { count: usize, method_count: usize },
    Event { count: usize, method_count: usize },
    Interface { count: usize },
    Vtable { count: usize },
    InterfaceOffset { count: usize },
    FieldOffset { type_base: usize, type_count: usize, field_type_map: usize, field_offset_map: usize },
    Type { count: usize },
    Method { count: usize },
    Field { type_base: usize, type_count: usize },
    Parameter { count: usize },
}

/// The score of a table of kind `kind` at `base`.
pub open spec fn scored_table_score(body: Seq<u8>, names: Seq<u8>, table: nat, kind: ScoredTable, base: usize) -> usize {
    match kind {
        ScoredTable::Property { count, method_count } => property_table_score(body, names, table, base, count, method_count),
        ScoredTable::Event { count, method_count } => event_table_score(body, names, table, base, count, method_count),
        ScoredTable::Interface { count } => interface_table_score(body, base, count),
        ScoredTable::Vtable { count } => vtable_table_score(body, base, count),
        ScoredTable::InterfaceOffset { count } => interface_offset_table_score(body, base, count),
        ScoredTable::FieldOffset { type_base, type_count, field_type_map, field_offset_map } => field_offset_table_score(
            body,
            base,
            type_base,
            type_count,
            field_type_map,
            field_offset_map,
        ),
        ScoredTable::Type { count } => sum_at(
            samples(count as nat, 512),
            |i: int| type_record_score(body, names, table, base as int, i),
            samples(count as nat, 512).len(),
        ) as usize,
        ScoredTable::Method { count } => sum_at(
            samples(count as nat, 1024),
            |i: int| method_record_score(body, names, table, base as int, i),
            samples(count as nat, 1024).len(),
        ) as usize,
        ScoredTable::Field { type_base, type_count } => {
            let indices = samples(type_count as nat, 1024);
            let score = sum_at(indices, field_scores(body, names, table, type_base as int, base as int), indices.len());
            let sampled = sum_at(indices, field_reads(body, names, table, type_base as int, base as int), indices.len());
            (score + (if sampled > 0 { 1nat } else { 0 })) as usize
        },
        ScoredTable::Parameter { count } => sum_at(
            samples(count as nat, 2048),
            |i: int| parameter_record_score(body, base as int, i),
            samples(count as nat, 2048).len(),
        ) as usize,
    }
}

/// The scores of a table of kind `kind` at each of `candidates`.
pub open spec fn scored_table_scores(body: Seq<u8>, names: Seq<u8>, table: nat, kind: ScoredTable, candidates: Seq<u32>) -> Seq<usize> {
    Seq::new(candidates.len(), |i: int| scored_table_score(body, names, table, kind, candidates[i] as usize))
}

fn score_table(body: &[u8], decryptor: &StringDecryptor, kind: &ScoredTable, base: usize) -> (r: usize)
    ensures
        r == scored_table_score(body@, decryptor.body(), decryptor.table(), *kind, base),
{
    match kind {
        ScoredTable::Property { count, method_count } => score_property_table(body, decryptor, base, *count, *method_count),
        ScoredTable::Event { count, method_count } => score_event_table(body, decryptor, base, *count, *method_count),
        ScoredTable::Interface { count } => score_interface_table(body, base, *count),
        ScoredTable::Vtable { count } => vtable_score(body, base, *count),
        ScoredTable::InterfaceOffset { count } => score_interface_offset_table(body, base, *count),
        ScoredTable::FieldOffset { type_base, type_count, field_type_map, field_offset_map } => score_field_offset_table(
            body,
            base,
            *type_base,
            *type_count,
            *field_type_map,
            *field_offset_map,
        ),
        ScoredTable::Type { count } => score_type_table(body, decryptor, base, *count),
        ScoredTable::Method { count } => score_method_table(body, decryptor, base, *count),
        ScoredTable::Field { type_base, type_count } => score_field_table(body, decryptor, *type_base, *type_count, base),
        ScoredTable::Parameter { count } => score_parameter_table(body, base, *count),
    }
}

/// The candidate at which a table of kind `kind` and `size` bytes scores best; see
/// `table_choice`.
pub(crate) fn select_scored(
    body: &[u8],
    decryptor: &StringDecryptor,
    candidates: &Vec<u32>,
    size: usize,
    kind: ScoredTable,
) -> (r: Option<usize>)
    ensures
        r == table_choice(candidates@, body@.len(), size as nat, scored_table_scores(body@, decryptor.body(), decryptor.table(), kind, candidates@)),
        r matches Some(base) ==> base + size <= body@.len(),
{
    let score = |base: usize| -> (v: usize)
        ensures
            v == scored_table_score(body@, decryptor.body(), decryptor.table(), kind, base),
        { score_table(body, decryptor, &kind, base) };
    let r = select_table_offset(candidates.as_slice(), body.len(), size, score);
    proof {
        lemma_table_choice(score, candidates@, body.len(), size, scored_table_scores(body@, decryptor.body(), decryptor.table(), kind, candidates@), r);
        lemma_table_choice_fits(candidates@, body@.len(), size as nat, scored_table_scores(body@, decryptor.body(), decryptor.table(), kind, candidates@));
    }
    r
}


/// The number of entries of a field type map at `map` for `type_count` types: one more than
/// the largest, when all lie in `body` and none is negative.
pub open spec fn field_map_count(body: Seq<u8>, map: usize, type_count: usize) -> Option<nat> {
    if forall|i: int| 0 <= i < type_count ==> #[trigger] super::tables::map_entry_ok(body, map as int, i) {
        Some((largest_map_entry(body, map as int, type_count as nat) + 1) as nat)
    } else {
        None
    }
}

/// Whether field defaults at `default_table` followed directly by a field offset map at
/// `offset_map` fit: whole twelve-byte default records in between, no more than
/// `field_count` of them, all plausible, and every sampled entry of the `map_count`-entry
/// offset map plausible.
pub open spec fn field_layout_ok(
    body: Seq<u8>,
    default_table: usize,
    offset_map: usize,
    map_count: nat,
    field_count: usize,
) -> bool {
    let count = (offset_map - default_table) / 12;
    &&& offset_map > default_table
    &&& (offset_map - default_table) % 12 == 0
    &&& count <= field_count
    &&& forall|i: int| 0 <= i < count ==> #[trigger] default_record_ok(body, default_table as int, field_count, true, i)
    &&& count_where(
        samples(map_count, 4096).len(),
        |k: int| field_map_entry_ok(body, offset_map as int, field_count, samples(map_count, 4096)[k] as int),
    ) == samples(map_count, 4096).len()
}

/// A field layout: (number of field defaults, (type map, default table, default count,
/// offset map)).
pub type FieldLayout = (usize, (usize, usize, usize, usize));

/// `found` with the layouts for type map `type_map` and default table `default_table` over
/// the first `n` additive candidates as offset maps.
pub open spec fn field_layouts_by_map(
    body: Seq<u8>,
    additive: Seq<u32>,
    type_map: usize,
    default_table: usize,
    map_count: nat,
    field_count: usize,
    n: nat,
    found: Seq<FieldLayout>,
) -> Seq<FieldLayout>
    decreases n,
{
    if n == 0 || n > additive.len() {
        found
    } else {
        let earlier = field_layouts_by_map(body, additive, type_map, default_table, map_count, field_count, (n - 1) as nat, found);
        let offset_map = additive[n - 1] as usize;
        if field_layout_ok(body, default_table, offset_map, map_count, field_count) {
            let count = ((offset_map - default_table) / 12) as usize;
            earlier.push((count, (type_map, default_table, count, offset_map)))
        } else {
            earlier
        }
    }
}

/// `found` with the layouts for type map `type_map` over the first `n` xor candidates as
/// default tables.
pub open spec fn field_layouts_by_defaults(
    body: Seq<u8>,
    additive: Seq<u32>,
    xor: Seq<u32>,
    type_map: usize,
    map_count: nat,
    field_count: usize,
    n: nat,
    found: Seq<FieldLayout>,
) -> Seq<FieldLayout>
    decreases n,
{
    if n == 0 || n > xor.len() {
        found
    } else {
        field_layouts_by_map(
            body,
            additive,
            type_map,
            xor[n - 1] as usize,
            map_count,
            field_count,
            additive.len(),
            field_layouts_by_defaults(body, additive, xor, type_map, map_count, field_count, (n - 1) as nat, found),
        )
    }
}

/// The field layouts over the first `n` additive candidates as type maps; `None` when a
/// type map is complete and `4 * type_count` overflows.
pub open spec fn field_layouts(
    body: Seq<u8>,
    additive: Seq<u32>,
    xor: Seq<u32>,
    type_count: usize,
    field_count: usize,
    n: nat,
) -> Option<Seq<FieldLayout>>
    decreases n,
{
    if n == 0 || n > additive.len() {
        Some(Seq::empty())
    } else {
        match field_layouts(body, additive, xor, type_count, field_count, (n - 1) as nat) {
            None => None,
            Some(found) => {
                let type_map = additive[n - 1] as usize;
                match field_map_count(body, type_map, type_count) {
                    None => Some(found),
                    Some(map_count) => if type_count * 4 > usize::MAX {
                        None
                    } else if map_count > type_count * 4 {
                        Some(found)
                    } else {
                        Some(field_layouts_by_defaults(body, additive, xor, type_map, map_count, field_count, xor.len(), found))
                    },
                }
            },
        }
    }
}

fn is_field_layout(body: &[u8], default_table: usize, offset_map: usize, map_count: usize, field_count: usize) -> (r: bool)
    ensures
        r == field_layout_ok(body@, default_table, offset_map, map_count as nat, field_count),
{
    if offset_map <= default_table || (offset_map - default_table) % 12 != 0 {
        return false;
    }
    let count = (offset_map - default_table) / 12;
    if count > field_count || !valid_default_records(body, default_table, count, field_count, true) {
        return false;
    }
    let score = score_field_offset_map(body, offset_map, map_count, field_count);
    let samples_len = sample_indices(map_count, 4096).len();
    score == samples_len
}

fn field_layouts_for_map(
    body: &[u8],
    additive: &Vec<u32>,
    xor: &Vec<u32>,
    type_map: usize,
    map_count: usize,
    field_count: usize,
    layouts: &mut Vec<FieldLayout>,
)
    ensures
        final(layouts)@ == field_layouts_by_defaults(body@, additive@, xor@, type_map, map_count as nat, field_count, xor@.len(), old(layouts)@),
{
    let ghost start = layouts@;
    let mut d: usize = 0;
    while d < xor.len()
        invariant
            d <= xor@.len(),
            layouts@ == field_layouts_by_defaults(body@, additive@, xor@, type_map, map_count as nat, field_count, d as nat, start),
        decreases xor.len() - d,
    {
        let default_table = xor[d] as usize;
        let ghost before = layouts@;
        let mut m: usize = 0;
        while m < additive.len()
            invariant
                m <= additive@.len(),
                default_table == xor@[d as int] as usize,
                layouts@ == field_layouts_by_map(body@, additive@, type_map, default_table, map_count as nat, field_count, m as nat, before),
            decreases additive.len() - m,
        {
            let offset_map = additive[m] as usize;
            if is_field_layout(body, default_table, offset_map, map_count, field_count) {
                let count = (offset_map - default_table) / 12;
                layouts.push((count, (type_map, default_table, count, offset_map)));
            }
            m = m + 1;
        }
        d = d + 1;
    }
}

fn collect_field_layouts(
    body: &[u8],
    additive: &Vec<u32>,
    xor: &Vec<u32>,
    type_count: usize,
    field_count: usize,
) -> (r: Option<Vec<FieldLayout>>)
    ensures
        match field_layouts(body@, additive@, xor@, type_count, field_count, additive@.len()) {
            None => r is None,
            Some(found) => r matches Some(v) && v@ == found,
        },
{
    let mut layouts: Vec<FieldLayout> = Vec::new();
    let mut t: usize = 0;
    while t < additive.len()
        invariant
            t <= additive@.len(),
            field_layouts(body@, additive@, xor@, type_count, field_count, t as nat) == Some(layouts@),
        decreases additive.len() - t,
    {
        let type_map = additive[t] as usize;
        match maximum_field_map_index(body, type_map, type_count) {
            None => {},
            Some(largest) => {
                let map_count = largest + 1;
                if type_count > usize::MAX / 4 {
                    proof {
                        lemma_field_layouts_stay(body@, additive@, xor@, type_count, field_count, (t + 1) as nat, additive@.len());
                    }
                    return None;
                }
                if map_count <= type_count * 4 {
                    field_layouts_for_map(body, additive, xor, type_map, map_count, field_count, &mut layouts);
                }
            },
        }
        t = t + 1;
    }
    Some(layouts)
}

proof fn lemma_field_layouts_stay(body: Seq<u8>, additive: Seq<u32>, xor: Seq<u32>, type_count: usize, field_count: usize, n: nat, m: nat)
    requires
        n <= m <= additive.len(),
        field_layouts(body, additive, xor, type_count, field_count, n) is None,
    ensures
        field_layouts(body, additive, xor, type_count, field_count, m) is None,
    decreases m - n,
{
    if n < m {
        lemma_field_layouts_stay(body, additive, xor, type_count, field_count, n, (m - 1) as nat);
    }
}


/// The parameter default table at `base`, ending where the field table starts: its record
/// count, when whole twelve-byte records fill the space, there are no more than
/// `parameter_count` of them, and all are plausible.
pub open spec fn parameter_layout_at(body: Seq<u8>, base: usize, field_table: usize, parameter_count: usize) -> Option<usize> {
    if base > field_table {
        None
    } else {
        let size = field_table - base;
        let count = size / 12;
        if size == 0 || size % 12 != 0 || count > parameter_count || !(forall|i: int|
            0 <= i < count ==> #[trigger] default_record_ok(body, base as int, parameter_count, false, i)) {
            None
        } else {
            Some(count as usize)
        }
    }
}

/// The parameter default layouts (table, count) among the first `n` additive candidates.
pub open spec fn parameter_layouts(body: Seq<u8>, additive: Seq<u32>, field_table: usize, parameter_count: usize, n: nat) -> Seq<(usize, usize)>
    decreases n,
{
    if n == 0 || n > additive.len() {
        Seq::empty()
    } else {
        let earlier = parameter_layouts(body, additive, field_table, parameter_count, (n - 1) as nat);
        let base = additive[n - 1] as usize;
        match parameter_layout_at(body, base, field_table, parameter_count) {
            Some(count) => earlier.push((base, count)),
            None => earlier,
        }
    }
}

/// The largest count among the first `n` of `layouts`.
pub open spec fn largest_layout_count(layouts: Seq<(usize, usize)>, n: nat) -> usize
    decreases n,
{
    if n == 0 || n > layouts.len() {
        0
    } else {
        let rest = largest_layout_count(layouts, (n - 1) as nat);
        if n == 1 || layouts[n - 1].1 > rest {
            layouts[n - 1].1
        } else {
            rest
        }
    }
}

/// The first `n` of `layouts` that have `count` records.
pub open spec fn layouts_with_count(layouts: Seq<(usize, usize)>, count: usize, n: nat) -> Seq<(usize, usize)>
    decreases n,
{
    if n == 0 || n > layouts.len() {
        Seq::empty()
    } else {
        let earlier = layouts_with_count(layouts, count, (n - 1) as nat);
        if layouts[n - 1].1 == count {
            earlier.push(layouts[n - 1])
        } else {
            earlier
        }
    }
}

/// The parameter default table: the only layout with the most records; `None` when there is
/// no layout or several have the most.
pub open spec fn parameter_default_layout(body: Seq<u8>, additive: Seq<u32>, field_table: usize, parameter_count: usize) -> Option<(usize, usize)> {
    let layouts = parameter_layouts(body, additive, field_table, parameter_count, additive.len());
    if layouts.len() == 0 {
        None
    } else {
        let best = layouts_with_count(layouts, largest_layout_count(layouts, layouts.len()), layouts.len());
        if best.len() == 1 {
            Some(best[0])
        } else {
            None
        }
    }
}

fn find_parameter_default_layout(body: &[u8], additive: &Vec<u32>, field_table: usize, parameter_count: usize) -> (r: Option<(usize, usize)>)
    ensures
        r == parameter_default_layout(body@, additive@, field_table, parameter_count),
{
    let mut layouts: Vec<(usize, usize)> = Vec::new();
    let mut k: usize = 0;
    while k < additive.len()
        invariant
            k <= additive@.len(),
            layouts@ == parameter_layouts(body@, additive@, field_table, parameter_count, k as nat),
        decreases additive.len() - k,
    {
        let base = additive[k] as usize;
        if base <= field_table {
            let size = field_table - base;
            let count = size / 12;
            if size > 0 && size % 12 == 0 && count <= parameter_count && valid_default_records(body, base, count, parameter_count, false) {
                layouts.push((base, count));
            }
        }
        k = k + 1;
    }
    if layouts.len() == 0 {
        return None;
    }
    let mut largest: usize = layouts[0].1;
    let mut i: usize = 1;
    while i < layouts.len()
        invariant
            1 <= i <= layouts@.len(),
            largest == largest_layout_count(layouts@, i as nat),
        decreases layouts.len() - i,
    {
        if layouts[i].1 > largest {
            largest = layouts[i].1;
        }
        i = i + 1;
    }
    let mut best: Vec<(usize, usize)> = Vec::new();
    let mut j: usize = 0;
    while j < layouts.len()
        invariant
            j <= layouts@.len(),
            best@ == layouts_with_count(layouts@, largest, j as nat),
        decreases layouts.len() - j,
    {
        if layouts[j].1 == largest {
            best.push(layouts[j]);
        }
        j = j + 1;
    }
    if best.len() == 1 {
        Some(best[0])
    } else {
        None
    }
}

/// The largest additive candidate that lies before the type table with room for
/// `data_size` bytes of default data before it.
pub open spec fn default_data_base(additive: Seq<u32>, type_offset: usize, data_size: usize, n: nat) -> Option<usize>
    decreases n,
{
    if n == 0 || n > additive.len() {
        None
    } else {
        let rest = default_data_base(additive, type_offset, data_size, (n - 1) as nat);
        let base = additive[n - 1] as usize;
        if base < type_offset && base + data_size < type_offset {
            match rest {
                Some(m) => if base > m {
                    Some(base)
                } else {
                    Some(m)
                },
                None => Some(base),
            }
        } else {
            rest
        }
    }
}

fn find_default_data_base(additive: &Vec<u32>, type_offset: usize, data_size: usize) -> (r: Option<usize>)
    ensures
        r == default_data_base(additive@, type_offset, data_size, additive@.len()),
{
    let mut best: Option<usize> = None;
    let mut k: usize = 0;
    while k < additive.len()
        invariant
            k <= additive@.len(),
            best == default_data_base(additive@, type_offset, data_size, k as nat),
        decreases additive.len() - k,
    {
        let base = additive[k] as usize;
        if base < type_offset && data_size < type_offset - base {
            best = match best {
                Some(m) => if base > m { Some(base) } else { Some(m) },
                None => Some(base),
            };
        }
        k = k + 1;
    }
    best
}

/// The first of the first `n` additive candidates whose table of `size` bytes ends at `end`.
pub open spec fn first_ending_at(additive: Seq<u32>, size: usize, end: usize, n: nat) -> Option<usize>
    decreases n,
{
    if n == 0 || n > additive.len() {
        None
    } else {
        match first_ending_at(additive, size, end, (n - 1) as nat) {
            Some(b) => Some(b),
            None => if additive[n - 1] + size == end {
                Some(additive[n - 1] as usize)
            } else {
                None
            },
        }
    }
}

fn find_ending_at(additive: &Vec<u32>, size: usize, end: usize) -> (r: Option<usize>)
    ensures
        r == first_ending_at(additive@, size, end, additive@.len()),
{
    let mut k: usize = 0;
    while k < additive.len()
        invariant
            k <= additive@.len(),
            first_ending_at(additive@, size, end, k as nat) is None,
        decreases additive.len() - k,
    {
        let base = additive[k] as usize;
        if base <= end && end - base == size {
            proof {
                lemma_first_ending_stays(additive@, size, end, (k + 1) as nat, additive@.len());
            }
            return Some(base);
        }
        k = k + 1;
    }
    None
}

proof fn lemma_first_ending_stays(additive: Seq<u32>, size: usize, end: usize, n: nat, m: nat)
    requires
        n <= m <= additive.len(),
        first_ending_at(additive, size, end, n) is Some,
    ensures
        first_ending_at(additive, size, end, m) == first_ending_at(additive, size, end, n),
    decreases m - n,
{
    if n < m {
        lemma_first_ending_stays(additive, size, end, n, (m - 1) as nat);
    }
}


/// The tables that phase B places after the member tables: the field defaults and maps, the
/// parameter defaults, the default value data, the field offset table, the generic class
/// source and the method pointer map.
#[verifier::opaque]
pub open spec fn phase_b_rest(
    body: Seq<u8>,
    startup: Seq<u8>,
    names: Seq<u8>,
    table: nat,
    layout: MhyLayout,
    additive: Seq<u32>,
    xor: Seq<u32>,
    shifted: Seq<u32>,
    primary: PrimaryCounts,
) -> Option<MhyLayout> {
    let type_offset = layout.type_definition_offset;
    match field_layouts(body, additive, xor, primary.types, primary.fields, additive.len()) {
        None => None,
        Some(found) => match unique_best_spec(found) {
            None => None,
            Some((_, (field_type_map, field_default_table, field_default_count, field_offset_map))) => match parameter_default_layout(
                body,
                additive,
                layout.field_table,
                primary.parameters,
            ) {
                None => None,
                Some((parameter_default_table, parameter_default_count)) => {
                    let data_size = vstd::math::max(
                        largest_index(body, field_default_table as int, 4, field_default_count as nat) as int,
                        largest_index(body, parameter_default_table as int, 8, parameter_default_count as nat) as int,
                    ) as usize;
                    match default_data_base(additive, type_offset, data_size, additive.len()) {
                        None => None,
                        Some(default_value_data) => match field_offset_end(
                            body,
                            type_offset as int,
                            field_type_map as int,
                            field_offset_map as int,
                            primary.types as nat,
                        ) {
                            None => None,
                            Some(offset_count) => if offset_count * 4 > usize::MAX {
                                None
                            } else {
                                let kind = ScoredTable::FieldOffset {
                                    type_base: type_offset,
                                    type_count: primary.types,
                                    field_type_map,
                                    field_offset_map,
                                };
                                match table_choice(xor, body.len(), (offset_count * 4) as nat, scored_table_scores(body, names, table, kind, xor)) {
                                    None => None,
                                    Some(field_offset_table) => match unique_best_spec(class_candidates(startup, xor, shifted, primary.types, xor.len())) {
                                        None => None,
                                        Some((_, (generic_class_source, generic_class_count))) => match unique_best_spec(
                                            map_candidates(body, xor, primary.methods, xor.len()),
                                        ) {
                                            None => None,
                                            Some((_, (method_pointer_map, method_pointer_map_count))) => Some(
                                                MhyLayout {
                                                    field_default_table,
                                                    field_default_count,
                                                    parameter_default_table,
                                                    parameter_default_count,
                                                    default_value_data,
                                                    field_type_map,
                                                    field_offset_map,
                                                    field_offset_table,
                                                    generic_class_source,
                                                    generic_class_count,
                                                    method_pointer_map,
                                                    method_pointer_map_count,
                                                    ..layout
                                                },
                                            ),
                                        },
                                    },
                                }
                            },
                        },
                    }
                },
            },
        },
    }
}

/// The layout that phase B gives: the property, event, interface, vtable and interface
/// offset tables placed by score (the vtable preferably right before the events), then
/// `phase_b_rest`. `None` when a step finds nothing, is ambiguous, or a size overflows.
#[verifier::opaque]
pub open spec fn phase_b_spec(
    body: Seq<u8>,
    startup: Seq<u8>,
    names: Seq<u8>,
    table: nat,
    layout: MhyLayout,
    candidates_additive: Seq<u32>,
    candidates_xor: Seq<u32>,
    candidates_shift_xor: Seq<u32>,
    primary: PrimaryCounts,
) -> Option<MhyLayout> {
    let additive = sorted_distinct(candidates_additive);
    let xor = sorted_distinct(candidates_xor);
    let shifted = sorted_distinct(candidates_shift_xor);
    let len = body.len();
    match counts_scan(body, layout.type_definition_offset as int, primary.types as nat) {
        None => None,
        Some((properties, events, interfaces, vtables, interface_offsets)) => if properties * 10 > usize::MAX
            || events * 14 > usize::MAX || interfaces * 4 > usize::MAX || vtables * 4 > usize::MAX
            || interface_offsets * 6 > usize::MAX {
            None
        } else {
            let property = table_choice(xor, len, properties * 10, scored_table_scores(body, names, table, ScoredTable::Property { count: properties as usize, method_count: primary.methods }, xor));
            let event = table_choice(xor, len, events * 14, scored_table_scores(body, names, table, ScoredTable::Event { count: events as usize, method_count: primary.methods }, xor));
            let interface = table_choice(xor, len, interfaces * 4, scored_table_scores(body, names, table, ScoredTable::Interface { count: interfaces as usize }, xor));
            let interface_offset = table_choice(xor, len, interface_offsets * 6, scored_table_scores(body, names, table, ScoredTable::InterfaceOffset { count: interface_offsets as usize }, xor));
            match (property, event, interface, interface_offset) {
                (Some(property_table), Some(event_table), Some(interface_table), Some(interface_offset_table)) => {
                    let vtable = match first_ending_at(additive, (vtables * 4) as usize, event_table, additive.len()) {
                        Some(b) => Some(b),
                        None => table_choice(additive, len, vtables * 4, scored_table_scores(body, names, table, ScoredTable::Vtable { count: vtables as usize }, additive)),
                    };
                    match vtable {
                        None => None,
                        Some(vtable_method_table) => phase_b_rest(
                            body,
                            startup,
                            names,
                            table,
                            MhyLayout { property_table, event_table, interface_table, vtable_method_table, interface_offset_table, ..layout },
                            additive,
                            xor,
                            shifted,
                            primary,
                        ),
                    }
                },
                _ => None,
            }
        },
    }
}

fn discover_phase_b_rest(
    body: &[u8],
    startup: &[u8],
    layout: MhyLayout,
    additive: &Vec<u32>,
    xor: &Vec<u32>,
    shifted: &Vec<u32>,
    decryptor: &StringDecryptor,
    primary: PrimaryCounts,
) -> (r: Option<MhyLayout>)
    ensures
        r == phase_b_rest(body@, startup@, decryptor.body(), decryptor.table(), layout, additive@, xor@, shifted@, primary),
{
    reveal(phase_b_rest);
    let type_offset = layout.type_definition_offset;
    let layouts = collect_field_layouts(body, additive, xor, primary.types, primary.fields)?;
    let (_, (field_type_map, field_default_table, field_default_count, field_offset_map)) = unique_best(layouts)?;
    let (parameter_default_table, parameter_default_count) = find_parameter_default_layout(body, additive, layout.field_table, primary.parameters)?;
    let data_size = maximum_default_data_index(body, field_default_table, field_default_count, parameter_default_table, parameter_default_count);
    let default_value_data = find_default_data_base(additive, type_offset, data_size)?;
    let offset_count = maximum_field_offset_index(body, type_offset, primary.types, field_type_map, field_offset_map)?;
    if offset_count > usize::MAX / 4 {
        return None;
    }
    let kind = ScoredTable::FieldOffset { type_base: type_offset, type_count: primary.types, field_type_map, field_offset_map };
    let field_offset_table = select_scored(body, decryptor, xor, offset_count * 4, kind)?;
    let (generic_class_source, generic_class_count) = select_generic_class_table(startup, xor.as_slice(), shifted.as_slice(), primary.types)?;
    let (method_pointer_map, method_pointer_map_count) = select_method_map(body, xor.as_slice(), primary.methods)?;
    Some(MhyLayout {
        field_default_table,
        field_default_count,
        parameter_default_table,
        parameter_default_count,
        default_value_data,
        field_type_map,
        field_offset_map,
        field_offset_table,
        generic_class_source,
        generic_class_count,
        method_pointer_map,
        method_pointer_map_count,
        ..layout
    })
}

/// Phase B of discovery: places the member tables, the default and field-offset tables, the
/// generic class source and the method pointer map among the header's candidates, given
/// the primary tables of phase A; see `phase_b_spec`.
pub fn discover_phase_b(
    body: &[u8],
    startup: &[u8],
    layout: MhyLayout,
    candidates: &MhyCandidates,
    decryptor: &StringDecryptor,
    primary: PrimaryCounts,
) -> (r: Option<MhyLayout>)
    ensures
        r == phase_b_spec(
            body@,
            startup@,
            decryptor.body(),
            decryptor.table(),
            layout,
            candidates.additive@,
            candidates.xor@,
            candidates.shift_xor@,
            primary,
        ),
{
    reveal(phase_b_spec);
    let additive = unique_values(candidates.additive.as_slice());
    let xor = unique_values(candidates.xor.as_slice());
    let shifted = unique_values(candidates.shift_xor.as_slice());
    let counts = secondary_counts(body, layout.type_definition_offset, primary.types)?;
    if counts.properties > usize::MAX / 10 || counts.events > usize::MAX / 14 || counts.interfaces > usize::MAX / 4
        || counts.vtables > usize::MAX / 4 || counts.interface_offsets > usize::MAX / 6 {
        return None;
    }
    let property_table = select_scored(body, decryptor, &xor, counts.properties * 10, ScoredTable::Property { count: counts.properties, method_count: primary.methods });
    let event_table = select_scored(body, decryptor, &xor, counts.events * 14, ScoredTable::Event { count: counts.events, method_count: primary.methods });
    let interface_table = select_scored(body, decryptor, &xor, counts.interfaces * 4, ScoredTable::Interface { count: counts.interfaces });
    let property_table = property_table?;
    let event_table = event_table?;
    let interface_table = interface_table?;
    let vtable_size = counts.vtables * 4;
    let vtable_method_table = match find_ending_at(&additive, vtable_size, event_table) {
        Some(b) => b,
        None => select_scored(body, decryptor, &additive, vtable_size, ScoredTable::Vtable { count: counts.vtables })?,
    };
    let interface_offset_table = select_scored(body, decryptor, &xor, counts.interface_offsets * 6, ScoredTable::InterfaceOffset { count: counts.interface_offsets })?;
    discover_phase_b_rest(
        body,
        startup,
        MhyLayout { property_table, event_table, interface_table, vtable_method_table, interface_offset_table, ..layout },
        &additive,
        &xor,
        &shifted,
        decryptor,
        primary,
    )
}

} // verus!
