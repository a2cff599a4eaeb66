use super::generics::records_within;
use crate::bytes::{le_i32, read_i32_at};
use crate::discovery::mhy::MhyHeader;
use crate::discovery::profile::BuildProfile;
use vstd::prelude::*;

verus! {

/// The default value of a field.
pub struct FieldDefaultValue {
    pub field_index: i32,
    pub type_index: i32,
    pub data_index: i32,
}

/// The default value of a parameter.
pub struct ParameterDefaultValue {
    pub parameter_index: i32,
    pub type_index: i32,
    pub data_index: i32,
}

/// The default-value tables of the metadata, with the counts that the header announces.
pub struct DefaultValues {
    pub fields: Vec<FieldDefaultValue>,
    pub parameters: Vec<ParameterDefaultValue>,
    pub data: Vec<u8>,
    pub expected_field_count: usize,
    pub expected_parameter_count: usize,
}

/// The number of 12-byte records out of `count` at `base` that fit in `body`.
pub open spec fn default_record_count(body: Seq<u8>, base: usize, count: usize) -> nat {
    vstd::math::min(count as int, records_within(body.len(), base as nat, 12) as int) as nat
}

/// The three little-endian `i32` values of record `index` of the table at `base`.
pub open spec fn default_record(body: Seq<u8>, base: int, index: int) -> [i32; 3] {
    let record = base + 12 * index;
    [le_i32(body, record), le_i32(body, record + 4), le_i32(body, record + 8)]
}

/// The bytes of `body` from `start` to the smaller of `end` and its length; empty when that
/// range is empty or reversed.
pub open spec fn clamped_range(body: Seq<u8>, start: nat, end: nat) -> Seq<u8> {
    let stop = vstd::math::min(end as int, body.len() as int);
    if start <= stop {
        body.subrange(start as int, stop)
    } else {
        Seq::empty()
    }
}

/// Decodes the field and parameter default-value tables and copies the default-value data,
/// which runs from the data base of `mhy` to the type table of `profile`.
pub fn decode(global_body: &[u8], mhy: &MhyHeader, profile: &BuildProfile) -> (r: DefaultValues)
    ensures
        r.fields@.len() == default_record_count(
            global_body@,
            mhy.field_default_table_base(),
            mhy.field_default_count(),
        ),
        forall|i: int|
            0 <= i < r.fields@.len() ==> {
                let rec = default_record(global_body@, mhy.field_default_table_base() as int, i);
                &&& (#[trigger] r.fields@[i]).type_index == rec[0]
                &&& r.fields@[i].data_index == rec[1]
                &&& r.fields@[i].field_index == rec[2]
            },
        r.parameters@.len() == default_record_count(
            global_body@,
            mhy.parameter_default_table_base(),
            mhy.parameter_default_count(),
        ),
        forall|i: int|
            0 <= i < r.parameters@.len() ==> {
                let rec = default_record(
                    global_body@,
                    mhy.parameter_default_table_base() as int,
                    i,
                );
                &&& (#[trigger] r.parameters@[i]).type_index == rec[0]
                &&& r.parameters@[i].parameter_index == rec[1]
                &&& r.parameters@[i].data_index == rec[2]
            },
        r.data@ == clamped_range(
            global_body@,
            mhy.default_value_data_base() as nat,
            profile.type_definition_offset as nat,
        ),
        r.expected_field_count == mhy.field_default_count(),
        r.expected_parameter_count == mhy.parameter_default_count(),
{
    let fields = decode_fields(global_body, mhy);
    let parameters = decode_parameters(global_body, mhy);
    let data_start = mhy.default_value_data_base();
    let data_end = if profile.type_definition_offset < global_body.len() {
        profile.type_definition_offset
    } else {
        global_body.len()
    };
    let data = if data_start <= data_end {
        vstd::slice::slice_to_vec(vstd::slice::slice_subrange(global_body, data_start, data_end))
    } else {
        Vec::new()
    };
    DefaultValues {
        fields,
        parameters,
        data,
        expected_field_count: mhy.field_default_count(),
        expected_parameter_count: mhy.parameter_default_count(),
    }
}

/// Decodes the field default-value table: type, data and field index of each record.
pub fn decode_fields(global_body: &[u8], mhy: &MhyHeader) -> (r: Vec<FieldDefaultValue>)
    ensures
        r@.len() == default_record_count(
            global_body@,
            mhy.field_default_table_base(),
            mhy.field_default_count(),
        ),
        forall|i: int|
            0 <= i < r@.len() ==> {
                let rec = default_record(global_body@, mhy.field_default_table_base() as int, i);
                &&& (#[trigger] r@[i]).type_index == rec[0]
                &&& r@[i].data_index == rec[1]
                &&& r@[i].field_index == rec[2]
            },
{
    let records = decode_records(
        global_body,
        mhy.field_default_table_base(),
        mhy.field_default_count(),
    );
    let mut result: Vec<FieldDefaultValue> = Vec::new();
    let mut i: usize = 0;
    while i < records.len()
        invariant
            i <= records@.len(),
            result@.len() == i,
            forall|j: int|
                0 <= j < i ==> {
                    &&& (#[trigger] result@[j]).type_index == records@[j][0]
                    &&& result@[j].data_index == records@[j][1]
                    &&& result@[j].field_index == records@[j][2]
                },
        decreases records.len() - i,
    {
        let record = records[i];
        result.push(
            FieldDefaultValue {
                field_index: record[2],
                type_index: record[0],
                data_index: record[1],
            },
        );
        i = i + 1;
    }
    result
}

/// Decodes the parameter default-value table: type, parameter and data index of each record.
pub fn decode_parameters(global_body: &[u8], mhy: &MhyHeader) -> (r: Vec<ParameterDefaultValue>)
    ensures
        r@.len() == default_record_count(
            global_body@,
            mhy.parameter_default_table_base(),
            mhy.parameter_default_count(),
        ),
        forall|i: int|
            0 <= i < r@.len() ==> {
                let rec = default_record(
                    global_body@,
                    mhy.parameter_default_table_base() as int,
                    i,
                );
                &&& (#[trigger] r@[i]).type_index == rec[0]
                &&& r@[i].parameter_index == rec[1]
                &&& r@[i].data_index == rec[2]
            },
{
    let records = decode_records(
        global_body,
        mhy.parameter_default_table_base(),
        mhy.parameter_default_count(),
    );
    let mut result: Vec<ParameterDefaultValue> = Vec::new();
    let mut i: usize = 0;
    while i < records.len()
        invariant
            i <= records@.len(),
            result@.len() == i,
            forall|j: int|
                0 <= j < i ==> {
                    &&& (#[trigger] result@[j]).type_index == records@[j][0]
                    &&& result@[j].parameter_index == records@[j][1]
                    &&& result@[j].data_index == records@[j][2]
                },
        decreases records.len() - i,
    {
        let record = records[i];
        result.push(
            ParameterDefaultValue {
                parameter_index: record[1],
                type_index: record[0],
                data_index: record[2],
            },
        );
        i = i + 1;
    }
    result
}

/// Reads the 12-byte records `0..count` of the table at `base`, as far as they fit in
/// `global_body`.
pub fn decode_records(global_body: &[u8], base: usize, count: usize) -> (r: Vec<[i32; 3]>)
    ensures
        r@.len() == default_record_count(global_body@, base, count),
        forall|i: int|
            0 <= i < r@.len() ==> #[trigger] r@[i] == default_record(global_body@, base as int, i),
{
    let room = if base <= global_body.len() {
        (global_body.len() - base) / 12
    } else {
        0
    };
    let n = if count < room {
        count
    } else {
        room
    };
    let mut records: Vec<[i32; 3]> = Vec::new();
    let mut index: usize = 0;
    while index < n
        invariant
            index <= n,
            n == default_record_count(global_body@, base, count),
            room == records_within(global_body@.len(), base as nat, 12),
            n <= room,
            records@.len() == index,
            forall|j: int|
                0 <= j < index ==> #[trigger] records@[j] == default_record(
                    global_body@,
                    base as int,
                    j,
                ),
        decreases n - index,
    {
        assert(global_body@.len() == global_body.len());
        let offset = base + index * 12;
        let record = [
            read_i32_at(global_body, offset),
            read_i32_at(global_body, offset + 4),
            read_i32_at(global_body, offset + 8),
        ];
        assert(record == default_record(global_body@, base as int, index as int));
        records.push(record);
        index = index + 1;
    }
    records
}

} // verus!
