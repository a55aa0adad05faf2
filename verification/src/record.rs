//! The layout of a log: records of one width, one after the other.
//!
//! A record is the stack trace (32 bits), the label set (32 bits), the
//! timestamp (64 bits, signed, not zero) and then the values (64 bits each,
//! signed), every number in the byte order of the machine. Nothing marks
//! where a record ends: writer and reader agree on the number of values
//! beforehand.

use vstd::prelude::*;
use crate::byte_order::{
    i64_bytes, i64_from_bytes, lemma_i64_round_trip, lemma_u32_round_trip, u32_bytes,
    u32_from_bytes,
};
use crate::ids::{LabelSetId, Sample, StackTraceId, Timestamp};

verus! {

/// One entry of a log: the sample, the time, and the values.
pub type Record = (Sample, Timestamp, Seq<i64>);

/// The number of bytes before the values of a record.
pub open spec fn header_len() -> nat {
    16
}

/// The number of bytes of a record with `sample_types_len` values.
pub open spec fn record_len(sample_types_len: nat) -> nat {
    header_len() + 8 * sample_types_len
}

/// The bytes of `values`, one after the other.
pub open spec fn values_bytes(values: Seq<i64>) -> Seq<u8>
    decreases values.len(),
{
    if values.len() == 0 {
        Seq::empty()
    } else {
        values_bytes(values.drop_last()) + i64_bytes(values.last())
    }
}

/// The bytes of the two handles and the timestamp of a record.
pub open spec fn header_bytes(sample: Sample, timestamp: Timestamp) -> Seq<u8> {
    u32_bytes(sample.stacktrace.spec_offset()) + u32_bytes(sample.labels.spec_offset())
        + i64_bytes(timestamp.spec_get())
}

/// The bytes of one record.
pub open spec fn record_bytes(sample: Sample, timestamp: Timestamp, values: Seq<i64>) -> Seq<u8> {
    header_bytes(sample, timestamp) + values_bytes(values)
}

/// The bytes of the records `all`, oldest first.
pub open spec fn log_bytes(all: Seq<Record>) -> Seq<u8>
    decreases all.len(),
{
    if all.len() == 0 {
        Seq::empty()
    } else {
        log_bytes(all.drop_last()) + record_bytes(all.last().0, all.last().1, all.last().2)
    }
}

/// The first `count` values that `bytes` hold.
pub open spec fn values_at(bytes: Seq<u8>, count: nat) -> Seq<i64> {
    Seq::new(count, |i: int| i64_from_bytes(bytes.subrange(8 * i, 8 * i + 8)))
}

/// The number in the place of the timestamp of the record that `bytes` begin
/// with.
pub open spec fn timestamp_at(bytes: Seq<u8>) -> i64 {
    i64_from_bytes(bytes.subrange(8, 16))
}

/// Whether `bytes` begin with a record of `sample_types_len` values: whether
/// they are enough for one and its timestamp is not zero.
pub open spec fn has_record(bytes: Seq<u8>, sample_types_len: nat) -> bool {
    bytes.len() >= record_len(sample_types_len) && timestamp_at(bytes) != 0
}

/// The record that `bytes` begin with.
pub open spec fn first_record(bytes: Seq<u8>, sample_types_len: nat) -> Record {
    (
        Sample {
            stacktrace: StackTraceId::spec_from_raw_id(u32_from_bytes(bytes.subrange(0, 4))),
            labels: LabelSetId::spec_from_raw_id(u32_from_bytes(bytes.subrange(4, 8))),
        },
        Timestamp::spec_new(timestamp_at(bytes)),
        values_at(bytes.skip(header_len() as int), sample_types_len),
    )
}

/// The records that a reader finds in `bytes`, oldest first: it takes record
/// after record until what is left does not begin with one.
pub open spec fn records(bytes: Seq<u8>, sample_types_len: nat) -> Seq<Record>
    decreases bytes.len(),
{
    if has_record(bytes, sample_types_len) {
        seq![first_record(bytes, sample_types_len)] + records(
            bytes.skip(record_len(sample_types_len) as int),
            sample_types_len,
        )
    } else {
        Seq::empty()
    }
}

/// Whether a record is one that a log of `sample_types_len` values per record
/// gives back as it was written: it has that many values and a timestamp
/// that is not zero.
pub open spec fn fits(record: Record, sample_types_len: nat) -> bool {
    record.2.len() == sample_types_len && record.1.spec_get() != 0
}

/// Values take eight bytes each and read back as they were written.
pub proof fn lemma_values_round_trip(values: Seq<i64>, rest: Seq<u8>)
    ensures
        values_bytes(values).len() == 8 * values.len(),
        values_at(values_bytes(values) + rest, values.len()) == values,
    decreases values.len(),
{
    if values.len() == 0 {
        assert(values_at(values_bytes(values) + rest, 0) =~= values);
    } else {
        let head = values.drop_last();
        let last = values.last();
        lemma_values_round_trip(head, i64_bytes(last) + rest);
        lemma_i64_round_trip(last);
        let bytes = values_bytes(values) + rest;
        assert(bytes =~= values_bytes(head) + (i64_bytes(last) + rest));
        let read = values_at(bytes, values.len());
        assert forall|i: int| 0 <= i < values.len() implies read[i] == values[i] by {
            if i < head.len() {
                assert(values_at(bytes, head.len())[i] == head[i]);
            } else {
                assert(bytes.subrange(8 * i, 8 * i + 8) =~= i64_bytes(last));
            }
        }
        assert(read =~= values);
    }
}

/// A record that fits takes `record_len` bytes, and bytes that begin with
/// what was written for it begin with it.
pub proof fn lemma_record_round_trip(record: Record, sample_types_len: nat, rest: Seq<u8>)
    requires
        fits(record, sample_types_len),
    ensures
        record_bytes(record.0, record.1, record.2).len() == record_len(sample_types_len),
        has_record(record_bytes(record.0, record.1, record.2) + rest, sample_types_len),
        first_record(record_bytes(record.0, record.1, record.2) + rest, sample_types_len)
            == record,
        (record_bytes(record.0, record.1, record.2) + rest).skip(
            record_len(sample_types_len) as int,
        ) == rest,
{
    let (sample, timestamp, values) = record;
    let written = record_bytes(sample, timestamp, values);
    let bytes = written + rest;
    lemma_u32_round_trip(sample.stacktrace.spec_offset());
    lemma_u32_round_trip(sample.labels.spec_offset());
    lemma_i64_round_trip(timestamp.spec_get());
    lemma_values_round_trip(values, rest);
    assert(bytes.subrange(0, 4) =~= u32_bytes(sample.stacktrace.spec_offset()));
    assert(bytes.subrange(4, 8) =~= u32_bytes(sample.labels.spec_offset()));
    assert(bytes.subrange(8, 16) =~= i64_bytes(timestamp.spec_get()));
    assert(bytes.skip(16) =~= values_bytes(values) + rest);
    assert(bytes.skip(record_len(sample_types_len) as int) =~= rest);
    sample.stacktrace.lemma_raw_id_round_trip(0);
    sample.labels.lemma_raw_id_round_trip(0);
    timestamp.lemma_value_round_trip(0);
}

/// The bytes of a log begin with its oldest record.
pub proof fn lemma_log_bytes_from_front(all: Seq<Record>)
    requires
        all.len() > 0,
    ensures
        log_bytes(all) == record_bytes(all[0].0, all[0].1, all[0].2) + log_bytes(all.drop_first()),
    decreases all.len(),
{
    let head = all.drop_last();
    let last = all.last();
    if head.len() == 0 {
        assert(all.drop_first() =~= head);
        assert(log_bytes(all) =~= record_bytes(all[0].0, all[0].1, all[0].2) + log_bytes(
            all.drop_first(),
        ));
    } else {
        lemma_log_bytes_from_front(head);
        let tail = all.drop_first();
        assert(tail.drop_last() =~= head.drop_first());
        assert(tail.last() == last);
        assert(head[0] == all[0]);
        assert(log_bytes(all) =~= record_bytes(all[0].0, all[0].1, all[0].2) + log_bytes(tail));
    }
}

/// Appending a record to a log appends its bytes.
pub proof fn lemma_log_bytes_push(all: Seq<Record>, record: Record)
    ensures
        log_bytes(all.push(record)) == log_bytes(all) + record_bytes(record.0, record.1, record.2),
{
    assert(all.push(record).drop_last() =~= all);
}

/// What is written comes back: the bytes of records that fit, all with
/// `sample_types_len` values, are read as those records, as many and in the
/// order in which they were written, each with the handles, the timestamp and
/// the values it was written with. This holds for every `sample_types_len`,
/// zero too.
pub proof fn lemma_log_round_trip(all: Seq<Record>, sample_types_len: nat)
    requires
        forall|k: int| 0 <= k < all.len() ==> fits(#[trigger] all[k], sample_types_len),
    ensures
        records(log_bytes(all), sample_types_len) == all,
        log_bytes(all).len() == all.len() * record_len(sample_types_len),
    decreases all.len(),
{
    if all.len() == 0 {
        assert(records(log_bytes(all), sample_types_len) =~= all);
    } else {
        let tail = all.drop_first();
        assert forall|k: int| 0 <= k < tail.len() implies fits(
            #[trigger] tail[k],
            sample_types_len,
        ) by {
            assert(tail[k] == all[k + 1]);
        }
        lemma_log_round_trip(tail, sample_types_len);
        lemma_log_bytes_from_front(all);
        lemma_record_round_trip(all[0], sample_types_len, log_bytes(tail));
        assert(records(log_bytes(all), sample_types_len) =~= all);
        assert(log_bytes(all).len() == all.len() * record_len(sample_types_len))
            by (nonlinear_arith)
            requires
                log_bytes(all).len() == record_len(sample_types_len) + log_bytes(tail).len(),
                log_bytes(tail).len() == tail.len() * record_len(sample_types_len),
                tail.len() == all.len() - 1,
        ;
    }
}

/// A log that nothing was written to holds no record, whatever the number of
/// values per record.
pub proof fn lemma_empty_log_has_no_records(sample_types_len: nat)
    ensures
        records(Seq::<u8>::empty(), sample_types_len) == Seq::<Record>::empty(),
        log_bytes(Seq::<Record>::empty()) == Seq::<u8>::empty(),
{
}

} // verus!
