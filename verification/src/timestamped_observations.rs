//! The log of timestamped observations.
//!
//! A log is written first and read afterwards, once. While it is written its
//! records go through a compressor, so that what is held is the compressed
//! stream; to read it, the stream is closed and handed to a decompressor that
//! gives the records back front to back.

use vstd::prelude::*;
use crate::byte_order::{i64_to_ne_bytes, u32_to_ne_bytes};
use crate::frame::{
    frame_payload, reader_new, reader_read_i64, reader_read_u32, reader_rest, writer_content,
    writer_finish, writer_new, writer_write_all, FrameReader, FrameWriter,
};
use crate::ids::{LabelSetId, Sample, StackTraceId, Timestamp};
use crate::record::{
    first_record, has_record, header_bytes, header_len, record_bytes, record_len, records,
    values_at, values_bytes,
};

verus! {

/// The number of bytes that the buffer of a new log has room for. A buffer
/// that grows little by little, in a program of many threads, leaves memory
/// in pieces; one of a megabyte seldom has to grow.
pub const DEFAULT_BUFFER_SIZE: usize = 1_048_576;

/// A write to the compressor failed.
#[derive(Debug)]
pub struct WriteError(pub std::io::Error);

/// The compressed stream could not be closed.
#[derive(Debug)]
pub struct FinishError(pub lz4_flex::frame::Error);

/// A log while it is written. Its view is the bytes written so far, as they
/// were before compression.
#[derive(Debug)]
pub struct TimestampedObservations {
    compressed_timestamped_data: FrameWriter,
    sample_types_len: usize,
}

impl View for TimestampedObservations {
    type V = Seq<u8>;

    closed spec fn view(&self) -> Seq<u8> {
        writer_content(self.compressed_timestamped_data)
    }
}

impl TimestampedObservations {
    /// The number of values that a reader of this log takes per record.
    pub closed spec fn spec_sample_types_len(&self) -> usize {
        self.sample_types_len
    }

    /// An empty log whose records have `sample_types_len` values each.
    pub fn new(sample_types_len: usize) -> (log: Self)
        ensures
            log@ == Seq::<u8>::empty(),
            log.spec_sample_types_len() == sample_types_len,
    {
        TimestampedObservations {
            compressed_timestamped_data: writer_new(Vec::with_capacity(DEFAULT_BUFFER_SIZE)),
            sample_types_len,
        }
    }

    /// An empty log that has set no memory aside, for where none is to be
    /// written. Its records have no values.
    pub fn with_no_backing_store() -> (log: Self)
        ensures
            log@ == Seq::<u8>::empty(),
            log.spec_sample_types_len() == 0,
    {
        TimestampedObservations {
            compressed_timestamped_data: writer_new(Vec::new()),
            sample_types_len: 0,
        }
    }

    /// The number of values that a reader of this log takes per record.
    #[verifier::when_used_as_spec(spec_sample_types_len)]
    pub fn sample_types_len(&self) -> (len: usize)
        ensures
            len == self.spec_sample_types_len(),
    {
        self.sample_types_len
    }

    /// Writes one record: the two handles of `sample`, the timestamp, and
    /// each of `values`.
    ///
    /// Whether the compressor takes the bytes is its own matter. Where it
    /// does, the log has grown by exactly the bytes of the record. Where a
    /// write fails, the error is handed on and what the log holds is not
    /// known any more.
    pub fn add(&mut self, sample: Sample, ts: Timestamp, values: Vec<i64>) -> (result: Result<
        (),
        WriteError,
    >)
        ensures
            final(self).spec_sample_types_len() == old(self).spec_sample_types_len(),
            result is Ok ==> final(self)@ == old(self)@ + record_bytes(sample, ts, values@),
    {
        let stack_trace_id = sample.stacktrace.to_raw_id();
        let labels_id = sample.labels.to_raw_id();
        let timestamp = ts.get();

        match self.write(u32_to_ne_bytes(stack_trace_id).as_slice()) {
            Ok(()) => {},
            Err(e) => {
                return Err(e);
            },
        }
        match self.write(u32_to_ne_bytes(labels_id).as_slice()) {
            Ok(()) => {},
            Err(e) => {
                return Err(e);
            },
        }
        match self.write(i64_to_ne_bytes(timestamp).as_slice()) {
            Ok(()) => {},
            Err(e) => {
                return Err(e);
            },
        }
        assert(self@ =~= old(self)@ + header_bytes(sample, ts));

        let n = values.len();
        let mut i: usize = 0;
        while i < n
            invariant
                i <= n,
                n == values@.len(),
                self.spec_sample_types_len() == old(self).spec_sample_types_len(),
                self@ == old(self)@ + header_bytes(sample, ts) + values_bytes(values@.take(i as int)),
            decreases n - i,
        {
            match self.write(i64_to_ne_bytes(values[i]).as_slice()) {
                Ok(()) => {},
                Err(e) => {
                    return Err(e);
                },
            }
            proof {
                let longer = values@.take(i + 1);
                assert(longer.drop_last() =~= values@.take(i as int));
                assert(longer.last() == values@[i as int]);
                assert(self@ =~= old(self)@ + header_bytes(sample, ts) + values_bytes(longer));
            }
            i += 1;
        }
        assert(values@.take(n as int) =~= values@);
        assert(self@ =~= old(self)@ + record_bytes(sample, ts, values@));
        Ok(())
    }

    /// Hands `bytes` to the compressor.
    fn write(&mut self, bytes: &[u8]) -> (result: Result<(), WriteError>)
        ensures
            final(self).spec_sample_types_len() == old(self).spec_sample_types_len(),
            result is Ok ==> final(self)@ == old(self)@ + bytes@,
    {
        // Whether the bytes are taken is the compressor's to say; what it
        // says is turned into the result by `write_result`.
        let outcome = writer_write_all(&mut self.compressed_timestamped_data, bytes);
        write_result(outcome)
    }

    /// Closes the log and opens it for reading, from its first byte. The log
    /// is used up: nothing can be written to it any more.
    ///
    /// Whether the compressor can close the stream is its own matter. Where
    /// it can, the reader has before it all that was written.
    pub fn into_iter(self) -> (result: Result<TimestampedObservationsIter, FinishError>)
        ensures
            result matches Ok(iter) ==> {
                &&& iter@ == self@
                &&& iter.spec_sample_types_len() == self.spec_sample_types_len()
            },
    {
        // Whether the stream can be closed is the compressor's to say; what
        // it says is turned into the result by `from_finished`.
        let finished = writer_finish(self.compressed_timestamped_data);
        TimestampedObservationsIter::from_finished(finished, self.sample_types_len)
    }
}

/// What a write to the compressor comes to, for everything that the
/// compressor can answer: success where it took the bytes, and where it did
/// not, its own error, wrapped and otherwise untouched.
pub fn write_result(outcome: Result<(), std::io::Error>) -> (result: Result<(), WriteError>)
    ensures
        outcome is Ok ==> result is Ok,
        outcome matches Err(e) ==> result matches Err(error) && error.0 == e,
{
    match outcome {
        Ok(()) => Ok(()),
        Err(e) => Err(WriteError(e)),
    }
}

/// A log while it is read. Its view is the bytes that are yet to be read, as
/// they are after decompression.
pub struct TimestampedObservationsIter {
    decoder: FrameReader,
    sample_types_len: usize,
}

impl View for TimestampedObservationsIter {
    type V = Seq<u8>;

    closed spec fn view(&self) -> Seq<u8> {
        reader_rest(self.decoder)
    }
}

impl TimestampedObservationsIter {
    /// The number of values that this reader takes per record.
    pub closed spec fn spec_sample_types_len(&self) -> usize {
        self.sample_types_len
    }

    /// The number of values that this reader takes per record.
    #[verifier::when_used_as_spec(spec_sample_types_len)]
    pub fn sample_types_len(&self) -> (len: usize)
        ensures
            len == self.spec_sample_types_len(),
    {
        self.sample_types_len
    }

    /// What closing a log comes to, for everything that the compressor can
    /// answer. Where it closed the stream, which then is a whole stream in
    /// the LZ4 frame format, the result is a reader that has before it all
    /// that the stream carries and takes `sample_types_len` values per
    /// record. Where it did not, the result is its own error, wrapped and
    /// otherwise untouched.
    pub fn from_finished(
        finished: Result<Vec<u8>, lz4_flex::frame::Error>,
        sample_types_len: usize,
    ) -> (result: Result<Self, FinishError>)
        requires
            finished matches Ok(stream) ==> frame_payload(stream@) is Some,
        ensures
            finished matches Ok(stream) ==> {
                &&& result matches Ok(iter)
                &&& Some(iter@) == frame_payload(stream@)
                &&& iter.spec_sample_types_len() == sample_types_len
            },
            finished matches Err(e) ==> result matches Err(error) && error.0 == e,
    {
        match finished {
            Ok(stream) => Ok(
                TimestampedObservationsIter { decoder: reader_new(stream), sample_types_len },
            ),
            Err(e) => Err(FinishError(e)),
        }
    }

    /// Reads the next record, in the order in which the records were
    /// written.
    ///
    /// There is a next record where the bytes that are left are enough for
    /// one and the number in the place of its timestamp is not zero. It is
    /// handed out, and the reader goes on behind it. Else the result is
    /// `None`, and how far the reader went is not known.
    pub fn next(&mut self) -> (result: Option<(Sample, Timestamp, Vec<i64>)>)
        ensures
            final(self).spec_sample_types_len() == old(self).spec_sample_types_len(),
            match result {
                Some((sample, ts, values)) => {
                    &&& has_record(old(self)@, old(self).spec_sample_types_len() as nat)
                    &&& (sample, ts, values@) == first_record(
                        old(self)@,
                        old(self).spec_sample_types_len() as nat,
                    )
                    &&& final(self)@ == old(self)@.skip(
                        record_len(old(self).spec_sample_types_len() as nat) as int,
                    )
                },
                None => !has_record(old(self)@, old(self).spec_sample_types_len() as nat),
            },
            result is Some <==> records(old(self)@, old(self).spec_sample_types_len() as nat).len()
                > 0,
            result matches Some((sample, ts, values)) ==> {
                &&& (sample, ts, values@) == records(
                    old(self)@,
                    old(self).spec_sample_types_len() as nat,
                )[0]
                &&& records(final(self)@, final(self).spec_sample_types_len() as nat) == records(
                    old(self)@,
                    old(self).spec_sample_types_len() as nat,
                ).drop_first()
            },
    {
        let ghost all = self@;
        let stacktrace = match reader_read_u32(&mut self.decoder) {
            Some(n) => n,
            None => {
                return None;
            },
        };
        let labels = match reader_read_u32(&mut self.decoder) {
            Some(n) => n,
            None => {
                return None;
            },
        };
        let ts = match reader_read_i64(&mut self.decoder) {
            Some(n) => n,
            None => {
                return None;
            },
        };
        proof {
            assert(all.take(4) =~= all.subrange(0, 4));
            assert(all.skip(4).take(4) =~= all.subrange(4, 8));
            assert(all.skip(4).skip(4).take(8) =~= all.subrange(8, 16));
            assert(self@ =~= all.skip(header_len() as int));
        }
        let timestamp = match Timestamp::new(ts) {
            Some(timestamp) => timestamp,
            None => {
                return None;
            },
        };
        let n = self.sample_types_len;
        let mut values: Vec<i64> = Vec::new();
        let mut i: usize = 0;
        while i < n
            invariant
                i <= n,
                n == self.spec_sample_types_len(),
                n == old(self).spec_sample_types_len(),
                all == old(self)@,
                all.len() >= header_len() + 8 * i,
                self@ == all.skip(header_len() + 8 * i),
                values@ == values_at(all.skip(header_len() as int), i as nat),
            decreases n - i,
        {
            let ghost rest = self@;
            match reader_read_i64(&mut self.decoder) {
                Some(value) => {
                    values.push(value);
                },
                None => {
                    return None;
                },
            }
            proof {
                assert(rest.take(8) =~= all.skip(header_len() as int).subrange(8 * i, 8 * i + 8));
                assert(self@ =~= all.skip(header_len() + 8 * (i + 1)));
                assert(values@ =~= values_at(all.skip(header_len() as int), (i + 1) as nat));
            }
            i += 1;
        }
        proof {
            let found = records(all, n as nat);
            let after = records(all.skip(record_len(n as nat) as int), n as nat);
            assert(found == seq![first_record(all, n as nat)] + after);
            assert(found.drop_first() =~= after);
        }
        Some(
            (
                Sample {
                    stacktrace: StackTraceId::from_raw_id(stacktrace),
                    labels: LabelSetId::from_raw_id(labels),
                },
                timestamp,
                values,
            ),
        )
    }
}

} // verus!
