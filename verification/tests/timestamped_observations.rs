use observation_store::timestamped_observations::write_result;
use observation_store::{
    FinishError, LabelSetId, Sample, StackTraceId, Timestamp, TimestampedObservations,
    TimestampedObservationsIter, WriteError,
};

fn sample(stacktrace: usize, labels: usize) -> Sample {
    Sample {
        stacktrace: StackTraceId::from_offset(stacktrace),
        labels: LabelSetId::from_offset(labels),
    }
}

fn ts(value: i64) -> Timestamp {
    Timestamp::new(value).unwrap()
}

#[test]
fn log_gives_back_what_was_written() {
    let mut log = TimestampedObservations::new(3);
    log.add(sample(1, 2), ts(100), vec![1, 2, 3]).unwrap();
    log.add(sample(3, 4), ts(200), vec![4, 5, 6]).unwrap();
    log.add(sample(1, 2), ts(100), vec![7, 8, 9]).unwrap();

    let mut iter = log.into_iter().unwrap();
    assert_eq!(iter.next(), Some((sample(1, 2), ts(100), vec![1, 2, 3])));
    assert_eq!(iter.next(), Some((sample(3, 4), ts(200), vec![4, 5, 6])));
    assert_eq!(iter.next(), Some((sample(1, 2), ts(100), vec![7, 8, 9])));
    assert_eq!(iter.next(), None);
    assert_eq!(iter.next(), None);
}

#[test]
fn log_keeps_extreme_numbers_bit_for_bit() {
    let mut log = TimestampedObservations::new(4);
    let big = sample(0xffff_ffff, 0);
    log.add(big, ts(i64::MIN), vec![i64::MIN, -1, 0, i64::MAX]).unwrap();
    log.add(sample(0, 0xffff_ffff), ts(i64::MAX), vec![0x0102_0304_0506_0708, -2, 1, 256])
        .unwrap();
    log.add(sample(0x0102_0304, 0x0a0b_0c0d), ts(-1), vec![0, 0, 0, 0]).unwrap();

    let mut iter = log.into_iter().unwrap();
    assert_eq!(iter.next(), Some((big, ts(i64::MIN), vec![i64::MIN, -1, 0, i64::MAX])));
    assert_eq!(
        iter.next(),
        Some((sample(0, 0xffff_ffff), ts(i64::MAX), vec![0x0102_0304_0506_0708, -2, 1, 256]))
    );
    assert_eq!(iter.next(), Some((sample(0x0102_0304, 0x0a0b_0c0d), ts(-1), vec![0, 0, 0, 0])));
    assert_eq!(iter.next(), None);
}

#[test]
fn log_of_records_without_values() {
    let mut log = TimestampedObservations::new(0);
    assert_eq!(log.sample_types_len(), 0);
    log.add(sample(7, 8), ts(9), vec![]).unwrap();
    log.add(sample(10, 11), ts(12), vec![]).unwrap();

    let mut iter = log.into_iter().unwrap();
    assert_eq!(iter.sample_types_len(), 0);
    assert_eq!(iter.next(), Some((sample(7, 8), ts(9), vec![])));
    assert_eq!(iter.next(), Some((sample(10, 11), ts(12), vec![])));
    assert_eq!(iter.next(), None);
}

#[test]
fn log_with_no_backing_store_is_empty() {
    let log = TimestampedObservations::with_no_backing_store();
    assert_eq!(log.sample_types_len(), 0);
    let mut iter = log.into_iter().unwrap();
    assert_eq!(iter.next(), None);
    assert_eq!(iter.next(), None);
}

#[test]
fn log_that_nothing_was_written_to_is_empty() {
    for len in [0usize, 1, 2, 17] {
        let log = TimestampedObservations::new(len);
        assert_eq!(log.sample_types_len(), len);
        let mut iter = log.into_iter().unwrap();
        assert_eq!(iter.sample_types_len(), len);
        assert_eq!(iter.next(), None);
    }
}

#[test]
fn log_of_many_records_spans_blocks_of_the_stream() {
    // 20_000 records of 56 bytes are more than a megabyte before compression,
    // so records lie across the borders of the compressor's blocks.
    let count: i64 = 20_000;
    let mut log = TimestampedObservations::new(5);
    for i in 0..count {
        let values = vec![i, -i, i * 1_000_003, i64::MAX - i, i64::MIN + i];
        log.add(sample(i as usize, (count - i) as usize), ts(i + 1), values).unwrap();
    }
    let mut iter = log.into_iter().unwrap();
    for i in 0..count {
        let values = vec![i, -i, i * 1_000_003, i64::MAX - i, i64::MIN + i];
        assert_eq!(
            iter.next(),
            Some((sample(i as usize, (count - i) as usize), ts(i + 1), values))
        );
    }
    assert_eq!(iter.next(), None);
}

#[test]
fn log_read_with_a_partial_record_at_its_end_stops_before_it() {
    // Two values are written where the reader takes three per record: the
    // first record is read from the bytes of both, and what is left is too
    // short for a second.
    let mut log = TimestampedObservations::new(3);
    log.add(sample(1, 1), ts(5), vec![10, 20]).unwrap();
    log.add(sample(2, 2), ts(6), vec![30, 40]).unwrap();
    let mut iter = log.into_iter().unwrap();
    let first = iter.next();
    assert!(first.is_some());
    let (s, t, values) = first.unwrap();
    assert_eq!(s, sample(1, 1));
    assert_eq!(t, ts(5));
    assert_eq!(values.len(), 3);
    assert_eq!(values[0], 10);
    assert_eq!(values[1], 20);
    assert_eq!(iter.next(), None);
}

#[test]
fn write_that_was_taken_is_a_success() {
    assert!(write_result(Ok(())).is_ok());
}

#[test]
fn write_that_failed_hands_on_the_error_of_the_compressor() {
    let error = std::io::Error::new(std::io::ErrorKind::OutOfMemory, "no room");
    match write_result(Err(error)) {
        Err(WriteError(e)) => {
            assert_eq!(e.kind(), std::io::ErrorKind::OutOfMemory);
            assert_eq!(format!("{}", e), "no room");
        }
        Ok(()) => panic!("a failed write was taken for a good one"),
    }
}

#[test]
fn closing_that_failed_hands_on_the_error_of_the_compressor() {
    let failed = Err(lz4_flex::frame::Error::ContentLengthError { expected: 7, actual: 5 });
    match TimestampedObservationsIter::from_finished(failed, 3) {
        Err(FinishError(lz4_flex::frame::Error::ContentLengthError { expected, actual })) => {
            assert_eq!(expected, 7);
            assert_eq!(actual, 5);
        }
        Err(_) => panic!("another error than the compressor's"),
        Ok(_) => panic!("a reader of a stream that was not closed"),
    }
}

#[test]
fn closed_stream_of_no_bytes_is_read_as_no_records() {
    // A log that nothing was written to is closed as the stream of no bytes.
    for len in [0usize, 2, 9] {
        match TimestampedObservationsIter::from_finished(Ok(Vec::new()), len) {
            Ok(mut iter) => {
                assert_eq!(iter.sample_types_len(), len);
                assert_eq!(iter.next(), None);
            }
            Err(_) => panic!("a closed stream gave no reader"),
        }
    }
}
