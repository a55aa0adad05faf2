use observation_store::{LabelSetId, Sample, SampleId, StackTraceId, Timestamp};

#[test]
fn handles_give_back_their_offsets() {
    for offset in [0usize, 1, 2, 65_536, 0xffff_ffff] {
        assert_eq!(SampleId::from_offset(offset).to_offset(), offset);
        assert_eq!(StackTraceId::from_offset(offset).to_offset(), offset);
        assert_eq!(LabelSetId::from_offset(offset).to_offset(), offset);
        assert_eq!(SampleId::from_offset(offset).to_raw_id() as usize, offset);
    }
}

#[test]
fn handles_are_equal_when_their_offsets_are() {
    assert_eq!(SampleId::from_offset(3), SampleId::from_raw_id(3));
    assert_ne!(SampleId::from_offset(3), SampleId::from_offset(4));
    assert_eq!(StackTraceId::from_offset(9), StackTraceId::from_raw_id(9));
    assert_ne!(StackTraceId::from_offset(9), StackTraceId::from_offset(8));
    assert_eq!(LabelSetId::from_offset(0), LabelSetId::from_raw_id(0));
    assert_ne!(LabelSetId::from_offset(0), LabelSetId::from_offset(1));
    let a = Sample { stacktrace: StackTraceId::from_offset(1), labels: LabelSetId::from_offset(2) };
    let b = Sample { stacktrace: StackTraceId::from_offset(1), labels: LabelSetId::from_offset(2) };
    let c = Sample { stacktrace: StackTraceId::from_offset(2), labels: LabelSetId::from_offset(1) };
    assert_eq!(a, b);
    assert_ne!(a, c);
}

#[test]
fn timestamp_is_never_zero() {
    assert_eq!(Timestamp::new(0), None);
    assert_eq!(Timestamp::new(1).unwrap().get(), 1);
    assert_eq!(Timestamp::new(-1).unwrap().get(), -1);
    assert_eq!(Timestamp::new(i64::MIN).unwrap().get(), i64::MIN);
    assert_eq!(Timestamp::new(i64::MAX).unwrap().get(), i64::MAX);
    assert_eq!(Timestamp::new(5), Timestamp::new(5));
    assert_ne!(Timestamp::new(5), Timestamp::new(6));
}
