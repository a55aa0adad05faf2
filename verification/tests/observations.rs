use observation_store::{Observations, SampleId, Timestamp};

#[test]
fn add_and_iter_test() {
    let mut o = Observations::default();
    let s1 = SampleId::from_offset(1);
    let s2 = SampleId::from_offset(2);
    let s3 = SampleId::from_offset(3);
    let t1 = Some(Timestamp::new(1).unwrap());
    let t2 = Some(Timestamp::new(2).unwrap());

    o.add(s1, None, vec![1, 2, 3]);
    o.add(s1, None, vec![4, 5, 6]);
    o.add(s2, None, vec![7, 8, 9]);
    o.iter().into_iter().for_each(|(k, ts, v)| {
        assert!(ts.is_none());
        if k == s1 {
            assert_eq!(v, vec![5, 7, 9]);
        } else if k == s2 {
            assert_eq!(v, vec![7, 8, 9]);
        } else {
            panic!("Unexpected key");
        }
    });
    // Iter twice to make sure there are no issues doing that
    o.iter().into_iter().for_each(|(k, ts, v)| {
        assert!(ts.is_none());
        if k == s1 {
            assert_eq!(v, vec![5, 7, 9]);
        } else if k == s2 {
            assert_eq!(v, vec![7, 8, 9]);
        } else {
            panic!("Unexpected key");
        }
    });
    o.add(s3, t1, vec![10, 11, 12]);

    o.iter().into_iter().for_each(|(k, ts, v)| {
        if k == s1 {
            assert_eq!(v, vec![5, 7, 9]);
            assert!(ts.is_none());
        } else if k == s2 {
            assert_eq!(v, vec![7, 8, 9]);
            assert!(ts.is_none());
        } else if k == s3 {
            assert_eq!(v, vec![10, 11, 12]);
            assert_eq!(ts, t1);
        } else {
            panic!("Unexpected key");
        }
    });

    o.add(s2, t2, vec![13, 14, 15]);
    o.iter().into_iter().for_each(|(k, ts, v)| {
        if k == s1 {
            assert_eq!(v, vec![5, 7, 9]);
            assert!(ts.is_none());
        } else if k == s2 {
            if ts.is_some() {
                assert_eq!(v, vec![13, 14, 15]);
                assert_eq!(ts, t2);
            } else {
                assert_eq!(v, vec![7, 8, 9]);
                assert!(ts.is_none());
            }
        } else if k == s3 {
            assert_eq!(v, vec![10, 11, 12]);
            assert_eq!(ts, t1);
        } else {
            panic!("Unexpected key");
        }
    });
}

#[test]
#[should_panic]
fn different_lengths_panic_different_key_no_ts() {
    let mut o = Observations::default();
    o.add(SampleId::from_offset(1), None, vec![1, 2, 3]);
    // This should panic
    let values = vec![4, 5];
    assert!(o.accepts(SampleId::from_offset(2), None, &values));
    o.add(SampleId::from_offset(2), None, values);
}

#[test]
#[should_panic]
fn different_lengths_panic_same_key_no_ts() {
    let mut o = Observations::default();
    o.add(SampleId::from_offset(1), None, vec![1, 2, 3]);
    // This should panic
    let values = vec![4, 5];
    assert!(o.accepts(SampleId::from_offset(1), None, &values));
    o.add(SampleId::from_offset(1), None, values);
}

#[test]
#[should_panic]
fn different_lengths_panic_different_key_ts() {
    let mut o = Observations::default();
    let ts = Timestamp::new(1).unwrap();
    o.add(SampleId::from_offset(1), Some(ts), vec![1, 2, 3]);
    // This should panic
    let values = vec![4, 5];
    assert!(o.accepts(SampleId::from_offset(2), Some(ts), &values));
    o.add(SampleId::from_offset(2), Some(ts), values);
}

#[test]
#[should_panic]
fn different_lengths_panic_same_key_ts() {
    let mut o = Observations::default();
    let ts = Timestamp::new(1).unwrap();
    o.add(SampleId::from_offset(1), Some(ts), vec![1, 2, 3]);
    // This should panic
    let values = vec![4, 5];
    assert!(o.accepts(SampleId::from_offset(1), Some(ts), &values));
    o.add(SampleId::from_offset(1), Some(ts), values);
}

#[test]
#[should_panic]
fn different_lengths_panic_different_key_mixed() {
    let mut o = Observations::default();
    let ts = Timestamp::new(1).unwrap();
    o.add(SampleId::from_offset(1), None, vec![1, 2, 3]);
    // This should panic
    let values = vec![4, 5];
    assert!(o.accepts(SampleId::from_offset(2), Some(ts), &values));
    o.add(SampleId::from_offset(2), Some(ts), values);
}

#[test]
#[should_panic]
fn different_lengths_panic_same_key_mixed() {
    let mut o = Observations::default();
    let ts = Timestamp::new(1).unwrap();
    o.add(SampleId::from_offset(1), Some(ts), vec![1, 2, 3]);
    // This should panic
    let values = vec![4, 5];
    assert!(o.accepts(SampleId::from_offset(1), None, &values));
    o.add(SampleId::from_offset(1), None, values);
}

fn sorted(
    mut entries: Vec<(SampleId, Option<Timestamp>, Vec<i64>)>,
) -> Vec<(usize, i64, Vec<i64>)> {
    let mut keyed: Vec<(usize, i64, Vec<i64>)> = entries
        .drain(..)
        .map(|(id, ts, values)| (id.to_offset(), ts.map_or(0, |t| t.get()), values))
        .collect();
    keyed.sort();
    keyed
}

fn owned(o: &Observations) -> Vec<(SampleId, Option<Timestamp>, Vec<i64>)> {
    o.iter().into_iter().map(|(id, ts, values)| (id, ts, values.to_vec())).collect()
}

#[test]
fn new_container_is_empty_until_the_first_add() {
    let mut o = Observations::new();
    assert!(o.is_empty());
    assert!(o.iter().is_empty());
    assert!(Observations::default().is_empty());
    o.add(SampleId::from_offset(1), None, vec![1]);
    assert!(!o.is_empty());

    let mut t = Observations::new();
    t.add(SampleId::from_offset(1), Timestamp::new(7), vec![]);
    assert!(!t.is_empty());
    assert_eq!(t.iter().len(), 1);
}

#[test]
fn first_add_is_accepted_whatever_its_length() {
    let id = SampleId::from_offset(1);
    let ts = Timestamp::new(3);
    for len in 0..5usize {
        let values = vec![1i64; len];
        assert!(Observations::new().accepts(id, None, &values));
        assert!(Observations::new().accepts(id, ts, &values));
    }
}

#[test]
fn first_add_fixes_the_length() {
    let s1 = SampleId::from_offset(1);
    let s2 = SampleId::from_offset(2);
    let ts = Timestamp::new(1);
    for first_ts in [None, ts] {
        let mut o = Observations::new();
        o.add(s1, first_ts, vec![1, 2, 3]);
        for id in [s1, s2] {
            for next_ts in [None, ts] {
                assert!(o.accepts(id, next_ts, &[4, 5, 6]));
                assert!(!o.accepts(id, next_ts, &[4, 5]));
                assert!(!o.accepts(id, next_ts, &[4, 5, 6, 7]));
                assert!(!o.accepts(id, next_ts, &[]));
            }
        }
    }
}

#[test]
fn observations_of_no_values_fix_the_length_zero() {
    let s1 = SampleId::from_offset(1);
    let mut o = Observations::new();
    o.add(s1, None, vec![]);
    assert!(!o.is_empty());
    assert!(o.accepts(s1, None, &[]));
    assert!(!o.accepts(s1, None, &[1]));
    o.add(s1, None, vec![]);
    assert_eq!(owned(&o), vec![(s1, None, vec![])]);
}

#[test]
fn sums_that_do_not_fit_are_not_accepted() {
    let s1 = SampleId::from_offset(1);
    let s2 = SampleId::from_offset(2);
    let mut o = Observations::new();
    o.add(s1, None, vec![i64::MAX, i64::MIN, 0]);
    assert!(!o.accepts(s1, None, &[1, 0, 0]));
    assert!(!o.accepts(s1, None, &[0, -1, 0]));
    assert!(o.accepts(s1, None, &[0, 0, i64::MAX]));
    assert!(o.accepts(s1, None, &[-1, 1, i64::MIN]));
    // Nothing is summed for another sample, or with a timestamp.
    assert!(o.accepts(s2, None, &[1, -1, 0]));
    assert!(o.accepts(s1, Timestamp::new(1), &[1, -1, 0]));
    o.add(s1, None, vec![-1, 1, i64::MIN]);
    assert_eq!(owned(&o), vec![(s1, None, vec![i64::MAX - 1, i64::MIN + 1, i64::MIN])]);
}

#[test]
fn observations_without_a_timestamp_are_summed_per_sample() {
    let s1 = SampleId::from_offset(10);
    let s2 = SampleId::from_offset(20);
    let mut o = Observations::new();
    o.add(s1, None, vec![1, -2, 3]);
    o.add(s2, None, vec![100, 200, 300]);
    o.add(s1, None, vec![10, 20, -30]);
    o.add(s1, None, vec![-11, 0, 27]);
    assert_eq!(o.iter().len(), 2);
    assert_eq!(
        sorted(owned(&o)),
        vec![(10, 0, vec![0, 18, 0]), (20, 0, vec![100, 200, 300])]
    );
}

#[test]
fn observations_with_a_timestamp_are_never_merged() {
    let s1 = SampleId::from_offset(1);
    let s2 = SampleId::from_offset(2);
    let t1 = Timestamp::new(5);
    let t2 = Timestamp::new(6);
    let mut o = Observations::new();
    o.add(s1, t1, vec![1, 2]);
    o.add(s1, t1, vec![1, 2]);
    o.add(s2, t2, vec![3, 4]);
    o.add(s1, t1, vec![5, 6]);
    o.add(s1, t2, vec![7, 8]);
    assert_eq!(
        owned(&o),
        vec![
            (s1, t1, vec![1, 2]),
            (s1, t1, vec![1, 2]),
            (s2, t2, vec![3, 4]),
            (s1, t1, vec![5, 6]),
            (s1, t2, vec![7, 8]),
        ]
    );
}

#[test]
fn summed_entries_come_before_timestamped_ones() {
    let s1 = SampleId::from_offset(1);
    let s2 = SampleId::from_offset(2);
    let t1 = Timestamp::new(1);
    let mut o = Observations::new();
    o.add(s2, t1, vec![1]);
    o.add(s1, None, vec![2]);
    o.add(s1, t1, vec![3]);
    o.add(s2, None, vec![4]);
    o.add(s1, None, vec![5]);
    let entries = owned(&o);
    assert_eq!(entries.len(), 4);
    assert!(entries[0].1.is_none());
    assert!(entries[1].1.is_none());
    assert_eq!(entries[2], (s2, t1, vec![1]));
    assert_eq!(entries[3], (s1, t1, vec![3]));
    assert_eq!(
        sorted(entries),
        vec![(1, 0, vec![7]), (1, 1, vec![3]), (2, 0, vec![4]), (2, 1, vec![1])]
    );
}

#[test]
fn iterating_twice_yields_the_same_entries() {
    let mut o = Observations::new();
    for i in 0..50usize {
        o.add(SampleId::from_offset(i % 7), None, vec![i as i64, 1]);
        o.add(SampleId::from_offset(i % 3), Timestamp::new(i as i64 + 1), vec![2, i as i64]);
    }
    let first = owned(&o);
    let second = owned(&o);
    assert_eq!(first.len(), 7 + 50);
    assert_eq!(sorted(first.clone()), sorted(second.clone()));
    assert_eq!(first[7..], second[7..]);
    // Iterating changes nothing: a later add is summed as before.
    o.add(SampleId::from_offset(0), None, vec![1000, 1000]);
    let third = sorted(owned(&o));
    // Sample 0 was given i = 0, 7, ..., 49, eight times in all.
    assert_eq!(third[0], (0, 0, vec![196 + 1000, 8 + 1000]));
}

#[test]
fn release_hands_out_every_entry_once() {
    let s1 = SampleId::from_offset(1);
    let s2 = SampleId::from_offset(2);
    let t1 = Timestamp::new(9);
    let mut o = Observations::new();
    o.add(s1, None, vec![1, 2, 3]);
    o.add(s1, None, vec![4, 5, 6]);
    o.add(s2, None, vec![7, 8, 9]);
    o.add(s2, t1, vec![13, 14, 15]);
    o.add(s2, t1, vec![13, 14, 15]);
    let seen = sorted(owned(&o));
    let released = o.release();
    assert_eq!(released.len(), 4);
    assert_eq!(released[2], (s2, t1, vec![13, 14, 15]));
    assert_eq!(released[3], (s2, t1, vec![13, 14, 15]));
    assert_eq!(sorted(released), seen);
    assert!(Observations::new().release().is_empty());
}
