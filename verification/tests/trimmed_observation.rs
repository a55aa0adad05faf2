use observation_store::{ObservationLength, TrimmedObservation};

#[test]
fn observation_length_is_the_number_it_was_made_with() {
    let len = ObservationLength::new(3);
    assert_eq!(len.get(), 3);
    assert!(len.eq(3));
    assert!(!len.eq(2));
    assert!(!len.eq(4));
    assert_eq!(len, ObservationLength::new(3));
    assert_ne!(len, ObservationLength::new(0));
}

#[test]
fn trimmed_observation_holds_the_values_it_was_given() {
    let len = ObservationLength::new(3);
    let observation = TrimmedObservation::new(vec![1, -2, 3], len);
    assert_eq!(observation.as_slice(len), &[1, -2, 3]);
    assert_eq!(observation.consume(len), vec![1, -2, 3]);
}

#[test]
fn trimmed_observation_is_changed_in_place() {
    let len = ObservationLength::new(2);
    let mut observation = TrimmedObservation::new(vec![10, 20], len);
    {
        let values = observation.as_mut_slice(len);
        values[0] += 1;
        values[1] -= 1;
    }
    assert_eq!(observation.as_slice(len), &[11, 19]);
    assert_eq!(observation.consume(len), vec![11, 19]);
}

#[test]
fn trimmed_observation_of_no_values() {
    let len = ObservationLength::new(0);
    let mut observation = TrimmedObservation::new(vec![], len);
    assert!(observation.as_slice(len).is_empty());
    assert!(observation.as_mut_slice(len).is_empty());
    assert_eq!(observation.consume(len), Vec::<i64>::new());
}
