//! The value buffer of one observation.
//!
//! All observations of one container have the same number of values, so the
//! container keeps that number once and a buffer is never asked for it. Every
//! access to a buffer names the length instead, and has to name the length
//! that the buffer was made with. Here that duty is a precondition: a caller
//! proves it, and nothing is checked while the program runs.

use vstd::prelude::*;

verus! {

/// The number of values that every observation of one container carries.
#[derive(Clone, Copy, Debug, PartialEq, Eq, Structural)]
pub struct ObservationLength {
    len: usize,
}

impl View for ObservationLength {
    type V = nat;

    closed spec fn view(&self) -> nat {
        self.len as nat
    }
}

impl ObservationLength {
    /// The length `len`.
    pub fn new(len: usize) -> (obs_len: Self)
        ensures
            obs_len@ == len,
    {
        ObservationLength { len }
    }

    /// The length as a number.
    pub fn get(&self) -> (len: usize)
        ensures
            len == self@,
    {
        self.len
    }

    /// Whether this length is `other`.
    pub fn eq(&self, other: usize) -> (same: bool)
        ensures
            same == (self@ == other),
    {
        self.len == other
    }
}

/// The values of one observation, owned, without a length of their own.
///
/// The view is the sequence of values. A buffer is read, changed and released
/// only under the length it was made with.
#[derive(Debug)]
pub struct TrimmedObservation {
    data: Vec<i64>,
}

impl View for TrimmedObservation {
    type V = Seq<i64>;

    closed spec fn view(&self) -> Seq<i64> {
        self.data@
    }
}

impl TrimmedObservation {
    /// Takes over `values`, which has `len` values.
    pub fn new(values: Vec<i64>, len: ObservationLength) -> (obs: Self)
        requires
            values@.len() == len@,
        ensures
            obs@ == values@,
    {
        TrimmedObservation { data: values }
    }

    /// The values, read-only. `len` is the length the buffer was made with.
    pub fn as_slice(&self, len: ObservationLength) -> (values: &[i64])
        requires
            len@ == self@.len(),
        ensures
            values@ == self@,
    {
        self.data.as_slice()
    }

    /// The values, to be changed in place. `len` is the length the buffer was
    /// made with; what the slice holds when the borrow ends is what the
    /// buffer holds from then on, so the length cannot change.
    pub fn as_mut_slice(&mut self, len: ObservationLength) -> (values: &mut [i64])
        requires
            len@ == old(self)@.len(),
        ensures
            values@ == old(self)@,
            final(self)@ == final(values)@,
    {
        self.data.as_mut_slice()
    }

    /// Gives the values back as the vector that [`TrimmedObservation::new`]
    /// took, and with it the memory. `len` is the length the buffer was made
    /// with. A buffer is released once: the call uses it up.
    pub fn consume(self, len: ObservationLength) -> (values: Vec<i64>)
        requires
            len@ == self@.len(),
        ensures
            values@ == self@,
    {
        self.data
    }
}

} // verus!
