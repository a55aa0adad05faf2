//! Observation store of a sampling profiler.
//!
//! [`Observations`] keeps, per sample, a vector of measurements of one fixed
//! width: observations without a timestamp are summed per sample,
//! observations with a timestamp are kept one by one.
//! [`TimestampedObservations`] is a write-then-read log of timestamped
//! observations that is held compressed while it grows.
//!
//! Every function is verified against its contract, but for the calls into
//! `lz4_flex`, `byteorder` and two functions of std, which are listed in
//! [`frame`] and [`byte_order`] with what is taken from them.

pub mod byte_order;
pub mod frame;
pub mod ids;
pub mod observations;
pub mod observations_lemmas;
pub mod record;
pub mod timestamped_observations;
pub mod trimmed_observation;

pub use ids::{LabelSetId, Sample, SampleId, StackTraceId, Timestamp};
pub use observations::{Observations, ObservationsView};
pub use timestamped_observations::{
    FinishError, TimestampedObservations, TimestampedObservationsIter, WriteError,
};
pub use trimmed_observation::{ObservationLength, TrimmedObservation};
