//! Handles by which samples are told apart, and the time of an observation.
//!
//! The handles come from interning tables that live elsewhere. Here a handle is
//! a small integer with an identity and nothing more: it can be compared,
//! copied, and turned into the offset it was made from and back.

use vstd::prelude::*;

verus! {

/// The largest offset that a handle can stand for.
pub const MAX_OFFSET: usize = 0xffff_ffff;

/// Identity of an aggregation key: the interned pair of a stack trace and a
/// label set.
#[derive(Clone, Copy, Debug, PartialEq, Eq, Hash, Structural)]
pub struct SampleId {
    offset: u32,
}

impl SampleId {
    /// The offset that this handle stands for.
    pub closed spec fn spec_offset(self) -> u32 {
        self.offset
    }

    /// The handle of the entry at `offset` in its interning table.
    pub fn from_offset(offset: usize) -> (id: Self)
        requires
            offset <= MAX_OFFSET,
        ensures
            id.spec_offset() == offset,
    {
        SampleId { offset: offset as u32 }
    }

    /// The offset that [`SampleId::from_offset`] was given.
    pub fn to_offset(self) -> (offset: usize)
        ensures
            offset == self.spec_offset(),
            offset <= MAX_OFFSET,
    {
        self.offset as usize
    }

    /// The offset as the 32-bit number that tables are keyed by.
    pub fn to_raw_id(self) -> (raw: u32)
        ensures
            raw == self.spec_offset(),
    {
        self.offset
    }

    /// The handle whose raw number is `raw`.
    pub closed spec fn spec_from_raw_id(raw: u32) -> Self {
        SampleId { offset: raw }
    }

    /// The handle whose raw number is `raw`.
    pub fn from_raw_id(raw: u32) -> (id: Self)
        ensures
            id == Self::spec_from_raw_id(raw),
            id.spec_offset() == raw,
    {
        SampleId { offset: raw }
    }

    /// A handle made from a number stands for that number, and a handle is
    /// the one made from the number it stands for.
    pub proof fn lemma_raw_id_round_trip(self, raw: u32)
        ensures
            Self::spec_from_raw_id(raw).spec_offset() == raw,
            Self::spec_from_raw_id(self.spec_offset()) == self,
    {
    }

    /// Two handles are the same handle exactly when their offsets are equal.
    pub proof fn lemma_offset_is_identity(self, other: Self)
        ensures
            (self == other) <==> (self.spec_offset() == other.spec_offset()),
    {
    }
}

/// Handle of an interned stack trace.
#[derive(Clone, Copy, Debug, PartialEq, Eq, Hash, Structural)]
pub struct StackTraceId {
    offset: u32,
}

impl StackTraceId {
    /// The offset that this handle stands for.
    pub closed spec fn spec_offset(self) -> u32 {
        self.offset
    }

    /// The handle of the entry at `offset` in its interning table.
    pub fn from_offset(offset: usize) -> (id: Self)
        requires
            offset <= MAX_OFFSET,
        ensures
            id.spec_offset() == offset,
    {
        StackTraceId { offset: offset as u32 }
    }

    /// The offset that [`StackTraceId::from_offset`] was given.
    pub fn to_offset(self) -> (offset: usize)
        ensures
            offset == self.spec_offset(),
            offset <= MAX_OFFSET,
    {
        self.offset as usize
    }

    /// The offset as the 32-bit number that is written to a log.
    pub fn to_raw_id(self) -> (raw: u32)
        ensures
            raw == self.spec_offset(),
    {
        self.offset
    }

    /// The handle whose raw number is `raw`.
    pub closed spec fn spec_from_raw_id(raw: u32) -> Self {
        StackTraceId { offset: raw }
    }

    /// The handle whose raw number is `raw`.
    pub fn from_raw_id(raw: u32) -> (id: Self)
        ensures
            id == Self::spec_from_raw_id(raw),
            id.spec_offset() == raw,
    {
        StackTraceId { offset: raw }
    }

    /// A handle made from a number stands for that number, and a handle is
    /// the one made from the number it stands for.
    pub proof fn lemma_raw_id_round_trip(self, raw: u32)
        ensures
            Self::spec_from_raw_id(raw).spec_offset() == raw,
            Self::spec_from_raw_id(self.spec_offset()) == self,
    {
    }

    /// Two handles are the same handle exactly when their offsets are equal.
    pub proof fn lemma_offset_is_identity(self, other: Self)
        ensures
            (self == other) <==> (self.spec_offset() == other.spec_offset()),
    {
    }
}

/// Handle of an interned set of labels.
#[derive(Clone, Copy, Debug, PartialEq, Eq, Hash, Structural)]
pub struct LabelSetId {
    offset: u32,
}

impl LabelSetId {
    /// The offset that this handle stands for.
    pub closed spec fn spec_offset(self) -> u32 {
        self.offset
    }

    /// The handle of the entry at `offset` in its interning table.
    pub fn from_offset(offset: usize) -> (id: Self)
        requires
            offset <= MAX_OFFSET,
        ensures
            id.spec_offset() == offset,
    {
        LabelSetId { offset: offset as u32 }
    }

    /// The offset that [`LabelSetId::from_offset`] was given.
    pub fn to_offset(self) -> (offset: usize)
        ensures
            offset == self.spec_offset(),
            offset <= MAX_OFFSET,
    {
        self.offset as usize
    }

    /// The offset as the 32-bit number that is written to a log.
    pub fn to_raw_id(self) -> (raw: u32)
        ensures
            raw == self.spec_offset(),
    {
        self.offset
    }

    /// The handle whose raw number is `raw`.
    pub closed spec fn spec_from_raw_id(raw: u32) -> Self {
        LabelSetId { offset: raw }
    }

    /// The handle whose raw number is `raw`.
    pub fn from_raw_id(raw: u32) -> (id: Self)
        ensures
            id == Self::spec_from_raw_id(raw),
            id.spec_offset() == raw,
    {
        LabelSetId { offset: raw }
    }

    /// A handle made from a number stands for that number, and a handle is
    /// the one made from the number it stands for.
    pub proof fn lemma_raw_id_round_trip(self, raw: u32)
        ensures
            Self::spec_from_raw_id(raw).spec_offset() == raw,
            Self::spec_from_raw_id(self.spec_offset()) == self,
    {
    }

    /// Two handles are the same handle exactly when their offsets are equal.
    pub proof fn lemma_offset_is_identity(self, other: Self)
        ensures
            (self == other) <==> (self.spec_offset() == other.spec_offset()),
    {
    }
}

/// What a timestamped log entry carries in place of a [`SampleId`]: the stack
/// trace and the labels themselves, not interned as a pair.
#[derive(Clone, Copy, Debug, PartialEq, Eq, Hash, Structural)]
pub struct Sample {
    pub stacktrace: StackTraceId,
    pub labels: LabelSetId,
}

/// A point in time, as a signed 64-bit number that is never zero: in a log,
/// zero stands for "no timestamp".
#[derive(Clone, Copy, Debug, PartialEq, Eq, Hash, Structural)]
pub struct Timestamp {
    value: i64,
}

impl Timestamp {
    #[verifier::type_invariant]
    spec fn is_set(self) -> bool {
        self.value != 0
    }

    /// The number that this timestamp holds.
    pub closed spec fn spec_get(self) -> i64 {
        self.value
    }

    /// The timestamp that holds `value`. It is one that a program can hold
    /// only where `value` is not zero.
    pub closed spec fn spec_new(value: i64) -> Self {
        Timestamp { value }
    }

    /// The timestamp that holds `value`, unless `value` is zero.
    pub fn new(value: i64) -> (ts: Option<Self>)
        ensures
            ts is None <==> value == 0,
            ts matches Some(t) ==> t == Self::spec_new(value) && t.spec_get() == value,
    {
        if value == 0 {
            None
        } else {
            Some(Timestamp { value })
        }
    }

    /// The number that this timestamp holds; it is not zero.
    #[verifier::when_used_as_spec(spec_get)]
    pub fn get(self) -> (value: i64)
        ensures
            value == self.spec_get(),
            value != 0,
    {
        proof {
            use_type_invariant(&self);
        }
        self.value
    }

    /// A timestamp made from a number holds that number, and a timestamp is
    /// the one made from the number it holds.
    pub proof fn lemma_value_round_trip(self, value: i64)
        ensures
            Self::spec_new(value).spec_get() == value,
            Self::spec_new(self.spec_get()) == self,
    {
    }

    /// Two timestamps are the same exactly when they hold the same number.
    pub proof fn lemma_value_is_identity(self, other: Self)
        ensures
            (self == other) <==> (self.spec_get() == other.spec_get()),
    {
    }
}

} // verus!
