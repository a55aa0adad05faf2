//! The container of observations.
//!
//! An observation is a sample, maybe a timestamp, and a vector of values. The
//! first observation that a container is given fixes the number of values for
//! all that follow. Observations without a timestamp are summed, value by
//! value, into one entry per sample. Observations with a timestamp are kept as
//! they come, in the order in which they come.

use vstd::prelude::*;
use std::collections::HashMap;
use std::collections::hash_map;
use vstd::std_specs::hash::{spec_hash_map_iter, spec_keys_iter};
use vstd::std_specs::iter::IteratorSpec;
use crate::ids::{SampleId, Timestamp};
use crate::trimmed_observation::{ObservationLength, TrimmedObservation};

verus! {

broadcast use vstd::std_specs::hash::group_hash_axioms;

/// Whether `a` and `b` can be summed value by value in 64 bits.
pub open spec fn sums_fit(a: Seq<i64>, b: Seq<i64>) -> bool {
    forall|i: int| 0 <= i < a.len() && i < b.len() ==> i64::MIN <= #[trigger] a[i] + b[i] <= i64::MAX
}

/// The sum of `a` and `b`, value by value. Where the sums fit in 64 bits they
/// are the sums of the integers.
pub open spec fn elementwise_sum(a: Seq<i64>, b: Seq<i64>) -> Seq<i64> {
    Seq::new(a.len(), |i: int| (a[i] + b[i]) as i64)
}

/// One entry as iteration hands it out: the sample, the timestamp if the
/// entry has one, and the values.
pub type Entry = (SampleId, Option<Timestamp>, Seq<i64>);

/// The entries that `items` stands for, each slice taken as its values.
pub open spec fn entries_of(items: Seq<(SampleId, Option<Timestamp>, &[i64])>) -> Seq<Entry> {
    Seq::new(items.len(), |i: int| (items[i].0, items[i].1, items[i].2@))
}

/// The entries that `items` stands for, each vector taken as its values.
pub open spec fn released_entries_of(
    items: Seq<(SampleId, Option<Timestamp>, Vec<i64>)>,
) -> Seq<Entry> {
    Seq::new(items.len(), |i: int| (items[i].0, items[i].1, items[i].2@))
}

/// What a container holds, as mathematics.
#[verifier::ext_equal]
pub struct ObservationsView {
    /// The number of values of every observation; `None` until the first one
    /// has come.
    pub obs_len: Option<nat>,
    /// The observations without a timestamp, summed per sample.
    pub aggregated: Map<SampleId, Seq<i64>>,
    /// The observations with a timestamp, oldest first.
    pub timestamped: Seq<(SampleId, Timestamp, Seq<i64>)>,
}

impl ObservationsView {
    /// The container that has been given nothing.
    pub open spec fn empty() -> Self {
        ObservationsView { obs_len: None, aggregated: Map::empty(), timestamped: Seq::empty() }
    }

    /// Whether nothing has been added yet.
    pub open spec fn is_empty(self) -> bool {
        self.obs_len is None
    }

    /// Every vector held has the one length of the container. So a container
    /// that is empty yet holds none.
    pub open spec fn wf(self) -> bool {
        &&& forall|id: SampleId| #[trigger]
            self.aggregated.contains_key(id) ==> self.obs_len == Some(self.aggregated[id].len())
        &&& forall|i: int|
            0 <= i < self.timestamped.len() ==> self.obs_len == Some(
                (#[trigger] self.timestamped[i]).2.len(),
            )
    }

    /// Whether a vector of `len` values has the length of this container: any
    /// length while the container is empty, the fixed one afterwards.
    pub open spec fn accepts_len(self, len: nat) -> bool {
        self.obs_len is None || self.obs_len == Some(len)
    }

    /// Whether an observation for `sample_id` would be summed into an entry
    /// that is already there.
    pub open spec fn merges(self, sample_id: SampleId, timestamp: Option<Timestamp>) -> bool {
        timestamp is None && self.aggregated.contains_key(sample_id)
    }

    /// Whether the observation can be added: its length is that of the
    /// container, and where it is summed into an entry, the sums fit.
    pub open spec fn accepts(
        self,
        sample_id: SampleId,
        timestamp: Option<Timestamp>,
        values: Seq<i64>,
    ) -> bool {
        &&& self.accepts_len(values.len())
        &&& self.merges(sample_id, timestamp) ==> sums_fit(self.aggregated[sample_id], values)
    }

    /// The number of entries without a timestamp at the head of the
    /// iteration `out`.
    pub open spec fn aggregated_in(self, out: Seq<Entry>) -> int {
        out.len() - self.timestamped.len()
    }

    /// Whether `out` is an iteration of this container: first one entry for
    /// each sample that has observations without a timestamp, in any order,
    /// then the observations with a timestamp, oldest first.
    pub open spec fn is_iteration(self, out: Seq<Entry>) -> bool {
        let n = self.aggregated_in(out);
        &&& n >= 0
        &&& forall|i: int|
            0 <= i < n ==> {
                &&& (#[trigger] out[i]).1 is None
                &&& self.aggregated.contains_key(out[i].0)
                &&& out[i].2 == self.aggregated[out[i].0]
            }
        &&& forall|i: int, j: int| 0 <= i < j < n ==> (#[trigger] out[i]).0 != (#[trigger] out[j]).0
        &&& forall|id: SampleId| #[trigger]
            self.aggregated.contains_key(id) ==> exists|i: int|
                0 <= i < n && (#[trigger] out[i]).0 == id
        &&& forall|j: int|
            0 <= j < self.timestamped.len() ==> #[trigger] out[n + j] == (
                self.timestamped[j].0,
                Some(self.timestamped[j].1),
                self.timestamped[j].2,
            )
    }

    /// The container after the observation has been added.
    pub open spec fn add(
        self,
        sample_id: SampleId,
        timestamp: Option<Timestamp>,
        values: Seq<i64>,
    ) -> Self {
        match timestamp {
            Some(ts) => ObservationsView {
                obs_len: Some(values.len()),
                aggregated: self.aggregated,
                timestamped: self.timestamped.push((sample_id, ts, values)),
            },
            None => ObservationsView {
                obs_len: Some(values.len()),
                aggregated: self.aggregated.insert(
                    sample_id,
                    if self.aggregated.contains_key(sample_id) {
                        elementwise_sum(self.aggregated[sample_id], values)
                    } else {
                        values
                    },
                ),
                timestamped: self.timestamped,
            },
        }
    }
}

struct NonEmptyObservations {
    aggregated_data: HashMap<u32, TrimmedObservation>,
    timestamped_data: Vec<(SampleId, Timestamp, TrimmedObservation)>,
    obs_len: ObservationLength,
}

impl NonEmptyObservations {
    #[verifier::type_invariant]
    spec fn all_of_one_length(self) -> bool {
        &&& forall|k: u32| #[trigger]
            self.aggregated_data@.contains_key(k) ==> self.aggregated_data@[k]@.len()
                == self.obs_len@
        &&& forall|i: int|
            0 <= i < self.timestamped_data@.len() ==> (#[trigger] self.timestamped_data@[i]).2@.len()
                == self.obs_len@
    }

    spec fn aggregated(self) -> Map<SampleId, Seq<i64>> {
        Map::new(
            |id: SampleId| self.aggregated_data@.contains_key(id.spec_offset()),
            |id: SampleId| self.aggregated_data@[id.spec_offset()]@,
        )
    }

    spec fn timestamped(self) -> Seq<(SampleId, Timestamp, Seq<i64>)> {
        Seq::new(
            self.timestamped_data@.len(),
            |i: int|
                (
                    self.timestamped_data@[i].0,
                    self.timestamped_data@[i].1,
                    self.timestamped_data@[i].2@,
                ),
        )
    }

    spec fn view(self) -> ObservationsView {
        ObservationsView {
            obs_len: Some(self.obs_len@),
            aggregated: self.aggregated(),
            timestamped: self.timestamped(),
        }
    }
}

/// The container. Its view is an [`ObservationsView`].
pub struct Observations {
    inner: Option<NonEmptyObservations>,
}

impl View for Observations {
    type V = ObservationsView;

    closed spec fn view(&self) -> ObservationsView {
        match self.inner {
            Some(inner) => inner.view(),
            None => ObservationsView::empty(),
        }
    }
}

impl Default for Observations {
    fn default() -> (observations: Self)
        ensures
            observations@ == ObservationsView::empty(),
    {
        Observations { inner: None }
    }
}

impl Observations {
    /// A container that holds nothing and has no length yet.
    pub fn new() -> (observations: Self)
        ensures
            observations@ == ObservationsView::empty(),
    {
        Observations { inner: None }
    }

    /// Whether nothing has been added yet.
    pub fn is_empty(&self) -> (empty: bool)
        ensures
            empty == self@.is_empty(),
    {
        self.inner.is_none()
    }

    /// Whether [`Observations::add`] can take this observation: whether it has
    /// the length of the container and, where it would be summed into an
    /// entry, whether the sums fit in 64 bits.
    pub fn accepts(
        &self,
        sample_id: SampleId,
        timestamp: Option<Timestamp>,
        values: &[i64],
    ) -> (ok: bool)
        ensures
            ok == self@.accepts(sample_id, timestamp, values@),
            self@.wf(),
    {
        match &self.inner {
            Some(observations) => {
                proof {
                    use_type_invariant(observations);
                }
                let obs_len = observations.obs_len;
                if !obs_len.eq(values.len()) {
                    false
                } else if timestamp.is_some() {
                    true
                } else {
                    match observations.aggregated_data.get(&sample_id.to_raw_id()) {
                        Some(sums) => can_accumulate(sums.as_slice(obs_len), values),
                        None => true,
                    }
                }
            },
            None => true,
        }
    }

    /// Adds one observation.
    ///
    /// The first observation fixes the length of the container. Without a
    /// timestamp the values are summed into the entry of `sample_id`, or
    /// become that entry where there is none. With a timestamp the
    /// observation becomes the last of the timestamped entries, whatever is
    /// there already.
    pub fn add(&mut self, sample_id: SampleId, timestamp: Option<Timestamp>, values: Vec<i64>)
        requires
            old(self)@.accepts(sample_id, timestamp, values@),
        ensures
            final(self)@ == old(self)@.add(sample_id, timestamp, values@),
            final(self)@.wf(),
    {
        let inner = match self.inner.take() {
            Some(inner) => inner,
            None => NonEmptyObservations {
                aggregated_data: HashMap::new(),
                timestamped_data: Vec::new(),
                obs_len: ObservationLength::new(values.len()),
            },
        };
        proof {
            use_type_invariant(&inner);
        }
        let NonEmptyObservations { aggregated_data, timestamped_data, obs_len } = inner;
        let mut aggregated_data = aggregated_data;
        let mut timestamped_data = timestamped_data;

        if let Some(ts) = timestamp {
            let trimmed = TrimmedObservation::new(values, obs_len);
            timestamped_data.push((sample_id, ts, trimmed));
        } else {
            match aggregated_data.entry(sample_id.to_raw_id()) {
                hash_map::Entry::Occupied(mut entry) => {
                    accumulate(entry.get_mut().as_mut_slice(obs_len), &values);
                },
                hash_map::Entry::Vacant(entry) => {
                    entry.insert(TrimmedObservation::new(values, obs_len));
                },
            }
        }
        let after = NonEmptyObservations { aggregated_data, timestamped_data, obs_len };
        proof {
            let goal = old(self)@.add(sample_id, timestamp, values@);
            assert(after.view().timestamped =~= goal.timestamped);
            assert(after.view().aggregated =~= goal.aggregated) by {
                assert forall|id: SampleId|
                    id.spec_offset() == sample_id.spec_offset() implies id == sample_id by {
                    id.lemma_offset_is_identity(sample_id);
                }
            }
            assert(after.view() =~= goal);
        }
        self.inner = Some(after);
    }

    /// All entries: first the summed ones, one per sample and in no
    /// particular order, then the timestamped ones, oldest first. The
    /// container is left as it is, so the call can be repeated.
    pub fn iter(&self) -> (entries: Vec<(SampleId, Option<Timestamp>, &[i64])>)
        ensures
            self@.is_iteration(entries_of(entries@)),
            self@.wf(),
    {
        let mut entries: Vec<(SampleId, Option<Timestamp>, &[i64])> = Vec::new();
        match &self.inner {
            Some(observations) => {
                proof {
                    use_type_invariant(observations);
                }
                let obs_len = observations.obs_len;
                let ghost pairs = spec_hash_map_iter(&observations.aggregated_data).remaining();
                for pair in it: observations.aggregated_data.iter()
                    invariant
                        it.seq() == pairs,
                        pairs == spec_hash_map_iter(&observations.aggregated_data).remaining(),
                        entries@.len() == it.index(),
                        forall|k: u32| #[trigger]
                            observations.aggregated_data@.contains_key(k)
                                ==> observations.aggregated_data@[k]@.len() == obs_len@,
                        forall|i: int|
                            0 <= i < entries@.len() ==> {
                                &&& (#[trigger] entries@[i]).0.spec_offset() == *pairs[i].0
                                &&& entries@[i].1 is None
                                &&& entries@[i].2@ == pairs[i].1@
                            },
                {
                    let (key, observation) = pair;
                    assert(pair == pairs[it.index()]);
                    assert(observations.aggregated_data@.contains_key(*pairs[it.index()].0));
                    entries.push((SampleId::from_raw_id(*key), None, observation.as_slice(obs_len)));
                }
                let ghost n = entries@.len();
                let mut j: usize = 0;
                while j < observations.timestamped_data.len()
                    invariant
                        j <= observations.timestamped_data@.len(),
                        entries@.len() == n + j,
                        n == pairs.len(),
                        forall|i: int|
                            0 <= i < observations.timestamped_data@.len() ==> (
                            #[trigger] observations.timestamped_data@[i]).2@.len() == obs_len@,
                        forall|i: int|
                            0 <= i < n ==> {
                                &&& (#[trigger] entries@[i]).0.spec_offset() == *pairs[i].0
                                &&& entries@[i].1 is None
                                &&& entries@[i].2@ == pairs[i].1@
                            },
                        forall|i: int|
                            0 <= i < j ==> {
                                &&& (#[trigger] entries@[n + i]).0
                                    == observations.timestamped_data@[i].0
                                &&& entries@[n + i].1 == Some(observations.timestamped_data@[i].1)
                                &&& entries@[n + i].2@ == observations.timestamped_data@[i].2@
                            },
                    decreases observations.timestamped_data@.len() - j,
                {
                    let (sample_id, ts, observation) = &observations.timestamped_data[j];
                    entries.push((*sample_id, Some(*ts), observation.as_slice(obs_len)));
                    j += 1;
                }
                proof {
                    observations.lemma_walk_yields_each_key_once(pairs);
                    observations.lemma_keys_make_an_iteration(
                        Seq::new(pairs.len(), |i: int| *pairs[i].0),
                        entries_of(entries@),
                    );
                }
            },
            None => {},
        }
        entries
    }

    /// Takes the container apart. Every buffer is released, once and under
    /// the length of the container, and what it held is handed out: first
    /// the summed entries, one per sample and in no particular order, then
    /// the timestamped ones, oldest first.
    pub fn release(self) -> (entries: Vec<(SampleId, Option<Timestamp>, Vec<i64>)>)
        ensures
            self@.is_iteration(released_entries_of(entries@)),
            self@.wf(),
    {
        let mut entries: Vec<(SampleId, Option<Timestamp>, Vec<i64>)> = Vec::new();
        match self.inner {
            Some(inner) => {
                proof {
                    use_type_invariant(&inner);
                }
                let ghost held = inner;
                let NonEmptyObservations { aggregated_data, timestamped_data, obs_len } = inner;
                let mut aggregated_data = aggregated_data;
                let keys = keys_of(&aggregated_data);
                let mut i: usize = 0;
                while i < keys.len()
                    invariant
                        i <= keys@.len(),
                        entries@.len() == i,
                        obs_len == held.obs_len,
                        held.all_of_one_length(),
                        held.holds_each_key_once(keys@),
                        forall|k: u32|
                            aggregated_data@.contains_key(k) <==> #[trigger]
                            held.aggregated_data@.contains_key(k) && !keys@.take(i as int).contains(
                                k,
                            ),
                        forall|k: u32| #[trigger]
                            aggregated_data@.contains_key(k) ==> aggregated_data@[k]
                                == held.aggregated_data@[k],
                        forall|j: int|
                            0 <= j < i ==> {
                                &&& (#[trigger] entries@[j]).0.spec_offset() == keys@[j]
                                &&& entries@[j].1 is None
                                &&& entries@[j].2@ == held.aggregated_data@[keys@[j]]@
                            },
                    decreases keys@.len() - i,
                {
                    let key = keys[i];
                    proof {
                        assert(held.aggregated_data@.contains_key(keys@[i as int]));
                        if keys@.take(i as int).contains(key) {
                            let j = choose|j: int|
                                0 <= j < i && keys@.take(i as int)[j] == key;
                            assert(keys@[j] == keys@[i as int]);
                        }
                        assert(aggregated_data@.contains_key(key));
                    }
                    let ghost before = aggregated_data@;
                    match aggregated_data.remove(&key) {
                        Some(observation) => {
                            entries.push(
                                (SampleId::from_raw_id(key), None, observation.consume(obs_len)),
                            );
                        },
                        None => {},
                    }
                    proof {
                        assert(aggregated_data@ == before.remove(key));
                        assert forall|k: u32|
                            aggregated_data@.contains_key(k) <==> #[trigger]
                            held.aggregated_data@.contains_key(k) && !keys@.take(
                                i + 1,
                            ).contains(k) by {
                            let shorter = keys@.take(i as int);
                            let longer = keys@.take(i + 1);
                            assert(longer =~= shorter.push(key));
                            if shorter.contains(k) {
                                let j = choose|j: int| 0 <= j < shorter.len() && shorter[j] == k;
                                assert(longer[j] == k);
                            }
                            if longer.contains(k) && k != key {
                                let j = choose|j: int| 0 <= j < longer.len() && longer[j] == k;
                                assert(shorter[j] == k);
                            }
                            if k == key {
                                assert(longer[i as int] == k);
                            }
                        }
                    }
                    i += 1;
                }
                let ghost n = entries@.len();
                for entry in it: timestamped_data
                    invariant
                        it.seq() == held.timestamped_data@,
                        obs_len == held.obs_len,
                        held.all_of_one_length(),
                        n == keys@.len(),
                        entries@.len() == n + it.index(),
                        forall|j: int|
                            0 <= j < n ==> {
                                &&& (#[trigger] entries@[j]).0.spec_offset() == keys@[j]
                                &&& entries@[j].1 is None
                                &&& entries@[j].2@ == held.aggregated_data@[keys@[j]]@
                            },
                        forall|j: int|
                            0 <= j < it.index() ==> {
                                &&& (#[trigger] entries@[n + j]).0 == held.timestamped_data@[j].0
                                &&& entries@[n + j].1 == Some(held.timestamped_data@[j].1)
                                &&& entries@[n + j].2@ == held.timestamped_data@[j].2@
                            },
                {
                    assert(entry == held.timestamped_data@[it.index()]);
                    let (sample_id, ts, observation) = entry;
                    entries.push((sample_id, Some(ts), observation.consume(obs_len)));
                }
                proof {
                    held.lemma_keys_make_an_iteration(keys@, released_entries_of(entries@));
                }
            },
            None => {},
        }
        entries
    }
}

/// The keys of `map`, each once, in the order in which a walk of the map
/// yields them.
fn keys_of(map: &HashMap<u32, TrimmedObservation>) -> (keys: Vec<u32>)
    ensures
        keys@.no_duplicates(),
        forall|i: int| 0 <= i < keys@.len() ==> map@.contains_key(#[trigger] keys@[i]),
        forall|k: u32| #[trigger] map@.contains_key(k) ==> keys@.contains(k),
{
    let mut keys: Vec<u32> = Vec::new();
    let ghost walk = spec_keys_iter(map).remaining();
    for key in it: map.keys()
        invariant
            it.seq() == walk,
            walk == spec_keys_iter(map).remaining(),
            keys@.len() == it.index(),
            forall|i: int| 0 <= i < keys@.len() ==> #[trigger] keys@[i] == *walk[i],
    {
        keys.push(*key);
    }
    proof {
        assert(keys@ =~= walk.unref());
        assert forall|i: int, j: int| 0 <= i < keys@.len() && 0 <= j < keys@.len() && i != j implies keys@[i]
            != keys@[j] by {
            assert(walk[i] != walk[j]);
        }
        assert forall|i: int| 0 <= i < keys@.len() implies map@.contains_key(
            #[trigger] keys@[i],
        ) by {
            assert(walk.unref().to_set().contains(walk.unref()[i]));
        }
        assert forall|k: u32| #[trigger] map@.contains_key(k) implies keys@.contains(k) by {
            assert(walk.unref().to_set().contains(k));
        }
    }
    keys
}

impl NonEmptyObservations {
    /// The keys of the pairs that a walk of the map yields are the keys of
    /// the map, each once.
    proof fn lemma_walk_yields_each_key_once(self, pairs: Seq<(&u32, &TrimmedObservation)>)
        requires
            pairs == spec_hash_map_iter(&self.aggregated_data).remaining(),
            pairs.no_duplicates(),
        ensures
            self.holds_each_key_once(Seq::new(pairs.len(), |i: int| *pairs[i].0)),
            forall|i: int|
                0 <= i < pairs.len() ==> self.aggregated_data@[*(#[trigger] pairs[i]).0]
                    == *pairs[i].1,
    {
        let map = self.aggregated_data@;
        let keys = Seq::new(pairs.len(), |i: int| *pairs[i].0);
        assert forall|i: int| 0 <= i < pairs.len() implies map.contains_key(
            *(#[trigger] pairs[i]).0,
        ) && map[*pairs[i].0] == *pairs[i].1 by {
            assert(map.contains_key(*pairs[i].0));
        }
        assert forall|i: int, j: int| 0 <= i < keys.len() && 0 <= j < keys.len() && i != j implies keys[i]
            != keys[j] by {
            if keys[i] == keys[j] {
                assert(pairs[i] == pairs[j]);
            }
        }
        assert forall|k: u32| #[trigger] map.contains_key(k) implies keys.contains(k) by {
            assert(pairs.contains((&k, &map[k])));
            let i = choose|i: int| 0 <= i < pairs.len() && pairs[i] == (&k, &map[k]);
            assert(keys[i] == k);
        }
        assert forall|i: int| 0 <= i < keys.len() implies map.contains_key(#[trigger] keys[i]) by {
            assert(map.contains_key(*pairs[i].0));
        }
    }

    /// Whether `keys` are the keys of the map of sums, each once.
    spec fn holds_each_key_once(self, keys: Seq<u32>) -> bool {
        &&& keys.no_duplicates()
        &&& forall|i: int|
            0 <= i < keys.len() ==> self.aggregated_data@.contains_key(#[trigger] keys[i])
        &&& forall|k: u32| #[trigger] self.aggregated_data@.contains_key(k) ==> keys.contains(k)
    }

    /// One entry for each key of the map of sums, followed by the
    /// timestamped entries, is an iteration of the container.
    proof fn lemma_keys_make_an_iteration(self, keys: Seq<u32>, out: Seq<Entry>)
        requires
            self.all_of_one_length(),
            self.holds_each_key_once(keys),
            out.len() == keys.len() + self.timestamped_data@.len(),
            forall|i: int|
                0 <= i < keys.len() ==> {
                    &&& (#[trigger] out[i]).0.spec_offset() == keys[i]
                    &&& out[i].1 is None
                    &&& out[i].2 == self.aggregated_data@[keys[i]]@
                },
            forall|i: int|
                0 <= i < self.timestamped_data@.len() ==> #[trigger] out[keys.len() + i] == (
                    self.timestamped_data@[i].0,
                    Some(self.timestamped_data@[i].1),
                    self.timestamped_data@[i].2@,
                ),
        ensures
            self.view().is_iteration(out),
            self.view().wf(),
    {
        let view = self.view();
        let map = self.aggregated_data@;
        let n = view.aggregated_in(out);
        assert(n == keys.len());
        assert forall|i: int| 0 <= i < n implies {
            &&& (#[trigger] out[i]).1 is None
            &&& view.aggregated.contains_key(out[i].0)
            &&& out[i].2 == view.aggregated[out[i].0]
        } by {
            assert(map.contains_key(keys[i]));
        }
        assert forall|i: int, j: int| 0 <= i < j < n implies (#[trigger] out[i]).0 != (
        #[trigger] out[j]).0 by {
            assert(keys[i] != keys[j]);
        }
        assert forall|id: SampleId| #[trigger] view.aggregated.contains_key(id) implies exists|
            i: int,
        |
            0 <= i < n && (#[trigger] out[i]).0 == id by {
            let k = id.spec_offset();
            assert(map.contains_key(k));
            let i = choose|i: int| 0 <= i < keys.len() && keys[i] == k;
            out[i].0.lemma_offset_is_identity(id);
            assert(out[i].0 == id);
        }
        assert forall|j: int| 0 <= j < view.timestamped.len() implies #[trigger] out[n + j] == (
            view.timestamped[j].0,
            Some(view.timestamped[j].1),
            view.timestamped[j].2,
        ) by {
        }
    }
}

/// Whether `values` can be added to `sums` value by value in 64 bits.
fn can_accumulate(sums: &[i64], values: &[i64]) -> (ok: bool)
    requires
        sums@.len() == values@.len(),
    ensures
        ok == sums_fit(sums@, values@),
{
    let n = values.len();
    let mut i: usize = 0;
    while i < n
        invariant
            i <= n,
            n == values@.len(),
            n == sums@.len(),
            forall|j: int| 0 <= j < i ==> i64::MIN <= #[trigger] sums@[j] + values@[j] <= i64::MAX,
        decreases n - i,
    {
        if sums[i].checked_add(values[i]).is_none() {
            assert(!(i64::MIN <= sums@[i as int] + values@[i as int] <= i64::MAX));
            return false;
        }
        i += 1;
    }
    true
}

/// Adds `values` to `sums` in place, value by value.
fn accumulate(sums: &mut [i64], values: &Vec<i64>)
    requires
        old(sums)@.len() == values@.len(),
        sums_fit(old(sums)@, values@),
    ensures
        final(sums)@ == elementwise_sum(old(sums)@, values@),
{
    let n = values.len();
    let mut i: usize = 0;
    while i < n
        invariant
            i <= n,
            n == values@.len(),
            sums@.len() == n,
            old(sums)@.len() == n,
            sums_fit(old(sums)@, values@),
            forall|j: int| 0 <= j < i ==> sums@[j] == old(sums)@[j] + values@[j],
            forall|j: int| i <= j < n ==> sums@[j] == old(sums)@[j],
        decreases n - i,
    {
        assert(i64::MIN <= old(sums)@[i as int] + values@[i as int] <= i64::MAX);
        sums[i] = sums[i] + values[i];
        i += 1;
    }
    assert(sums@ =~= elementwise_sum(old(sums)@, values@));
}

} // verus!
