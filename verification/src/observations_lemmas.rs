//! What holds of every container of observations, proved over its view.

use vstd::prelude::*;
use vstd::seq_lib::{lemma_multiset_commutative, to_multiset_contains};
use crate::ids::{SampleId, Timestamp};
use crate::observations::{Entry, ObservationsView};

verus! {

/// The container after the vectors `all`, in turn, have been added for
/// `sample_id` without a timestamp.
pub open spec fn add_aggregated(
    view: ObservationsView,
    sample_id: SampleId,
    all: Seq<Seq<i64>>,
) -> ObservationsView
    decreases all.len(),
{
    if all.len() == 0 {
        view
    } else {
        add_aggregated(view, sample_id, all.drop_last()).add(sample_id, None, all.last())
    }
}

/// Whether each of the vectors `all` is accepted when its turn comes.
pub open spec fn accepts_aggregated(
    view: ObservationsView,
    sample_id: SampleId,
    all: Seq<Seq<i64>>,
) -> bool
    decreases all.len(),
{
    all.len() == 0 || {
        &&& accepts_aggregated(view, sample_id, all.drop_last())
        &&& add_aggregated(view, sample_id, all.drop_last()).accepts(sample_id, None, all.last())
    }
}

/// The sum of the values at place `column` of the vectors `all`.
pub open spec fn column_sum(all: Seq<Seq<i64>>, column: int) -> int
    decreases all.len(),
{
    if all.len() == 0 {
        0
    } else {
        column_sum(all.drop_last(), column) + all.last()[column]
    }
}

/// The container after the observations `all`, each with its timestamp, have
/// been added in turn.
pub open spec fn add_timestamped(
    view: ObservationsView,
    all: Seq<(SampleId, Timestamp, Seq<i64>)>,
) -> ObservationsView
    decreases all.len(),
{
    if all.len() == 0 {
        view
    } else {
        add_timestamped(view, all.drop_last()).add(
            all.last().0,
            Some(all.last().1),
            all.last().2,
        )
    }
}

/// Adding an accepted observation keeps every vector at the one length, and
/// a length that is fixed stays as it is.
pub proof fn lemma_add_keeps_one_length(
    view: ObservationsView,
    sample_id: SampleId,
    timestamp: Option<Timestamp>,
    values: Seq<i64>,
)
    requires
        view.wf(),
        view.accepts(sample_id, timestamp, values),
    ensures
        view.add(sample_id, timestamp, values).wf(),
        view.add(sample_id, timestamp, values).obs_len == Some(values.len()),
        !view.is_empty() ==> view.add(sample_id, timestamp, values).obs_len == view.obs_len,
{
    let after = view.add(sample_id, timestamp, values);
    assert forall|id: SampleId| #[trigger] after.aggregated.contains_key(id) implies after.obs_len
        == Some(after.aggregated[id].len()) by {
        if id != sample_id || timestamp is Some {
            assert(view.aggregated.contains_key(id));
        }
    }
    assert forall|i: int| 0 <= i < after.timestamped.len() implies after.obs_len == Some(
        (#[trigger] after.timestamped[i]).2.len(),
    ) by {
        if i < view.timestamped.len() {
            assert(after.timestamped[i] == view.timestamped[i]);
        }
    }
}

/// The first observation is accepted whatever its length, and fixes the
/// length of the container: of what comes second, with or without a
/// timestamp and for the same sample or another, only a vector of that
/// length is accepted.
pub proof fn lemma_first_add_fixes_length(
    sample_id: SampleId,
    timestamp: Option<Timestamp>,
    values: Seq<i64>,
    next_sample_id: SampleId,
    next_timestamp: Option<Timestamp>,
    next_values: Seq<i64>,
)
    ensures
        ObservationsView::empty().accepts(sample_id, timestamp, values),
        ObservationsView::empty().add(sample_id, timestamp, values).obs_len == Some(values.len()),
        ObservationsView::empty().add(sample_id, timestamp, values).accepts(
            next_sample_id,
            next_timestamp,
            next_values,
        ) ==> next_values.len() == values.len(),
        ObservationsView::empty().add(sample_id, timestamp, values).accepts_len(next_values.len())
            <==> next_values.len() == values.len(),
{
}

/// Observations without a timestamp merge: after the vectors `all` have been
/// added for one sample that had no entry, the container holds one entry for
/// that sample, whose values are the sums, column by column, of the vectors;
/// an iteration hands out that entry once, and the entries of other samples
/// and the timestamped entries are as they were.
pub proof fn lemma_aggregated_adds_merge(
    view: ObservationsView,
    sample_id: SampleId,
    all: Seq<Seq<i64>>,
    out: Seq<Entry>,
)
    requires
        view.wf(),
        !view.aggregated.contains_key(sample_id),
        all.len() > 0,
        accepts_aggregated(view, sample_id, all),
        add_aggregated(view, sample_id, all).is_iteration(out),
    ensures
        add_aggregated(view, sample_id, all).wf(),
        add_aggregated(view, sample_id, all).timestamped == view.timestamped,
        add_aggregated(view, sample_id, all).aggregated.dom() == view.aggregated.dom().insert(
            sample_id,
        ),
        forall|id: SampleId|
            id != sample_id && view.aggregated.contains_key(id) ==> add_aggregated(
                view,
                sample_id,
                all,
            ).aggregated[id] == #[trigger] view.aggregated[id],
        forall|k: int| 0 <= k < all.len() ==> (#[trigger] all[k]).len() == all[0].len(),
        add_aggregated(view, sample_id, all).aggregated[sample_id].len() == all[0].len(),
        forall|column: int|
            0 <= column < all[0].len() ==> #[trigger] add_aggregated(
                view,
                sample_id,
                all,
            ).aggregated[sample_id][column] == column_sum(all, column),
        exists|i: int|
            {
                &&& 0 <= i < out.len()
                &&& #[trigger] out[i] == (
                    sample_id,
                    None::<Timestamp>,
                    add_aggregated(view, sample_id, all).aggregated[sample_id],
                )
                &&& forall|j: int|
                    0 <= j < out.len() && (#[trigger] out[j]).0 == sample_id && out[j].1 is None
                        ==> j == i
            },
{
    lemma_aggregated_sums(view, sample_id, all);
    let after = add_aggregated(view, sample_id, all);
    let n = after.aggregated_in(out);
    assert(after.aggregated.contains_key(sample_id));
    let i = choose|i: int| 0 <= i < n && (#[trigger] out[i]).0 == sample_id;
    assert(out[i] == (sample_id, None::<Timestamp>, after.aggregated[sample_id]));
    assert forall|j: int|
        0 <= j < out.len() && (#[trigger] out[j]).0 == sample_id && out[j].1 is None implies j
        == i by {
        if j >= n {
            assert(out[n + (j - n)].1 is Some);
        }
    }
}

/// The state after a run of accepted additions for one sample, without what
/// an iteration says of it.
proof fn lemma_aggregated_sums(view: ObservationsView, sample_id: SampleId, all: Seq<Seq<i64>>)
    requires
        view.wf(),
        !view.aggregated.contains_key(sample_id),
        all.len() > 0,
        accepts_aggregated(view, sample_id, all),
    ensures
        add_aggregated(view, sample_id, all).wf(),
        add_aggregated(view, sample_id, all).timestamped == view.timestamped,
        add_aggregated(view, sample_id, all).aggregated.dom() == view.aggregated.dom().insert(
            sample_id,
        ),
        forall|id: SampleId|
            id != sample_id && view.aggregated.contains_key(id) ==> add_aggregated(
                view,
                sample_id,
                all,
            ).aggregated[id] == #[trigger] view.aggregated[id],
        forall|k: int| 0 <= k < all.len() ==> (#[trigger] all[k]).len() == all[0].len(),
        add_aggregated(view, sample_id, all).aggregated[sample_id].len() == all[0].len(),
        forall|column: int|
            0 <= column < all[0].len() ==> #[trigger] add_aggregated(
                view,
                sample_id,
                all,
            ).aggregated[sample_id][column] == column_sum(all, column),
    decreases all.len(),
{
    let head = all.drop_last();
    let before = add_aggregated(view, sample_id, head);
    let after = add_aggregated(view, sample_id, all);
    if head.len() == 0 {
        assert(before == view);
        lemma_add_keeps_one_length(view, sample_id, None, all.last());
        assert(after.aggregated.dom() =~= view.aggregated.dom().insert(sample_id));
        assert forall|column: int| 0 <= column < all[0].len() implies #[trigger] after.aggregated[sample_id][column]
            == column_sum(all, column) by {
            assert(column_sum(head, column) == 0);
        }
    } else {
        lemma_aggregated_sums(view, sample_id, head);
        lemma_add_keeps_one_length(before, sample_id, None, all.last());
        assert(head[0] == all[0]);
        assert(before.aggregated.contains_key(sample_id));
        assert(after.aggregated.dom() =~= view.aggregated.dom().insert(sample_id));
        assert forall|k: int| 0 <= k < all.len() implies (#[trigger] all[k]).len()
            == all[0].len() by {
            if k < head.len() {
                assert(head[k] == all[k]);
            }
        }
        assert forall|column: int| 0 <= column < all[0].len() implies #[trigger] after.aggregated[sample_id][column]
            == column_sum(all, column) by {
            assert(before.aggregated[sample_id][column] == column_sum(head, column));
            assert(i64::MIN <= before.aggregated[sample_id][column] + all.last()[column]
                <= i64::MAX);
        }
    }
}

/// Observations with a timestamp never merge: after the observations `all`
/// have been added, the timestamped entries are those of before followed by
/// one entry for each of `all`, in the order of the calls, whether or not a
/// sample or a timestamp occurs twice; the summed entries are as they were;
/// and an iteration ends with those entries.
pub proof fn lemma_timestamped_adds_never_merge(
    view: ObservationsView,
    all: Seq<(SampleId, Timestamp, Seq<i64>)>,
    out: Seq<Entry>,
)
    requires
        view.wf(),
        forall|k: int| 0 <= k < all.len() ==> view.accepts_len((#[trigger] all[k]).2.len()),
        forall|k: int, l: int|
            0 <= k < all.len() && 0 <= l < all.len() ==> (#[trigger] all[k]).2.len() == (
            #[trigger] all[l]).2.len(),
        add_timestamped(view, all).is_iteration(out),
    ensures
        add_timestamped(view, all).wf(),
        add_timestamped(view, all).aggregated == view.aggregated,
        add_timestamped(view, all).timestamped == view.timestamped + all,
        out.len() >= all.len(),
        forall|k: int|
            0 <= k < all.len() ==> #[trigger] out[out.len() - all.len() + k] == (
                all[k].0,
                Some(all[k].1),
                all[k].2,
            ),
{
    lemma_timestamped_appends(view, all);
    let after = add_timestamped(view, all);
    let n = after.aggregated_in(out);
    assert forall|k: int| 0 <= k < all.len() implies #[trigger] out[out.len() - all.len() + k] == (
        all[k].0,
        Some(all[k].1),
        all[k].2,
    ) by {
        let j = view.timestamped.len() + k;
        assert(after.timestamped[j] == all[k]);
        assert(out[n + j] == (
            after.timestamped[j].0,
            Some(after.timestamped[j].1),
            after.timestamped[j].2,
        ));
    }
}

/// The state after a run of timestamped additions, without what an
/// iteration says of it.
proof fn lemma_timestamped_appends(
    view: ObservationsView,
    all: Seq<(SampleId, Timestamp, Seq<i64>)>,
)
    requires
        view.wf(),
        forall|k: int| 0 <= k < all.len() ==> view.accepts_len((#[trigger] all[k]).2.len()),
        forall|k: int, l: int|
            0 <= k < all.len() && 0 <= l < all.len() ==> (#[trigger] all[k]).2.len() == (
            #[trigger] all[l]).2.len(),
    ensures
        add_timestamped(view, all).wf(),
        add_timestamped(view, all).aggregated == view.aggregated,
        add_timestamped(view, all).timestamped == view.timestamped + all,
        all.len() > 0 ==> add_timestamped(view, all).obs_len == Some(all[0].2.len()),
        all.len() == 0 ==> add_timestamped(view, all) == view,
    decreases all.len(),
{
    if all.len() == 0 {
        assert(view.timestamped + all =~= view.timestamped);
    } else {
        let head = all.drop_last();
        let before = add_timestamped(view, head);
        assert forall|k: int| 0 <= k < head.len() implies view.accepts_len(
            (#[trigger] head[k]).2.len(),
        ) by {
            assert(head[k] == all[k]);
        }
        assert forall|k: int, l: int| 0 <= k < head.len() && 0 <= l < head.len() implies (
        #[trigger] head[k]).2.len() == (#[trigger] head[l]).2.len() by {
            assert(head[k] == all[k]);
            assert(head[l] == all[l]);
        }
        lemma_timestamped_appends(view, head);
        assert(all.last() == all[all.len() - 1]);
        if head.len() > 0 {
            assert(head[0] == all[0]);
        }
        assert(before.accepts(all.last().0, Some(all.last().1), all.last().2));
        lemma_add_keeps_one_length(before, all.last().0, Some(all.last().1), all.last().2);
        assert(view.timestamped + all =~= (view.timestamped + head).push(all.last()));
    }
}

/// Two iterations of one container hand out the same entries, each as often
/// in the one as in the other; only the order of the summed entries may
/// differ.
pub proof fn lemma_iterations_agree(view: ObservationsView, first: Seq<Entry>, second: Seq<Entry>)
    requires
        view.is_iteration(first),
        view.is_iteration(second),
    ensures
        first.len() == second.len(),
        first.to_multiset() == second.to_multiset(),
        first.skip(view.aggregated_in(first)) == second.skip(view.aggregated_in(second)),
{
    let n1 = view.aggregated_in(first);
    let n2 = view.aggregated_in(second);
    let head1 = first.take(n1);
    let head2 = second.take(n2);
    let tail1 = first.skip(n1);
    let tail2 = second.skip(n2);
    assert(tail1 =~= tail2) by {
        assert forall|j: int| 0 <= j < tail1.len() implies tail1[j] == tail2[j] by {
            assert(tail1[j] == first[n1 + j]);
            assert(tail2[j] == second[n2 + j]);
        }
    }
    lemma_summed_entries(view, first);
    lemma_summed_entries(view, second);
    assert(head1.to_multiset() =~= head2.to_multiset()) by {
        head1.lemma_multiset_has_no_duplicates();
        head2.lemma_multiset_has_no_duplicates();
        assert forall|e: Entry| head1.to_multiset().count(e) == head2.to_multiset().count(e) by {
            to_multiset_contains(head1, e);
            to_multiset_contains(head2, e);
        }
    }
    assert(first =~= head1 + tail1);
    assert(second =~= head2 + tail2);
    lemma_multiset_commutative(head1, tail1);
    lemma_multiset_commutative(head2, tail2);
    assert(head1.len() == head2.len()) by {
        vstd::seq_lib::to_multiset_len(head1);
        vstd::seq_lib::to_multiset_len(head2);
    }
}

/// The summed part of an iteration holds no entry twice, and holds exactly
/// the entries of the samples that the container has sums for.
proof fn lemma_summed_entries(view: ObservationsView, out: Seq<Entry>)
    requires
        view.is_iteration(out),
    ensures
        out.take(view.aggregated_in(out)).no_duplicates(),
        forall|e: Entry|
            out.take(view.aggregated_in(out)).contains(e) <==> {
                &&& e.1 is None
                &&& view.aggregated.contains_key(e.0)
                &&& e.2 == view.aggregated[e.0]
            },
{
    let n = view.aggregated_in(out);
    let head = out.take(n);
    assert forall|i: int, j: int| 0 <= i < head.len() && 0 <= j < head.len() && i != j implies head[i]
        != head[j] by {
        assert(head[i] == out[i] && head[j] == out[j]);
        if i < j {
            assert(out[i].0 != out[j].0);
        } else {
            assert(out[j].0 != out[i].0);
        }
    }
    assert forall|e: Entry|
        head.contains(e) <==> {
            &&& e.1 is None
            &&& view.aggregated.contains_key(e.0)
            &&& e.2 == view.aggregated[e.0]
        } by {
        if head.contains(e) {
            let i = choose|i: int| 0 <= i < head.len() && head[i] == e;
            assert(head[i] == out[i]);
        }
        if e.1 is None && view.aggregated.contains_key(e.0) && e.2 == view.aggregated[e.0] {
            let i = choose|i: int| 0 <= i < n && (#[trigger] out[i]).0 == e.0;
            assert(head[i] == out[i]);
            assert(out[i].1 is None);
            assert(out[i].2 == view.aggregated[e.0]);
            assert(head[i] == e);
        }
    }
}

} // verus!
