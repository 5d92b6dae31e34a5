//! Observations in the order of their keys.
use crate::codex::{views, Observation, ObservationView};
use crate::text::{place, precedes, precedes_is_total, precedes_is_transitive, Place};
use vstd::prelude::*;

verus! {

/// `sorted` with `first` put before all observations whose keys do not come before its own.
pub open spec fn placed(sorted: Seq<ObservationView>, first: ObservationView) -> Seq<
    ObservationView,
>
    decreases sorted.len(),
{
    if sorted.len() > 0 && precedes(sorted[0].key(), first.key()) {
        seq![sorted[0]] + placed(sorted.drop_first(), first)
    } else {
        seq![first] + sorted
    }
}

/// The observations in ascending order of their keys; those with equal keys keep their order.
pub open spec fn by_key(observations: Seq<ObservationView>) -> Seq<ObservationView>
    decreases observations.len(),
{
    if observations.len() == 0 {
        observations
    } else {
        placed(by_key(observations.drop_first()), observations[0])
    }
}

/// Whether `output` is `input` stably sorted by key: it holds the items of `input` at the
/// positions `from`, each once, the keys do not descend, and items with equal keys keep the
/// order that they had.
pub open spec fn stably_sorted(
    input: Seq<ObservationView>,
    output: Seq<ObservationView>,
    from: Seq<int>,
) -> bool {
    &&& output.len() == input.len()
    &&& from.len() == input.len()
    &&& forall|i: int|
        0 <= i < from.len() ==> 0 <= #[trigger] from[i] < input.len() && output[i] == input[from[i]]
    &&& forall|i: int, j: int|
        0 <= i < j < from.len() ==> from[i] != from[j] && (precedes(
            (#[trigger] output[i]).key(),
            (#[trigger] output[j]).key(),
        ) || (output[i].key() == output[j].key() && from[i] < from[j]))
}

/// Where `placed` puts its item: at the first position whose key does not come before its own.
proof fn lemma_placed(sorted: Seq<ObservationView>, first: ObservationView, at: int)
    requires
        0 <= at <= sorted.len(),
        forall|i: int| 0 <= i < at ==> precedes(#[trigger] sorted[i].key(), first.key()),
        at < sorted.len() ==> !precedes(sorted[at].key(), first.key()),
    ensures
        placed(sorted, first) == sorted.insert(at, first),
    decreases sorted.len(),
{
    if at > 0 {
        let rest = sorted.drop_first();
        assert(precedes(sorted[0].key(), first.key()));
        assert forall|i: int| 0 <= i < at - 1 implies precedes(
            #[trigger] rest[i].key(),
            first.key(),
        ) by {
            assert(rest[i] == sorted[i + 1]);
        }
        lemma_placed(rest, first, at - 1);
        assert(seq![sorted[0]] + rest.insert(at - 1, first) =~= sorted.insert(at, first));
    } else {
        assert(seq![first] + sorted =~= sorted.insert(0, first));
    }
}

/// The position at which `placed` puts its item.
proof fn lemma_position(sorted: Seq<ObservationView>, first: ObservationView) -> (at: int)
    ensures
        0 <= at <= sorted.len(),
        forall|i: int| 0 <= i < at ==> precedes(#[trigger] sorted[i].key(), first.key()),
        at < sorted.len() ==> !precedes(sorted[at].key(), first.key()),
    decreases sorted.len(),
{
    if sorted.len() > 0 && precedes(sorted[0].key(), first.key()) {
        let rest = sorted.drop_first();
        let below = lemma_position(rest, first);
        assert forall|i: int| 0 <= i < below + 1 implies precedes(
            #[trigger] sorted[i].key(),
            first.key(),
        ) by {
            if i > 0 {
                assert(rest[i - 1] == sorted[i]);
            }
        }
        below + 1
    } else {
        0
    }
}

/// `by_key` is the stable sort by key.
pub proof fn by_key_sorts_stably(observations: Seq<ObservationView>) -> (from: Seq<int>)
    ensures
        stably_sorted(observations, by_key(observations), from),
    decreases observations.len(),
{
    if observations.len() == 0 {
        Seq::empty()
    } else {
        let first = observations[0];
        let rest = observations.drop_first();
        let sorted = by_key(rest);
        let below = by_key_sorts_stably(rest);
        let at = lemma_position(sorted, first);
        lemma_placed(sorted, first, at);
        let output = by_key(observations);
        let from = Seq::new(
            observations.len(),
            |i: int|
                if i < at {
                    below[i] + 1
                } else if i == at {
                    0
                } else {
                    below[i - 1] + 1
                },
        );
        assert forall|i: int| 0 <= i < from.len() implies 0 <= #[trigger] from[i]
            < observations.len() && output[i] == observations[from[i]] by {
            if i < at {
                assert(sorted[i] == rest[below[i]]);
            } else if i > at {
                assert(sorted[i - 1] == rest[below[i - 1]]);
            }
        }
        assert forall|i: int| at <= i < sorted.len() implies precedes(
            first.key(),
            #[trigger] sorted[i].key(),
        ) || first.key() == sorted[i].key() by {
            precedes_is_total(first.key(), sorted[at].key());
            if i > at {
                assert(precedes(sorted[at].key(), sorted[i].key()) || sorted[at].key()
                    == sorted[i].key());
                if precedes(first.key(), sorted[at].key()) && precedes(
                    sorted[at].key(),
                    sorted[i].key(),
                ) {
                    precedes_is_transitive(first.key(), sorted[at].key(), sorted[i].key());
                }
            }
        }
        assert forall|i: int, j: int| 0 <= i < j < from.len() implies from[i] != from[j] && (
        precedes((#[trigger] output[i]).key(), (#[trigger] output[j]).key()) || (output[i].key()
            == output[j].key() && from[i] < from[j])) by {
            let i0 = if i < at { i } else { i - 1 };
            let j0 = if j < at { j } else { j - 1 };
            if i != at {
                assert(output[i] == sorted[i0]);
                assert(from[i] == below[i0] + 1);
                assert(below[i0] >= 0);
            }
            if j != at {
                assert(output[j] == sorted[j0]);
                assert(from[j] == below[j0] + 1);
                assert(below[j0] >= 0);
            }
        }
        from
    }
}

/// Sorts the observations by key, keeping the order of those with equal keys.
pub fn sort_by_key(observations: Vec<Observation>) -> (r: Vec<Observation>)
    ensures
        views(r@) == by_key(views(observations@)),
{
    let ghost all = views(observations@);
    let mut input: Vec<Observation> = observations;
    let mut sorted: Vec<Observation> = Vec::new();
    proof {
        assert(all.skip(all.len() as int) =~= Seq::empty());
        assert(views(sorted@) =~= Seq::empty());
        assert(views(input@) =~= all.take(all.len() as int));
    }
    while input.len() > 0
        invariant
            input@.len() <= all.len(),
            views(input@) == all.take(input@.len() as int),
            views(sorted@) == by_key(all.skip(input@.len() as int)),
        decreases input@.len(),
    {
        let ghost n = input@.len();
        let ghost before = input@;
        let ghost done = sorted@;
        match input.pop() {
            Some(first) => {
                let key: String = first.key();
                let mut at: usize = 0;
                while at < sorted.len() && place(sorted[at].key().as_str(), key.as_str())
                    == Place::Before
                    invariant
                        sorted@ == done,
                        key@ == first@.key(),
                        at <= sorted@.len(),
                        forall|i: int|
                            0 <= i < at ==> precedes(
                                #[trigger] views(sorted@)[i].key(),
                                first@.key(),
                            ),
                    decreases sorted@.len() - at,
                {
                    at = at + 1;
                }
                proof {
                    lemma_placed(views(done), first@, at as int);
                    assert(views(before)[n - 1] == first@);
                    let suffix = all.skip(n - 1);
                    assert(suffix.drop_first() =~= all.skip(n as int));
                    assert(suffix[0] == first@);
                }
                sorted.insert(at, first);
                proof {
                    assert(views(sorted@) =~= views(done).insert(at as int, first@));
                    assert(views(input@) =~= all.take(n - 1)) by {
                        assert(views(input@) =~= views(before).drop_last());
                    }
                }
            },
            None => {},
        }
    }
    proof {
        assert(all.skip(0) =~= all);
    }
    sorted
}

/// Sorting puts the observations in the order of their keys and changes nothing else: what comes out
/// at each position went in at the position that `from` gives, no two of these are the same, no key
/// comes after a later one, and observations with the same key stay in the order that they had.
pub proof fn observations_come_in_the_order_of_their_keys(observations: Seq<ObservationView>) -> (
    from: Seq<int>)
    ensures
        ({
            let sorted = by_key(observations);
            &&& sorted.len() == observations.len()
            &&& from.len() == observations.len()
            &&& forall|i: int|
                0 <= i < sorted.len() ==> 0 <= from[i] < observations.len() && (
                #[trigger] sorted[i]) == observations[from[i]]
            &&& forall|i: int, j: int|
                0 <= i < j < sorted.len() ==> {
                    let a = (#[trigger] sorted[i]).limit_id + "::"@ + sorted[i].slot;
                    let b = (#[trigger] sorted[j]).limit_id + "::"@ + sorted[j].slot;
                    &&& !precedes(b, a)
                    &&& a == b ==> from[i] < from[j]
                    &&& from[i] != from[j]
                }
        }),
{
    let from = by_key_sorts_stably(observations);
    let sorted = by_key(observations);
    assert forall|i: int| 0 <= i < sorted.len() implies 0 <= from[i] < observations.len() && (
    #[trigger] sorted[i]) == observations[from[i]] by {
        assert(0 <= from[i] < observations.len());
    }
    assert forall|i: int, j: int| 0 <= i < j < sorted.len() implies {
        let a = (#[trigger] sorted[i]).limit_id + "::"@ + sorted[i].slot;
        let b = (#[trigger] sorted[j]).limit_id + "::"@ + sorted[j].slot;
        &&& !precedes(b, a)
        &&& a == b ==> from[i] < from[j]
        &&& from[i] != from[j]
    } by {
        precedes_is_total(sorted[i].key(), sorted[j].key());
    }
    from
}

} // verus!
