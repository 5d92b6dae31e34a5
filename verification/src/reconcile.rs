//! Comparing a fresh poll with the saved state: which refills to notify, and what to remember.
use crate::codex::{views, Observation, ObservationView};
use crate::percent::{epsilon, none_used, some_used, usage_shows_in_the_bits, Percent};
use crate::state::{NotifyRecord, NotifyRecordView, State, StateView};
use vstd::prelude::*;

verus! {

/// Whether a limit has been refilled: some of it was used at the last reading, and none is now.
/// A first sighting is a baseline, not a change.
pub open spec fn refilled(previous: Option<Percent>, used_now: Percent) -> bool {
    previous matches Some(previous) && previous@.exceeds(epsilon()) && used_now@.at_most(epsilon())
}

/// Decides whether a reading that follows the previous one is to be notified.
pub fn should_notify(previous: Option<Percent>, used_now: Percent) -> (r: bool)
    ensures
        r == refilled(previous, used_now),
        r == (previous matches Some(previous) && previous.bits_exceed_epsilon()
            && used_now.bits_at_most_epsilon()),
{
    match previous {
        Some(previous) => previous.exceeds_epsilon() && used_now.at_most_epsilon(),
        None => false,
    }
}

/// How an attempt to notify came out.
#[derive(Clone, Copy, PartialEq, Eq, Structural, Debug)]
pub enum Delivery {
    /// The notification was sent, at this time.
    Delivered { at: i64 },
    /// The notification could not be sent.
    Failed,
}

/// The last reading for the observed window.
pub open spec fn last_reading(state: StateView, o: ObservationView) -> Option<Percent> {
    if state.last_used_percent.contains_key(o.key()) {
        Some(state.last_used_percent[o.key()])
    } else {
        None
    }
}

/// Whether the observation calls for a notification.
pub open spec fn due(state: StateView, o: ObservationView) -> bool {
    refilled(last_reading(state, o), o.used_percent)
}

/// The record of a notification that was sent for the observation.
pub open spec fn record_of(state: StateView, o: ObservationView, at: i64) -> NotifyRecordView {
    NotifyRecordView {
        key: o.key(),
        label: o.label,
        at,
        from_used_percent: state.last_used_percent[o.key()],
    }
}

/// The state after an observation has been dealt with; `delivery` counts where a notification
/// was called for. One that failed leaves the state as it was, so that it is tried again on the
/// next poll.
pub open spec fn settled(state: StateView, o: ObservationView, delivery: Delivery) -> StateView {
    if !due(state, o) {
        state.with_reading(o.key(), o.used_percent)
    } else {
        match delivery {
            Delivery::Delivered { at } => state.with_notification(
                record_of(state, o, at),
            ).with_reading(o.key(), o.used_percent),
            Delivery::Failed => state,
        }
    }
}

/// The state after all observations have been dealt with in turn, where `deliveries` says for
/// each of them how a notification came out if one was called for.
pub open spec fn reconciled(
    state: StateView,
    observations: Seq<ObservationView>,
    deliveries: Seq<Delivery>,
) -> StateView
    decreases observations.len(),
{
    if observations.len() == 0 {
        state
    } else {
        reconciled(
            settled(state, observations[0], deliveries[0]),
            observations.drop_first(),
            deliveries.drop_first(),
        )
    }
}

/// The state that a poll at the given time leaves.
pub open spec fn after_poll(
    state: StateView,
    observations: Seq<ObservationView>,
    deliveries: Seq<Delivery>,
    at: i64,
) -> StateView {
    StateView { last_poll_at: Some(at), ..reconciled(state, observations, deliveries) }
}

/// How many notifications are sent while all observations are dealt with in turn.
pub open spec fn sent_count(
    state: StateView,
    observations: Seq<ObservationView>,
    deliveries: Seq<Delivery>,
) -> nat
    decreases observations.len(),
{
    if observations.len() == 0 {
        0
    } else {
        let one: nat = if due(state, observations[0]) && deliveries[0] is Delivered {
            1
        } else {
            0
        };
        one + sent_count(
            settled(state, observations[0], deliveries[0]),
            observations.drop_first(),
            deliveries.drop_first(),
        )
    }
}

/// Deals with the observations from the given position on that call for no notification, up to
/// the first that does: the state then, and the position of that one.
pub open spec fn quiet(
    state: StateView,
    observations: Seq<ObservationView>,
    position: int,
) -> (StateView, int)
    decreases observations.len() - position,
{
    if 0 <= position < observations.len() && !due(state, observations[position]) {
        let o = observations[position];
        quiet(state.with_reading(o.key(), o.used_percent), observations, position + 1)
    } else {
        (state, position)
    }
}

/// A notification that is to be sent.
#[derive(Clone, Copy, PartialEq, Eq, Structural, Debug)]
pub struct Notice {
    /// Which observation it is about.
    pub index: usize,
    /// How much was used at the last reading.
    pub previous: Percent,
}

/// What a finished reconciliation leaves.
#[derive(Debug)]
pub struct Outcome {
    /// The state to save.
    pub state: State,
    /// How many notifications were sent.
    pub sent: usize,
    /// Whether nothing had been seen before, so that this poll is the baseline.
    pub first_run: bool,
}

/// A poll that is being compared with the saved state, stopped at the next observation that calls
/// for a notification.
#[derive(Debug)]
pub struct Reconciliation {
    observations: Vec<Observation>,
    state: State,
    position: usize,
    sent: usize,
    first_run: bool,
}

impl Reconciliation {
    /// Every observation before the position has been dealt with, and the one at the position
    /// calls for a notification.
    pub open spec fn well_formed(self) -> bool {
        &&& self.sent_so_far() <= self.at() <= self.polled().len()
        &&& self.at() < self.polled().len() ==> due(self.current(), self.polled()[self.at()])
    }

    /// The observations of the poll.
    pub closed spec fn polled(self) -> Seq<ObservationView> {
        views(self.observations@)
    }

    /// The state that has been reached.
    pub closed spec fn current(self) -> StateView {
        self.state@
    }

    /// The position of the observation that calls for the next notification, or the number of all
    /// observations where none is left that does.
    pub closed spec fn at(self) -> int {
        self.position as int
    }

    /// How many notifications have been sent.
    pub closed spec fn sent_so_far(self) -> int {
        self.sent as int
    }

    /// Whether nothing had been seen before.
    pub closed spec fn is_first_run(self) -> bool {
        self.first_run
    }

    /// An observation of the poll.
    pub fn observation(&self, index: usize) -> (r: &Observation)
        requires
            index < self.polled().len(),
        ensures
            r@ == self.polled()[index as int],
    {
        &self.observations[index]
    }

    /// Starts to compare the observations with the state.
    pub fn start(observations: Vec<Observation>, state: State) -> (r: Self)
        ensures
            r.well_formed(),
            r.polled() == views(observations@),
            r.sent_so_far() == 0,
            r.is_first_run() <==> state@.last_used_percent == Map::<Seq<char>, Percent>::empty(),
            (r.current(), r.at()) == quiet(state@, views(observations@), 0),
    {
        let first_run: bool = state.last_used_percent.is_empty();
        let mut r: Self = Reconciliation { observations, state, position: 0, sent: 0, first_run };
        r.skip_quiet();
        r
    }

    /// The last reading for the observation at the position.
    fn previous(&self) -> (r: Option<Percent>)
        requires
            self.position < self.observations@.len(),
        ensures
            r == last_reading(self.state@, self.observations@[self.position as int]@),
    {
        let key: String = self.observations[self.position].key();
        match self.state.last_used_percent.get(key.as_str()) {
            Some(previous) => Some(*previous),
            None => None,
        }
    }

    /// Makes the reading at the position the last one of its key, and goes on to the next.
    fn advance(&mut self)
        requires
            old(self).position < old(self).observations@.len(),
        ensures
            final(self).observations == old(self).observations,
            final(self).position == old(self).position + 1,
            final(self).sent == old(self).sent,
            final(self).first_run == old(self).first_run,
            final(self).state@ == old(self).state@.with_reading(
                old(self).observations@[old(self).position as int]@.key(),
                old(self).observations@[old(self).position as int]@.used_percent,
            ),
    {
        let key: String = self.observations[self.position].key();
        let used_percent: Percent = self.observations[self.position].used_percent;
        self.state.last_used_percent.insert(key, used_percent);
        assert(self.position < self.observations.len());
        self.position = self.position + 1;
    }

    /// Deals with observations up to the next that calls for a notification.
    fn skip_quiet(&mut self)
        requires
            old(self).sent <= old(self).position <= old(self).observations@.len(),
        ensures
            final(self).well_formed(),
            final(self).observations == old(self).observations,
            final(self).sent == old(self).sent,
            final(self).first_run == old(self).first_run,
            (final(self).state@, final(self).position as int) == quiet(
                old(self).state@,
                views(old(self).observations@),
                old(self).position as int,
            ),
    {
        let ghost start = *self;
        while self.position < self.observations.len()
            invariant_except_break
                self.sent <= self.position <= self.observations@.len(),
                self.observations == start.observations,
                self.sent == start.sent,
                self.first_run == start.first_run,
                quiet(start.state@, views(start.observations@), start.position as int) == quiet(
                    self.state@,
                    views(start.observations@),
                    self.position as int,
                ),
            ensures
                self.well_formed(),
                self.observations == start.observations,
                self.sent == start.sent,
                self.first_run == start.first_run,
                (self.state@, self.position as int) == quiet(
                    start.state@,
                    views(start.observations@),
                    start.position as int,
                ),
            decreases self.observations@.len() - self.position,
        {
            let previous: Option<Percent> = self.previous();
            if should_notify(previous, self.observations[self.position].used_percent) {
                break;
            }
            self.advance();
        }
    }

    /// The notification that is to be sent next, if any is left.
    pub fn pending(&self) -> (r: Option<Notice>)
        requires
            self.well_formed(),
        ensures
            r is Some <==> self.at() < self.polled().len(),
            r matches Some(notice) ==> {
                &&& notice.index == self.at()
                &&& last_reading(self.current(), self.polled()[self.at()]) == Some(
                    notice.previous,
                )
                &&& some_used(notice.previous@)
                &&& none_used(self.polled()[self.at()].used_percent@)
            },
    {
        proof {
            if self.at() < self.polled().len() {
                a_window_is_due_when_its_usage_drops_to_none(
                    self.current(),
                    self.polled()[self.at()],
                );
            }
        }
        if self.position < self.observations.len() {
            match self.previous() {
                Some(previous) => Some(Notice { index: self.position, previous }),
                None => None,
            }
        } else {
            None
        }
    }

    /// Takes the outcome of the notification that was to be sent next.
    pub fn report(&mut self, delivery: Delivery)
        requires
            old(self).well_formed(),
            old(self).at() < old(self).polled().len(),
        ensures
            final(self).well_formed(),
            final(self).polled() == old(self).polled(),
            final(self).is_first_run() == old(self).is_first_run(),
            final(self).sent_so_far() == old(self).sent_so_far() + (if delivery is Delivered {
                1int
            } else {
                0int
            }),
            (final(self).current(), final(self).at()) == quiet(
                settled(old(self).current(), old(self).polled()[old(self).at()], delivery),
                old(self).polled(),
                old(self).at() + 1,
            ),
    {
        match delivery {
            Delivery::Delivered { at } => {
                let previous: Option<Percent> = self.previous();
                match previous {
                    Some(from_used_percent) => {
                        let record: NotifyRecord = NotifyRecord {
                            key: self.observations[self.position].key(),
                            label: self.observations[self.position].label.clone(),
                            at,
                            from_used_percent,
                        };
                        self.state.record_notification(record);
                    },
                    None => {},
                }
                self.advance();
                self.sent = self.sent + 1;
            },
            Delivery::Failed => {
                assert(self.position < self.observations.len());
                self.position = self.position + 1;
            },
        }
        self.skip_quiet();
    }

    /// Ends the comparison, at the given time.
    pub fn finish(self, at: i64) -> (r: Outcome)
        requires
            self.well_formed(),
            self.at() == self.polled().len(),
        ensures
            r.state@ == (StateView { last_poll_at: Some(at), ..self.current() }),
            r.sent == self.sent_so_far(),
            r.first_run == self.is_first_run(),
    {
        let mut state: State = self.state;
        state.last_poll_at = Some(at);
        Outcome { state, sent: self.sent, first_run: self.first_run }
    }
}

/// Compares a fresh poll with the saved state, where `deliveries` says for each observation how a
/// notification for it comes out if one is called for.
pub fn reconcile(
    observations: Vec<Observation>,
    state: State,
    deliveries: &Vec<Delivery>,
    at: i64,
) -> (r: Outcome)
    requires
        deliveries@.len() == observations@.len(),
    ensures
        r.state@ == after_poll(state@, views(observations@), deliveries@, at),
        r.sent == sent_count(state@, views(observations@), deliveries@),
        r.first_run <==> state@.last_used_percent == Map::<Seq<char>, Percent>::empty(),
{
    let ghost all = views(observations@);
    let ghost begin = state@;
    let ghost outcomes = deliveries@;
    let mut run: Reconciliation = Reconciliation::start(observations, state);
    proof {
        assert(all.skip(0) =~= all);
        assert(outcomes.skip(0) =~= outcomes);
        quiet_keeps_the_outlook(begin, all, outcomes, 0);
    }
    while run.position < run.observations.len()
        invariant
            run.well_formed(),
            views(run.observations@) == all,
            deliveries@ == outcomes,
            outcomes.len() == all.len(),
            run.first_run <==> begin.last_used_percent == Map::<Seq<char>, Percent>::empty(),
            outlook(run.state@, all, outcomes, run.position as int) == reconciled(
                begin,
                all,
                outcomes,
            ),
            run.sent + sent_from(run.state@, all, outcomes, run.position as int) == sent_count(
                begin,
                all,
                outcomes,
            ),
        decreases run.observations@.len() - run.position,
    {
        proof {
            a_report_keeps_the_outlook(run.state@, all, outcomes, run.position as int);
            quiet_keeps_the_outlook(
                settled(run.state@, all[run.position as int], outcomes[run.position as int]),
                all,
                outcomes,
                run.position + 1,
            );
        }
        let delivery: Delivery = deliveries[run.position];
        run.report(delivery);
    }
    run.finish(at)
}

/// The state that dealing with the observations from a position on leads to.
pub open spec fn outlook(
    state: StateView,
    observations: Seq<ObservationView>,
    deliveries: Seq<Delivery>,
    position: int,
) -> StateView {
    reconciled(state, observations.skip(position), deliveries.skip(position))
}

/// How many notifications are sent while the observations from a position on are dealt with.
pub open spec fn sent_from(
    state: StateView,
    observations: Seq<ObservationView>,
    deliveries: Seq<Delivery>,
    position: int,
) -> nat {
    sent_count(state, observations.skip(position), deliveries.skip(position))
}

/// Passing over the observations that call for no notification changes neither the state that all
/// of them lead to nor the number of notifications, and at the end that state is reached.
pub proof fn quiet_keeps_the_outlook(
    state: StateView,
    observations: Seq<ObservationView>,
    deliveries: Seq<Delivery>,
    position: int,
)
    requires
        0 <= position <= observations.len(),
        deliveries.len() == observations.len(),
    ensures
        ({
            let (then, at) = quiet(state, observations, position);
            &&& position <= at <= observations.len()
            &&& outlook(then, observations, deliveries, at) == outlook(
                state,
                observations,
                deliveries,
                position,
            )
            &&& sent_from(then, observations, deliveries, at) == sent_from(
                state,
                observations,
                deliveries,
                position,
            )
            &&& at == observations.len() ==> {
                &&& then == outlook(state, observations, deliveries, position)
                &&& sent_from(state, observations, deliveries, position) == 0
            }
        }),
    decreases observations.len() - position,
{
    if position < observations.len() && !due(state, observations[position]) {
        let o = observations[position];
        lemma_one_on(state, observations, deliveries, position);
        quiet_keeps_the_outlook(
            state.with_reading(o.key(), o.used_percent),
            observations,
            deliveries,
            position + 1,
        );
    }
}

/// Dealing with the observations from a position on starts with the one there.
proof fn lemma_one_on(
    state: StateView,
    observations: Seq<ObservationView>,
    deliveries: Seq<Delivery>,
    position: int,
)
    requires
        0 <= position < observations.len(),
        deliveries.len() == observations.len(),
    ensures
        ({
            let next = settled(state, observations[position], deliveries[position]);
            &&& outlook(state, observations, deliveries, position) == outlook(
                next,
                observations,
                deliveries,
                position + 1,
            )
            &&& sent_from(state, observations, deliveries, position) == sent_from(
                next,
                observations,
                deliveries,
                position + 1,
            ) + (if due(state, observations[position]) && deliveries[position] is Delivered {
                1nat
            } else {
                0nat
            })
        }),
{
    assert(observations.skip(position)[0] == observations[position]);
    assert(deliveries.skip(position)[0] == deliveries[position]);
    assert(observations.skip(position).drop_first() =~= observations.skip(position + 1));
    assert(deliveries.skip(position).drop_first() =~= deliveries.skip(position + 1));
}

/// Reporting a delivery and passing on to the next notification leads to the same state as dealing
/// with all observations in turn, and the deliveries reported are the notifications counted.
pub proof fn a_report_keeps_the_outlook(
    state: StateView,
    observations: Seq<ObservationView>,
    deliveries: Seq<Delivery>,
    position: int,
)
    requires
        0 <= position < observations.len(),
        deliveries.len() == observations.len(),
        due(state, observations[position]),
    ensures
        ({
            let (then, at) = quiet(
                settled(state, observations[position], deliveries[position]),
                observations,
                position + 1,
            );
            &&& outlook(then, observations, deliveries, at) == outlook(
                state,
                observations,
                deliveries,
                position,
            )
            &&& sent_from(state, observations, deliveries, position) == sent_from(
                then,
                observations,
                deliveries,
                at,
            ) + (if deliveries[position] is Delivered {
                1nat
            } else {
                0nat
            })
            &&& at == observations.len() ==> then == outlook(
                state,
                observations,
                deliveries,
                position,
            )
        }),
{
    lemma_one_on(state, observations, deliveries, position);
    quiet_keeps_the_outlook(
        settled(state, observations[position], deliveries[position]),
        observations,
        deliveries,
        position + 1,
    );
}

/// A refill is notified once: after a notification was sent for a window, or the window was seen
/// full without one, no further reading of it is notified until some of it has been used.
pub proof fn a_refill_is_notified_once(
    state: StateView,
    o: ObservationView,
    delivery: Delivery,
    next: ObservationView,
)
    requires
        o.is_full(),
        due(state, o) ==> delivery is Delivered,
        next.key() == o.key(),
    ensures
        !due(settled(state, o, delivery), next),
{
}

/// A notification that failed is tried again: the state stays as it was, so that the same reading
/// calls for the notification again.
pub proof fn a_failed_notification_is_retried(
    state: StateView,
    o: ObservationView,
    next: ObservationView,
)
    requires
        due(state, o),
        next.key() == o.key(),
        next.is_full(),
    ensures
        settled(state, o, Delivery::Failed) == state,
        due(settled(state, o, Delivery::Failed), next),
{
}

/// A window is tracked independently of the others: dealing with one leaves the last readings of
/// all other keys as they were.
pub proof fn windows_are_independent(
    state: StateView,
    o: ObservationView,
    delivery: Delivery,
    other: ObservationView,
)
    requires
        other.key() != o.key(),
    ensures
        last_reading(settled(state, o, delivery), other) == last_reading(state, other),
        due(settled(state, o, delivery), other) == due(state, other),
{
}

/// The reading of a window becomes its last one, unless a notification for it failed.
pub proof fn readings_are_remembered(state: StateView, o: ObservationView, delivery: Delivery)
    requires
        due(state, o) ==> delivery is Delivered,
    ensures
        last_reading(settled(state, o, delivery), o) == Some(o.used_percent),
{
}

/// A window that stays full, over however many readings, is notified at most once.
pub proof fn staying_full_notifies_at_most_once(
    state: StateView,
    observations: Seq<ObservationView>,
    deliveries: Seq<Delivery>,
    key: Seq<char>,
)
    requires
        deliveries.len() == observations.len(),
        forall|i: int|
            0 <= i < observations.len() ==> (#[trigger] observations[i]).key() == key
                && observations[i].is_full(),
    ensures
        sent_count(state, observations, deliveries) <= 1,
        state.last_used_percent.contains_key(key) && !state.last_used_percent[key]@.exceeds(
            epsilon(),
        ) ==> sent_count(state, observations, deliveries) == 0,
    decreases observations.len(),
{
    if observations.len() > 0 {
        let rest = observations.drop_first();
        assert forall|i: int| 0 <= i < rest.len() implies (#[trigger] rest[i]).key() == key
            && rest[i].is_full() by {
            assert(rest[i] == observations[i + 1]);
        }
        let o = observations[0];
        staying_full_notifies_at_most_once(
            settled(state, o, deliveries[0]),
            rest,
            deliveries.drop_first(),
            key,
        );
    }
}

/// First sightings are a baseline: a poll of windows that were never seen before, each listed
/// once, sends no notification and remembers every reading, however deliveries would come out.
pub proof fn first_sightings_are_a_baseline(
    state: StateView,
    observations: Seq<ObservationView>,
    deliveries: Seq<Delivery>,
)
    requires
        deliveries.len() == observations.len(),
        forall|i: int|
            0 <= i < observations.len() ==> !state.last_used_percent.contains_key(
                #[trigger] observations[i].key(),
            ),
        distinct_keys(observations),
    ensures
        sent_count(state, observations, deliveries) == 0,
        reconciled(state, observations, deliveries).notified == state.notified,
        forall|i: int|
            0 <= i < observations.len() ==> last_reading(
                reconciled(state, observations, deliveries),
                #[trigger] observations[i],
            ) == Some(observations[i].used_percent),
        forall|key: Seq<char>|
            #[trigger] state.last_used_percent.contains_key(key) ==> reconciled(
                state,
                observations,
                deliveries,
            ).last_used_percent.contains_key(key) && reconciled(
                state,
                observations,
                deliveries,
            ).last_used_percent[key] == state.last_used_percent[key],
    decreases observations.len(),
{
    if observations.len() > 0 {
        let o = observations[0];
        let next = settled(state, o, deliveries[0]);
        let rest = observations.drop_first();
        assert forall|i: int| 0 <= i < rest.len() implies !next.last_used_percent.contains_key(
            #[trigger] rest[i].key(),
        ) by {
            assert(rest[i] == observations[i + 1]);
            assert(observations[0].key() != observations[i + 1].key());
        }
        assert forall|i: int, j: int| 0 <= i < j < rest.len() implies (#[trigger] rest[i]).key()
            != (#[trigger] rest[j]).key() by {
            assert(observations[i + 1].key() != observations[j + 1].key());
        }
        first_sightings_are_a_baseline(next, rest, deliveries.drop_first());
        let end = reconciled(state, observations, deliveries);
        assert(next.last_used_percent.contains_key(o.key()));
        assert(next.last_used_percent[o.key()] == o.used_percent);
        assert forall|i: int| 0 <= i < observations.len() implies last_reading(
            end,
            #[trigger] observations[i],
        ) == Some(observations[i].used_percent) by {
            if i > 0 {
                assert(rest[i - 1] == observations[i]);
            }
        }
        assert forall|key: Seq<char>| #[trigger]
            state.last_used_percent.contains_key(key) implies end.last_used_percent.contains_key(
            key,
        ) && end.last_used_percent[key] == state.last_used_percent[key] by {
            assert(next.last_used_percent.contains_key(key));
            assert(next.last_used_percent[key] == state.last_used_percent[key]);
        }
    }
}

/// Whether no two of the observations are of the same window.
pub open spec fn distinct_keys(observations: Seq<ObservationView>) -> bool {
    forall|i: int, j: int|
        0 <= i < j < observations.len() ==> (#[trigger] observations[i]).key() != (
        #[trigger] observations[j]).key()
}

/// Whether a window is among the observations.
pub open spec fn lists_key(observations: Seq<ObservationView>, key: Seq<char>) -> bool {
    exists|i: int| 0 <= i < observations.len() && (#[trigger] observations[i]).key() == key
}

/// Whether the window of an observation is not listed again after it.
pub open spec fn listed_last(observations: Seq<ObservationView>, index: int) -> bool {
    &&& 0 <= index < observations.len()
    &&& forall|j: int|
        index < j < observations.len() ==> (#[trigger] observations[j]).key()
            != observations[index].key()
}

/// The state in which the observation at the index is dealt with.
pub open spec fn reached(
    state: StateView,
    observations: Seq<ObservationView>,
    deliveries: Seq<Delivery>,
    index: int,
) -> StateView {
    reconciled(state, observations.take(index), deliveries.take(index))
}

/// A window that a poll does not list keeps its last reading.
pub proof fn an_unlisted_window_keeps_its_reading(
    state: StateView,
    observations: Seq<ObservationView>,
    deliveries: Seq<Delivery>,
    at: i64,
    other: ObservationView,
)
    requires
        deliveries.len() == observations.len(),
        !lists_key(observations, other.key()),
    ensures
        last_reading(after_poll(state, observations, deliveries, at), other) == last_reading(
            state,
            other,
        ),
    decreases observations.len(),
{
    if observations.len() > 0 {
        let o = observations[0];
        let rest = observations.drop_first();
        assert(o.key() != other.key());
        windows_are_independent(state, o, deliveries[0], other);
        assert forall|i: int| 0 <= i < rest.len() implies (#[trigger] rest[i]).key()
            != other.key() by {
            assert(observations[i + 1] == rest[i]);
        }
        an_unlisted_window_keeps_its_reading(
            settled(state, o, deliveries[0]),
            rest,
            deliveries.drop_first(),
            at,
            other,
        );
    }
}

/// The last observation of a window decides: the last reading of the window after the poll is what
/// dealing with that observation makes it.
pub proof fn the_last_listing_decides(
    state: StateView,
    observations: Seq<ObservationView>,
    deliveries: Seq<Delivery>,
    at: i64,
    index: int,
)
    requires
        deliveries.len() == observations.len(),
        listed_last(observations, index),
    ensures
        last_reading(after_poll(state, observations, deliveries, at), observations[index])
            == last_reading(
            settled(
                reached(state, observations, deliveries, index),
                observations[index],
                deliveries[index],
            ),
            observations[index],
        ),
    decreases index,
{
    let next = settled(state, observations[0], deliveries[0]);
    let rest = observations.drop_first();
    let outcomes = deliveries.drop_first();
    assert forall|j: int| index - 1 < j < rest.len() implies (#[trigger] rest[j]).key()
        != observations[index].key() by {
        assert(observations[j + 1] == rest[j]);
    }
    if index == 0 {
        an_unlisted_window_keeps_its_reading(next, rest, outcomes, at, observations[0]);
    } else {
        let first = observations.take(index);
        assert(first.drop_first() =~= rest.take(index - 1));
        assert(deliveries.take(index).drop_first() =~= outcomes.take(index - 1));
        assert(first[0] == observations[0] && deliveries.take(index)[0] == deliveries[0]);
        assert(rest[index - 1] == observations[index]);
        the_last_listing_decides(next, rest, outcomes, at, index - 1);
    }
}

/// A poll deals with each window alone, where each window is listed once: the last reading of a
/// window becomes what dealing with its observation in the saved state makes it.
pub proof fn a_poll_deals_with_each_window_alone(
    state: StateView,
    observations: Seq<ObservationView>,
    deliveries: Seq<Delivery>,
    at: i64,
    index: int,
)
    requires
        deliveries.len() == observations.len(),
        distinct_keys(observations),
        0 <= index < observations.len(),
    ensures
        due(reached(state, observations, deliveries, index), observations[index]) == due(
            state,
            observations[index],
        ),
        last_reading(after_poll(state, observations, deliveries, at), observations[index])
            == last_reading(
            settled(state, observations[index], deliveries[index]),
            observations[index],
        ),
{
    let before = observations.take(index);
    let o = observations[index];
    assert forall|i: int| 0 <= i < before.len() implies (#[trigger] before[i]).key()
        != o.key() by {
        assert(observations[i].key() != observations[index].key());
    }
    an_unlisted_window_keeps_its_reading(state, before, deliveries.take(index), at, o);
    the_last_listing_decides(state, observations, deliveries, at, index);
}

/// How many of the observations call for a notification that is delivered, each held against the
/// given state alone.
pub open spec fn delivered_count(
    state: StateView,
    observations: Seq<ObservationView>,
    deliveries: Seq<Delivery>,
) -> nat
    decreases observations.len(),
{
    if observations.len() == 0 {
        0
    } else {
        let one: nat = if due(state, observations[0]) && deliveries[0] is Delivered {
            1
        } else {
            0
        };
        one + delivered_count(state, observations.drop_first(), deliveries.drop_first())
    }
}

/// Two states that agree on the last readings of the listed windows lead to the same notifications.
proof fn lemma_sent_count(
    state: StateView,
    begin: StateView,
    observations: Seq<ObservationView>,
    deliveries: Seq<Delivery>,
)
    requires
        deliveries.len() == observations.len(),
        distinct_keys(observations),
        forall|i: int|
            0 <= i < observations.len() ==> last_reading(state, #[trigger] observations[i])
                == last_reading(begin, observations[i]),
    ensures
        sent_count(state, observations, deliveries) == delivered_count(
            begin,
            observations,
            deliveries,
        ),
    decreases observations.len(),
{
    if observations.len() > 0 {
        let o = observations[0];
        let next = settled(state, o, deliveries[0]);
        let rest = observations.drop_first();
        assert forall|i: int, j: int| 0 <= i < j < rest.len() implies (#[trigger] rest[i]).key()
            != (#[trigger] rest[j]).key() by {
            assert(observations[i + 1].key() != observations[j + 1].key());
        }
        assert forall|i: int| 0 <= i < rest.len() implies last_reading(next, #[trigger] rest[i])
            == last_reading(begin, rest[i]) by {
            assert(rest[i] == observations[i + 1]);
            assert(observations[0].key() != observations[i + 1].key());
            windows_are_independent(state, o, deliveries[0], rest[i]);
        }
        lemma_sent_count(next, begin, rest, deliveries.drop_first());
    }
}

/// A poll sends one notification for each window that has been refilled since the saved state, if it
/// can be delivered, and none for any other, where each window is listed once.
pub proof fn a_poll_notifies_each_refill_once(
    state: StateView,
    observations: Seq<ObservationView>,
    deliveries: Seq<Delivery>,
)
    requires
        deliveries.len() == observations.len(),
        distinct_keys(observations),
    ensures
        sent_count(state, observations, deliveries) == delivered_count(
            state,
            observations,
            deliveries,
        ),
{
    lemma_sent_count(state, state, observations, deliveries);
}

/// Where nothing is due at the given state, nothing is counted.
proof fn lemma_none_due(
    state: StateView,
    observations: Seq<ObservationView>,
    deliveries: Seq<Delivery>,
)
    requires
        deliveries.len() == observations.len(),
        forall|i: int| 0 <= i < observations.len() ==> !due(state, #[trigger] observations[i]),
    ensures
        delivered_count(state, observations, deliveries) == 0,
    decreases observations.len(),
{
    if observations.len() > 0 {
        let rest = observations.drop_first();
        assert forall|i: int| 0 <= i < rest.len() implies !due(state, #[trigger] rest[i]) by {
            assert(rest[i] == observations[i + 1]);
        }
        lemma_none_due(state, rest, deliveries.drop_first());
    }
}

/// Whether a poll last sees a window full and owes it no notification afterwards: where one is
/// called for, it is delivered.
pub open spec fn seen_full(
    state: StateView,
    observations: Seq<ObservationView>,
    deliveries: Seq<Delivery>,
    key: Seq<char>,
) -> bool {
    exists|i: int|
        #[trigger] listed_last(observations, i) && observations[i].key() == key
            && observations[i].is_full() && (due(
            reached(state, observations, deliveries, i),
            observations[i],
        ) ==> deliveries[i] is Delivered)
}

/// No repeat pings: a window that a poll last saw full, and whose notification, if one was called
/// for, was delivered, is not due in the state that the poll leaves, whatever it reads next; and a
/// next poll that lists such windows only, each once, sends nothing.
pub proof fn the_next_poll_repeats_no_notification(
    state: StateView,
    observations: Seq<ObservationView>,
    deliveries: Seq<Delivery>,
    at: i64,
    next: Seq<ObservationView>,
    next_deliveries: Seq<Delivery>,
)
    requires
        deliveries.len() == observations.len(),
        next_deliveries.len() == next.len(),
        distinct_keys(next),
    ensures
        forall|j: int|
            0 <= j < next.len() && seen_full(
                state,
                observations,
                deliveries,
                (#[trigger] next[j]).key(),
            ) ==> !due(after_poll(state, observations, deliveries, at), next[j]),
        (forall|j: int|
            0 <= j < next.len() ==> seen_full(
                state,
                observations,
                deliveries,
                (#[trigger] next[j]).key(),
            )) ==> sent_count(
            after_poll(state, observations, deliveries, at),
            next,
            next_deliveries,
        ) == 0,
{
    let end = after_poll(state, observations, deliveries, at);
    assert forall|j: int|
        0 <= j < next.len() && seen_full(
            state,
            observations,
            deliveries,
            (#[trigger] next[j]).key(),
        ) implies !due(end, next[j]) by {
        let i = choose|i: int|
            #[trigger] listed_last(observations, i) && observations[i].key() == next[j].key()
                && observations[i].is_full() && (due(
                reached(state, observations, deliveries, i),
                observations[i],
            ) ==> deliveries[i] is Delivered);
        let before = reached(state, observations, deliveries, i);
        the_last_listing_decides(state, observations, deliveries, at, i);
        a_refill_is_notified_once(before, observations[i], deliveries[i], next[j]);
        assert(last_reading(end, next[j]) == last_reading(end, observations[i]));
    }
    if forall|j: int|
        0 <= j < next.len() ==> seen_full(
            state,
            observations,
            deliveries,
            (#[trigger] next[j]).key(),
        ) {
        lemma_none_due(end, next, next_deliveries);
        a_poll_notifies_each_refill_once(end, next, next_deliveries);
    }
}

/// A notification that failed is retried on the next poll: where a window was due, its notification
/// failed, and the poll does not list it again, it is due in the state that the poll leaves if it is
/// still full, with the same usage before.
pub proof fn the_next_poll_retries_a_failed_notification(
    state: StateView,
    observations: Seq<ObservationView>,
    deliveries: Seq<Delivery>,
    at: i64,
    failed: int,
    next: ObservationView,
)
    requires
        deliveries.len() == observations.len(),
        listed_last(observations, failed),
        due(reached(state, observations, deliveries, failed), observations[failed]),
        deliveries[failed] == Delivery::Failed,
        next.key() == observations[failed].key(),
        next.is_full(),
    ensures
        due(after_poll(state, observations, deliveries, at), next),
        last_reading(after_poll(state, observations, deliveries, at), next) == last_reading(
            reached(state, observations, deliveries, failed),
            observations[failed],
        ),
{
    the_last_listing_decides(state, observations, deliveries, at, failed);
}

/// A window is due for a notification exactly if a reading of it is kept under its limit and slot, at
/// that reading some of it was used, and none of it is now; how much was used makes no difference.
pub proof fn a_window_is_due_when_its_usage_drops_to_none(state: StateView, o: ObservationView)
    ensures
        ({
            let key = o.limit_id + "::"@ + o.slot;
            let (readings, now) = (state.last_used_percent, o.used_percent);
            &&& due(state, o) <==> readings.contains_key(key) && some_used(readings[key]@)
                && none_used(now@)
            &&& due(state, o) <==> readings.contains_key(key) && 0x3cb0_0000_0000_0000
                < readings[key].bits <= 0x7ff0_0000_0000_0000 && (now.bits <= 0x3cb0_0000_0000_0000
                || 0x8000_0000_0000_0000 <= now.bits <= 0xfff0_0000_0000_0000)
        }),
{
    usage_shows_in_the_bits(state.last_used_percent[o.key()]);
    usage_shows_in_the_bits(o.used_percent);
}

/// What becomes of an observation. Where some of the window was used at its last reading and none is
/// now, a notification that is delivered is put at the end of the history, with the usage before, and
/// the new reading is kept; one that fails leaves everything as it was. Any other observation only
/// has its reading kept. The history never goes beyond 200, and it is the oldest that goes.
pub proof fn what_becomes_of_an_observation(
    state: StateView,
    o: ObservationView,
    delivery: Delivery,
)
    ensures
        ({
            let key = o.limit_id + "::"@ + o.slot;
            let readings = state.last_used_percent;
            let dropped = readings.contains_key(key) && some_used(readings[key]@) && none_used(
                o.used_percent@,
            );
            let after = settled(state, o, delivery);
            let one = sent_count(state, seq![o], seq![delivery]);
            &&& after.last_poll_at == state.last_poll_at
            &&& !dropped ==> {
                &&& after.last_used_percent == readings.insert(key, o.used_percent)
                &&& after.notified == state.notified
                &&& one == 0
            }
            &&& dropped && delivery == Delivery::Failed ==> after == state && one == 0
            &&& dropped ==> (delivery matches Delivery::Delivered { at } ==> {
                let (old_history, history) = (state.notified, after.notified);
                let all = old_history.push(history.last());
                &&& after.last_used_percent == readings.insert(key, o.used_percent)
                &&& one == 1
                &&& history.last().key == key
                &&& history.last().label == o.label
                &&& history.last().at == at
                &&& history.last().from_used_percent == readings[key]
                &&& history.len() == (if old_history.len() < 200 {
                    old_history.len() + 1
                } else {
                    200
                })
                &&& history == all.skip(all.len() - history.len())
            })
            &&& reconciled(state, seq![o], seq![delivery]) == after
        }),
{
    a_window_is_due_when_its_usage_drops_to_none(state, o);
    let after = settled(state, o, delivery);
    reveal_with_fuel(sent_count, 2);
    reveal_with_fuel(reconciled, 2);
    assert(seq![o].drop_first() =~= Seq::empty());
    if due(state, o) && delivery is Delivered {
        let all = state.notified.push(record_of(state, o, delivery->at));
        assert(all.skip(0) =~= all);
        assert(after.notified.last() == all.last());
    }
}

/// A poll can be taken in two parts: the second goes on from the state that the first leaves, and
/// the notifications of both add up. A poll of nothing changes nothing and sends nothing.
pub proof fn a_poll_can_be_taken_in_parts(
    state: StateView,
    first: Seq<ObservationView>,
    second: Seq<ObservationView>,
    first_deliveries: Seq<Delivery>,
    second_deliveries: Seq<Delivery>,
)
    requires
        first_deliveries.len() == first.len(),
        second_deliveries.len() == second.len(),
    ensures
        ({
            let between = reconciled(state, first, first_deliveries);
            let (all, outcomes) = (first + second, first_deliveries + second_deliveries);
            &&& reconciled(state, all, outcomes) == reconciled(between, second, second_deliveries)
            &&& sent_count(state, all, outcomes) == sent_count(state, first, first_deliveries)
                + sent_count(between, second, second_deliveries)
            &&& first.len() == 0 ==> between == state && sent_count(state, first, first_deliveries)
                == 0
        }),
    decreases first.len(),
{
    let (all, outcomes) = (first + second, first_deliveries + second_deliveries);
    if first.len() == 0 {
        assert(all =~= second);
        assert(outcomes =~= second_deliveries);
    } else {
        assert(all[0] == first[0] && outcomes[0] == first_deliveries[0]);
        assert(all.drop_first() =~= first.drop_first() + second);
        assert(outcomes.drop_first() =~= first_deliveries.drop_first() + second_deliveries);
        a_poll_can_be_taken_in_parts(
            settled(state, first[0], first_deliveries[0]),
            first.drop_first(),
            second,
            first_deliveries.drop_first(),
            second_deliveries,
        );
    }
}

/// A poll leaves the time at which it was taken, and otherwise the state in which its observations
/// have been dealt with.
pub proof fn a_poll_is_dated(
    state: StateView,
    observations: Seq<ObservationView>,
    deliveries: Seq<Delivery>,
    at: i64,
)
    ensures
        ({
            let after = after_poll(state, observations, deliveries, at);
            let dealt_with = reconciled(state, observations, deliveries);
            &&& after.last_poll_at == Some(at)
            &&& after.last_used_percent == dealt_with.last_used_percent
            &&& after.notified == dealt_with.notified
        }),
{
}

/// The usage last read under a key, once the observations at `from` up to `to` have been read: that
/// of the last of them with this key, else the one that was kept before.
pub open spec fn read_under(
    kept: Map<Seq<char>, Percent>,
    observations: Seq<ObservationView>,
    from: int,
    to: int,
    key: Seq<char>,
) -> Option<Percent>
    decreases to - from,
{
    if from < to {
        let o = observations[to - 1];
        if o.limit_id + "::"@ + o.slot == key {
            Some(o.used_percent)
        } else {
            read_under(kept, observations, from, to - 1, key)
        }
    } else if kept.contains_key(key) {
        Some(kept[key])
    } else {
        None
    }
}

/// Whether the observation at `index` shows that a window's usage has dropped to none since it was
/// last read, be it before the observations at `from` onwards or among them.
pub open spec fn drops_to_none(
    kept: Map<Seq<char>, Percent>,
    observations: Seq<ObservationView>,
    from: int,
    index: int,
) -> bool {
    let o = observations[index];
    read_under(kept, observations, from, index, o.limit_id + "::"@ + o.slot) matches Some(before)
        && some_used(before@) && none_used(o.used_percent@)
}

/// Two stretches of observations make one.
proof fn lemma_read_on(
    kept: Map<Seq<char>, Percent>,
    next: Map<Seq<char>, Percent>,
    observations: Seq<ObservationView>,
    from: int,
    to: int,
    key: Seq<char>,
)
    requires
        from < to,
        next == kept.insert(observations[from].key(), observations[from].used_percent),
    ensures
        read_under(next, observations, from + 1, to, key) == read_under(
            kept,
            observations,
            from,
            to,
            key,
        ),
    decreases to - from,
{
    if from + 1 < to {
        lemma_read_on(kept, next, observations, from, to - 1, key);
    } else {
        reveal_with_fuel(read_under, 2);
    }
}

/// The next notice is of the first observation at which a window's usage drops to none: none of those
/// before it does, and where there is no such observation, all are passed over. The readings of those
/// that are passed over are kept, and nothing else changes.
pub proof fn the_next_notice_is_of_the_first_drop(
    state: StateView,
    observations: Seq<ObservationView>,
    position: int,
)
    requires
        0 <= position <= observations.len(),
    ensures
        ({
            let (then, at) = quiet(state, observations, position);
            let kept = state.last_used_percent;
            &&& position <= at <= observations.len()
            &&& at < observations.len() ==> drops_to_none(kept, observations, position, at)
            &&& forall|i: int|
                position <= i < at ==> !#[trigger] drops_to_none(kept, observations, position, i)
            &&& then.notified == state.notified
            &&& then.last_poll_at == state.last_poll_at
            &&& forall|key: Seq<char>| #[trigger]
                read_under(kept, observations, position, at, key) == (
                if then.last_used_percent.contains_key(key) {
                    Some(then.last_used_percent[key])
                } else {
                    None
                })
        }),
    decreases observations.len() - position,
{
    let kept = state.last_used_percent;
    if position < observations.len() {
        let o = observations[position];
        a_window_is_due_when_its_usage_drops_to_none(state, o);
        assert(drops_to_none(kept, observations, position, position) == due(state, o));
        if !due(state, o) {
            let next = state.with_reading(o.key(), o.used_percent);
            let (then, at) = quiet(state, observations, position);
            the_next_notice_is_of_the_first_drop(next, observations, position + 1);
            assert forall|i: int| position < i <= at && i < observations.len() implies #[trigger]
            drops_to_none(kept, observations, position, i) == drops_to_none(
                next.last_used_percent,
                observations,
                position + 1,
                i,
            ) by {
                lemma_read_on(
                    kept,
                    next.last_used_percent,
                    observations,
                    position,
                    i,
                    observations[i].limit_id + "::"@ + observations[i].slot,
                );
            }
            assert forall|key: Seq<char>| #[trigger]
                read_under(kept, observations, position, at, key) == (
                if then.last_used_percent.contains_key(key) {
                    Some(then.last_used_percent[key])
                } else {
                    None
                }) by {
                lemma_read_on(kept, next.last_used_percent, observations, position, at, key);
                assert(read_under(next.last_used_percent, observations, position + 1, at, key) == (
                if then.last_used_percent.contains_key(key) {
                    Some(then.last_used_percent[key])
                } else {
                    None
                }));
            }
        }
    }
}

/// A change of readings is a refill exactly if there was a reading before, some was used at it, and
/// none is now.
pub proof fn a_refill_is_a_drop_to_none(previous: Option<Percent>, used_now: Percent)
    ensures
        refilled(previous, used_now) <==> previous is Some && some_used(previous->0@) && none_used(
            used_now@,
        ),
{
    usage_shows_in_the_bits(used_now);
    if let Some(before) = previous {
        usage_shows_in_the_bits(before);
    }
}

} // verus!
