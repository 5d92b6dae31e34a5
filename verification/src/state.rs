//! Last-seen usage per limit window, and how it is kept on disk.
//!
//! The state is written atomically (temp file and rename), so that a crash or a kill mid-write
//! can never leave a truncated state file behind.
use crate::percent::Percent;
use crate::text_map::TextMap;
use vstd::prelude::*;
use vstd::string::StringExecFns;

verus! {

/// How many notifications the history holds at most.
pub const HISTORY_CAP: usize = 200;

/// What was last seen of each limit window, and what was notified.
#[derive(Debug)]
pub struct State {
    /// `"<limitId>::<slot>"` to the last observed usage.
    pub last_used_percent: TextMap<Percent>,
    /// Unix seconds of the last successful poll.
    pub last_poll_at: Option<i64>,
    /// History of full-refill notifications already sent.
    pub notified: Vec<NotifyRecord>,
}

/// One notification that was sent.
#[derive(Debug)]
pub struct NotifyRecord {
    pub key: String,
    pub label: String,
    pub at: i64,
    pub from_used_percent: Percent,
}

/// What a record says.
pub struct NotifyRecordView {
    pub key: Seq<char>,
    pub label: Seq<char>,
    pub at: i64,
    pub from_used_percent: Percent,
}

impl View for NotifyRecord {
    type V = NotifyRecordView;

    open spec fn view(&self) -> NotifyRecordView {
        NotifyRecordView {
            key: self.key@,
            label: self.label@,
            at: self.at,
            from_used_percent: self.from_used_percent,
        }
    }
}

/// What a state says.
#[verifier::ext_equal]
pub struct StateView {
    pub last_used_percent: Map<Seq<char>, Percent>,
    pub last_poll_at: Option<i64>,
    pub notified: Seq<NotifyRecordView>,
}

/// What each of the records says.
pub open spec fn records(notified: Seq<NotifyRecord>) -> Seq<NotifyRecordView> {
    Seq::new(notified.len(), |i: int| notified[i]@)
}

impl View for State {
    type V = StateView;

    open spec fn view(&self) -> StateView {
        StateView {
            last_used_percent: self.last_used_percent@,
            last_poll_at: self.last_poll_at,
            notified: records(self.notified@),
        }
    }
}

/// The newest records of a history, as many as it may hold.
pub open spec fn newest(history: Seq<NotifyRecordView>) -> Seq<NotifyRecordView> {
    if history.len() > HISTORY_CAP {
        history.skip(history.len() - HISTORY_CAP)
    } else {
        history
    }
}

impl StateView {
    /// The state in which nothing has been seen.
    pub open spec fn fresh() -> StateView {
        StateView {
            last_used_percent: Map::empty(),
            last_poll_at: None,
            notified: Seq::empty(),
        }
    }

    /// This state with one more notification in its history.
    pub open spec fn with_notification(self, record: NotifyRecordView) -> StateView {
        StateView { notified: newest(self.notified.push(record)), ..self }
    }

    /// This state with a new reading for a key.
    pub open spec fn with_reading(self, key: Seq<char>, used_percent: Percent) -> StateView {
        StateView { last_used_percent: self.last_used_percent.insert(key, used_percent), ..self }
    }
}

/// What was found where the state is kept.
#[derive(Debug)]
pub enum Stored {
    /// No file: the first run.
    Missing,
    /// A file that holds no state, be it text or not.
    Corrupt,
    /// The state that the file holds.
    Intact(State),
}

impl Default for State {
    fn default() -> (r: State)
        ensures
            r@ == StateView::fresh(),
    {
        let r: State = State {
            last_used_percent: TextMap::new(),
            last_poll_at: None,
            notified: Vec::new(),
        };
        assert(r@ =~= StateView::fresh());
        r
    }
}

impl State {
    /// The state to go on with, and whether the file is to be set aside. Corrupt state must not
    /// wedge the watcher: it starts clean and keeps the bad file around for inspection.
    pub fn load(stored: Stored) -> (r: (State, bool))
        ensures
            match stored {
                Stored::Intact(state) => r.0 == state,
                _ => r.0@ == StateView::fresh(),
            },
            r.1 <==> stored is Corrupt,
    {
        match stored {
            Stored::Missing => (State::default(), false),
            Stored::Corrupt => (State::default(), true),
            Stored::Intact(state) => (state, false),
        }
    }

    /// Adds a notification to the history, dropping the oldest ones beyond its capacity.
    pub fn record_notification(&mut self, record: NotifyRecord)
        ensures
            final(self)@ == old(self)@.with_notification(record@),
    {
        let ghost before = self.notified@;
        self.notified.push(record);
        proof {
            assert(records(self.notified@) =~= records(before).push(record@));
        }
        if self.notified.len() > HISTORY_CAP {
            let excess: usize = self.notified.len() - HISTORY_CAP;
            let ghost full = self.notified@;
            let kept: Vec<NotifyRecord> = self.notified.split_off(excess);
            self.notified = kept;
            proof {
                assert(records(self.notified@) =~= records(full).skip(excess as int));
            }
        }
    }

    /// The steps that write the state to disk, in the order in which they are taken. The first
    /// that fails ends the save.
    pub fn save(has_parent: bool) -> (r: Vec<SaveStep>)
        ensures
            r@ == save_plan(has_parent),
    {
        let mut steps: Vec<SaveStep> = Vec::new();
        if has_parent {
            steps.push(SaveStep::MakeParent);
        }
        steps.push(SaveStep::Serialize);
        steps.push(SaveStep::CreateTemp);
        steps.push(SaveStep::WriteTemp);
        steps.push(SaveStep::SyncTemp);
        steps.push(SaveStep::Commit);
        assert(steps@ =~= save_plan(has_parent));
        steps
    }
}

/// A step of a save.
#[derive(Clone, Copy, PartialEq, Eq, Structural, Debug)]
pub enum SaveStep {
    /// Make the directory that the file is to be in.
    MakeParent,
    /// Turn the state into bytes.
    Serialize,
    /// Create the temp file, empty.
    CreateTemp,
    /// Write the bytes to the temp file.
    WriteTemp,
    /// Flush the temp file to the disk.
    SyncTemp,
    /// Rename the temp file to the state file.
    Commit,
}

/// The steps of a save.
pub open spec fn save_plan(has_parent: bool) -> Seq<SaveStep> {
    let steps = seq![
        SaveStep::Serialize,
        SaveStep::CreateTemp,
        SaveStep::WriteTemp,
        SaveStep::SyncTemp,
        SaveStep::Commit,
    ];
    if has_parent {
        seq![SaveStep::MakeParent] + steps
    } else {
        steps
    }
}

impl SaveStep {
    /// How the failure of the step is told, given the place it works on and the cause.
    pub open spec fn failure_text(self, place: Seq<char>, cause: Seq<char>) -> Seq<char> {
        match self {
            SaveStep::MakeParent => "cannot create "@ + place + ": "@ + cause,
            SaveStep::Serialize => "serialize state: "@ + cause,
            SaveStep::CreateTemp => "cannot create "@ + place + ": "@ + cause,
            SaveStep::WriteTemp => "cannot write "@ + place + ": "@ + cause,
            SaveStep::SyncTemp => "cannot fsync state: "@ + cause,
            SaveStep::Commit => "cannot commit state file: "@ + cause,
        }
    }

    /// The error of a step that failed.
    pub fn failure(&self, place: &str, cause: &str) -> (r: String)
        ensures
            r@ == self.failure_text(place@, cause@),
    {
        let (head, named): (&str, bool) = match self {
            SaveStep::MakeParent => ("cannot create ", true),
            SaveStep::Serialize => ("serialize state: ", false),
            SaveStep::CreateTemp => ("cannot create ", true),
            SaveStep::WriteTemp => ("cannot write ", true),
            SaveStep::SyncTemp => ("cannot fsync state: ", false),
            SaveStep::Commit => ("cannot commit state file: ", false),
        };
        let mut e: String = head.to_string();
        if named {
            e.append(place);
            e.append(": ");
        }
        e.append(cause);
        e
    }
}

/// The two files that a save works on. A file that does not exist has no content.
pub struct Disk {
    pub file: Option<Seq<u8>>,
    pub temp: Option<Seq<u8>>,
}

/// What a completed step does to the files, for a state that serializes to `body`.
pub open spec fn disk_after(disk: Disk, step: SaveStep, body: Seq<u8>) -> Disk {
    match step {
        SaveStep::CreateTemp => Disk { temp: Some(Seq::empty()), ..disk },
        SaveStep::WriteTemp => Disk { temp: Some(body), ..disk },
        SaveStep::Commit => Disk { file: disk.temp, temp: None },
        _ => disk,
    }
}

/// What a step leaves that breaks off midway: the temp file may hold anything while it is being
/// created or written, and a rename either happens or does not.
pub open spec fn disk_torn(disk: Disk, step: SaveStep, torn: Option<Seq<u8>>) -> Disk {
    match step {
        SaveStep::CreateTemp | SaveStep::WriteTemp => Disk { temp: torn, ..disk },
        _ => disk,
    }
}

/// The files after the given steps have been completed.
pub open spec fn disk_through(disk: Disk, steps: Seq<SaveStep>, body: Seq<u8>) -> Disk
    decreases steps.len(),
{
    if steps.len() == 0 {
        disk
    } else {
        disk_after(disk_through(disk, steps.drop_last(), body), steps.last(), body)
    }
}

/// Wherever a save breaks off, between two steps or within one, the state file holds what it held
/// before, until the last step has been taken; then it holds the whole new state. It is only
/// renamed over once the temp file holds all of the state and has been flushed.
pub proof fn a_save_is_atomic(
    disk: Disk,
    has_parent: bool,
    done: nat,
    body: Seq<u8>,
    torn: Option<Seq<u8>>,
)
    requires
        done <= save_plan(has_parent).len(),
    ensures
        ({
            let plan = save_plan(has_parent);
            let now = disk_through(disk, plan.take(done as int), body);
            if done < plan.len() {
                &&& now.file == disk.file
                &&& disk_torn(now, plan[done as int], torn).file == disk.file
                &&& plan[done as int] == SaveStep::Commit ==> now.temp == Some(body)
                    && plan[done - 1] == SaveStep::SyncTemp
            } else {
                now.file == Some(body)
            }
        }),
    decreases done,
{
    let plan = save_plan(has_parent);
    if done > 0 {
        a_save_is_atomic(disk, has_parent, (done - 1) as nat, body, torn);
        assert(plan.take(done as int).drop_last() =~= plan.take(done - 1));
        reveal_with_fuel(disk_through, 7);
        if done > 1 {
            assert(plan.take(done - 1).drop_last() =~= plan.take(done - 2));
        }
        if done > 2 {
            assert(plan.take(done - 2).drop_last() =~= plan.take(done - 3));
        }
    }
}

/// Whatever the history held, once a notification is recorded it is within its capacity and ends
/// with that notification.
pub proof fn history_stays_capped(state: StateView, record: NotifyRecordView)
    ensures
        state.with_notification(record).notified.len() <= HISTORY_CAP,
        state.with_notification(record).notified.last() == record,
{
}

/// The history keeps the newest 200: a record goes to its end, those before it keep their order, and
/// where there are more, it is the oldest that is dropped. Nothing else of the state changes.
pub proof fn the_newest_records_are_kept(state: StateView, record: NotifyRecordView)
    ensures
        ({
            let (old_history, after) = (state.notified, state.with_notification(record));
            let history = after.notified;
            &&& history.len() == (if old_history.len() < 200 {
                old_history.len() + 1
            } else {
                200
            })
            &&& history[history.len() - 1] == record
            &&& forall|back: int|
                1 <= back < history.len() ==> #[trigger] history[history.len() - 1 - back]
                    == old_history[old_history.len() - back]
            &&& after.last_used_percent == state.last_used_percent
            &&& after.last_poll_at == state.last_poll_at
        }),
{
}

/// A reading takes the place of the last one under its key, and nothing else of the state changes.
pub proof fn a_reading_replaces_the_last(state: StateView, key: Seq<char>, used: Percent)
    ensures
        ({
            let after = state.with_reading(key, used);
            &&& after.last_used_percent.contains_pair(key, used)
            &&& forall|other: Seq<char>|
                other != key ==> {
                    &&& #[trigger] after.last_used_percent.contains_key(other)
                        <==> state.last_used_percent.contains_key(other)
                    &&& state.last_used_percent.contains_key(other)
                        ==> after.last_used_percent[other] == state.last_used_percent[other]
                }
            &&& after.notified == state.notified
            &&& after.last_poll_at == state.last_poll_at
        }),
{
}

/// A fresh state has seen nothing, was never polled for, and has no history.
pub proof fn a_fresh_state_knows_nothing(key: Seq<char>)
    ensures
        !StateView::fresh().last_used_percent.contains_key(key),
        StateView::fresh().last_poll_at is None,
        StateView::fresh().notified.len() == 0,
{
}

/// The view of a state shows its fields, and each record in its place.
pub proof fn the_view_shows_the_state(state: State)
    ensures
        state@.last_used_percent == state.last_used_percent@,
        state@.last_poll_at == state.last_poll_at,
        state@.notified.len() == state.notified@.len(),
        forall|i: int|
            0 <= i < state.notified@.len() ==> {
                let (record, shown) = (state.notified@[i], #[trigger] state@.notified[i]);
                &&& shown.key == record.key@
                &&& shown.label == record.label@
                &&& shown.at == record.at
                &&& shown.from_used_percent == record.from_used_percent
            },
{
}

/// A save makes the directory first, where there is one to make, and takes five steps besides: the
/// bytes are made before a file is touched, the temp file is created, written and flushed, and the
/// rename comes last.
pub proof fn a_save_takes_its_steps_in_order(has_parent: bool)
    ensures
        ({
            let plan = save_plan(has_parent);
            let n = plan.len() as int;
            &&& n == (if has_parent {
                6int
            } else {
                5int
            })
            &&& has_parent ==> plan[0] == SaveStep::MakeParent
            &&& plan[n - 5] == SaveStep::Serialize
            &&& plan[n - 4] == SaveStep::CreateTemp
            &&& plan[n - 3] == SaveStep::WriteTemp
            &&& plan[n - 2] == SaveStep::SyncTemp
            &&& plan[n - 1] == SaveStep::Commit
        }),
{
}

/// The error of a step ends with its cause; one that is about a place names it right before, and what
/// comes first tells which kind of step it was.
pub proof fn a_failure_tells_its_cause(step: SaveStep, place: Seq<char>, cause: Seq<char>)
    ensures
        ({
            let told = step.failure_text(place, cause);
            let named = place + ": "@ + cause;
            let creates = step is MakeParent || step is CreateTemp;
            &&& creates ==> told == "cannot create "@ + named
            &&& step is WriteTemp ==> told == "cannot write "@ + named
            &&& step is Serialize ==> told == "serialize state: "@ + cause
            &&& step is SyncTemp ==> told == "cannot fsync state: "@ + cause
            &&& step is Commit ==> told == "cannot commit state file: "@ + cause
            &&& told.skip(told.len() - cause.len()) == cause
        }),
{
    let told = step.failure_text(place, cause);
    let named = place + ": "@ + cause;
    assert("cannot create "@ + named =~= "cannot create "@ + place + ": "@ + cause);
    assert("cannot write "@ + named =~= "cannot write "@ + place + ": "@ + cause);
    assert(told.skip(told.len() - cause.len()) =~= cause);
}

} // verus!
