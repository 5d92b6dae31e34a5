use codex_limits_telegram::percent::Percent;
use codex_limits_telegram::state::{NotifyRecord, SaveStep, State, Stored, HISTORY_CAP};
use codex_limits_telegram::text_map::TextMap;

fn percent(x: f64) -> Percent {
    Percent { bits: x.to_bits() }
}

#[test]
fn missing_file_yields_default() {
    let (state, set_aside) = State::load(Stored::Missing);
    assert!(state.last_used_percent.is_empty());
    assert!(state.last_poll_at.is_none());
    assert!(!set_aside);
}

#[test]
fn history_is_capped() {
    let mut state = State::default();
    for i in 0..(HISTORY_CAP + 50) {
        state.record_notification(NotifyRecord {
            key: "codex::primary".into(),
            label: "weekly".into(),
            at: i as i64,
            from_used_percent: percent(100.0),
        });
    }
    assert_eq!(state.notified.len(), HISTORY_CAP);
    // Oldest entries dropped, newest kept.
    assert_eq!(state.notified.last().unwrap().at, (HISTORY_CAP + 49) as i64);
    assert_eq!(state.notified[0].at, 50);
}

#[test]
fn an_oversized_history_is_cut_to_its_capacity() {
    let mut state = State::default();
    for i in 0..300 {
        state.notified.push(NotifyRecord {
            key: "k".into(),
            label: "l".into(),
            at: i,
            from_used_percent: percent(1.0),
        });
    }
    state.record_notification(NotifyRecord {
        key: "k".into(),
        label: "l".into(),
        at: 300,
        from_used_percent: percent(1.0),
    });
    assert_eq!(state.notified.len(), 200);
    assert_eq!(state.notified[0].at, 101);
    assert_eq!(state.notified[199].at, 300);
}

#[test]
fn corrupt_state_is_set_aside() {
    let (state, set_aside) = State::load(Stored::Corrupt);
    assert!(state.last_used_percent.is_empty());
    assert!(state.notified.is_empty());
    assert!(set_aside);
}

#[test]
fn intact_state_is_kept() {
    let mut stored = State::default();
    stored.last_used_percent.insert("codex::primary".into(), percent(73.5));
    stored.last_poll_at = Some(1_786_000_000);
    let (state, set_aside) = State::load(Stored::Intact(stored));
    assert_eq!(state.last_used_percent.get("codex::primary"), Some(&percent(73.5)));
    assert_eq!(state.last_poll_at, Some(1_786_000_000));
    assert!(!set_aside);
}

#[test]
fn a_save_commits_last() {
    let plan = State::save(true);
    assert_eq!(
        plan,
        vec![
            SaveStep::MakeParent,
            SaveStep::Serialize,
            SaveStep::CreateTemp,
            SaveStep::WriteTemp,
            SaveStep::SyncTemp,
            SaveStep::Commit,
        ]
    );
    assert_eq!(State::save(false), plan[1..].to_vec());
}

#[test]
fn failed_saves_say_what_failed() {
    assert_eq!(SaveStep::MakeParent.failure("/x", "denied"), "cannot create /x: denied");
    assert_eq!(SaveStep::Serialize.failure("/x", "bad"), "serialize state: bad");
    assert_eq!(SaveStep::CreateTemp.failure("/x/s.tmp", "full"), "cannot create /x/s.tmp: full");
    assert_eq!(SaveStep::WriteTemp.failure("/x/s.tmp", "full"), "cannot write /x/s.tmp: full");
    assert_eq!(SaveStep::SyncTemp.failure("/x/s.tmp", "io"), "cannot fsync state: io");
    assert_eq!(SaveStep::Commit.failure("/x/s", "io"), "cannot commit state file: io");
}

#[test]
fn the_map_keeps_its_keys_in_order() {
    let mut map: TextMap<u32> = TextMap::new();
    assert!(map.is_empty());
    for (key, value) in [("b", 1), ("a", 2), ("c", 3), ("b", 4), ("", 5), ("ab", 6)] {
        map.insert(key.to_string(), value);
    }
    assert!(!map.is_empty());
    let entries: Vec<(&str, u32)> =
        map.entries().iter().map(|(k, v)| (k.as_str(), *v)).collect();
    assert_eq!(entries, vec![("", 5), ("a", 2), ("ab", 6), ("b", 4), ("c", 3)]);
    assert_eq!(map.get("b"), Some(&4));
    assert_eq!(map.get("d"), None);
}
