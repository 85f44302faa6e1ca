use resh::session;
use resh::wal;
use resh::wal::{remaining_after, without_sessions, RecordStep, ReplayStep, WalEntry, WalReply};

fn entry(host: &str, session: &str) -> WalEntry {
    WalEntry {
        host: host.into(),
        session: session.into(),
    }
}

fn pairs(entries: &[WalEntry]) -> Vec<(&str, &str)> {
    entries
        .iter()
        .map(|e| (e.host.as_str(), e.session.as_str()))
        .collect()
}

/// Killing a session is what the close signal hands on, so a successful kill
/// has to clear the pending entry the signal handler wrote, including the
/// duplicate a second close signal may have added.
#[test]
fn forgetting_a_session_drops_all_its_entries_for_that_host_only() {
    let entries = vec![
        entry("fermat", "alpha"),
        entry("fermat", "alpha"),
        entry("fermat", "beta"),
        entry("euler", "alpha"),
    ];

    let remaining = without_sessions(entries, "fermat", &vec!["alpha".to_string()]);

    let left: Vec<(&str, &str)> = remaining
        .iter()
        .map(|e| (e.host.as_str(), e.session.as_str()))
        .collect();
    assert_eq!(left, vec![("fermat", "beta"), ("euler", "alpha")]);
}

/// A session that could not be killed must stay pending, but it must not hold
/// back the entries that were killed successfully.
#[test]
fn only_the_sessions_that_failed_stay_pending() {
    let entries = vec![
        entry("fermat", "alpha"),
        entry("fermat", "beta"),
        entry("euler", "gamma"),
    ];
    let outcomes = vec![
        ("alpha".to_string(), None),
        ("beta".to_string(), Some("boom".to_string())),
    ];

    let remaining = remaining_after(entries, "fermat", &outcomes);

    let names: Vec<&str> = remaining.iter().map(|e| e.session.as_str()).collect();
    assert_eq!(names, vec!["beta", "gamma"]);
}

#[test]
fn the_log_lives_in_the_data_directory() {
    assert_eq!(wal::wal_path(Some("/data"), Some("/home/u")), "/data/sshr/close.wal");
    assert_eq!(
        wal::wal_path(None, Some("/home/u/")),
        "/home/u/.local/share/sshr/close.wal"
    );
    assert_eq!(wal::wal_path(None, None), "/tmp/.local/share/sshr/close.wal");
    assert_eq!(wal::wal_path(Some(""), None), "sshr/close.wal");
}

#[test]
fn what_is_written_is_read_back() {
    let entries = vec![entry("fermat", "alpha"), entry("euler", "a:b"), entry("", "")];
    let log = wal::write_entries(&entries);
    assert_eq!(log, "fermat:alpha\neuler:a:b\n:\n");
    let read = wal::read_entries(&Some(log));
    assert_eq!(pairs(&read), vec![("fermat", "alpha"), ("euler", "a:b"), ("", "")]);
    assert_eq!(wal::write_entries(&Vec::new()), "");
}

#[test]
fn a_log_is_read_line_by_line() {
    assert!(wal::read_entries(&None).is_empty());
    assert!(wal::read_entries(&Some(String::new())).is_empty());
    let read = wal::read_entries(&Some("a:1\r\n\nno colon\nb:2".to_string()));
    assert_eq!(pairs(&read), vec![("a", "1"), ("b", "2")]);
}

#[test]
fn an_appended_line_adds_its_entry() {
    let mut log = wal::write_entries(&vec![entry("euler", "gamma")]);
    log.push_str(&wal::wal_line("fermat", "alpha"));
    let read = wal::read_entries(&Some(log));
    assert_eq!(pairs(&read), vec![("euler", "gamma"), ("fermat", "alpha")]);
}

fn written(step: &RecordStep) -> String {
    match step {
        RecordStep::Write { content } => content.clone(),
        RecordStep::Rewrite { content } => content.clone(),
        other => panic!("got: {other:?}"),
    }
}

#[test]
fn a_close_is_recorded_killed_and_removed() {
    let read = WalReply::Content(Some("euler:gamma\n".to_string()));
    let step = wal::record_close(RecordStep::Read, "fermat", "alpha", read);
    let log = written(&step);
    assert_eq!(log, "euler:gamma\nfermat:alpha\n");
    let step = wal::record_close(step, "fermat", "alpha", WalReply::Written(true));
    match &step {
        RecordStep::Kill { names } => assert_eq!(names, &vec!["alpha"]),
        other => panic!("got: {other:?}"),
    }
    let killed = WalReply::Killed(vec![("alpha".to_string(), None)]);
    let step = wal::record_close(step, "fermat", "alpha", killed);
    assert!(matches!(step, RecordStep::ReadAgain));
    let step = wal::record_close(step, "fermat", "alpha", WalReply::Content(Some(log)));
    assert_eq!(written(&step), "euler:gamma\n");
    let step = wal::record_close(step, "fermat", "alpha", WalReply::Written(false));
    assert!(matches!(step, RecordStep::Done));
}

#[test]
fn a_close_that_fails_stays_recorded_and_is_replayed() {
    let step = wal::record_close(RecordStep::Read, "fermat", "alpha", WalReply::Content(None));
    let log = written(&step);
    assert_eq!(log, "fermat:alpha\n");
    let step = wal::record_close(step, "fermat", "alpha", WalReply::Written(true));
    let failed = WalReply::Killed(vec![("alpha".to_string(), Some("boom".to_string()))]);
    let step = wal::record_close(step, "fermat", "alpha", failed);
    assert!(matches!(step, RecordStep::Done));

    match wal::replay(ReplayStep::Read, "fermat", WalReply::Content(Some(log))) {
        ReplayStep::Kill { names, .. } => assert_eq!(names, vec!["alpha"]),
        other => panic!("got: {other:?}"),
    }
}

#[test]
fn a_close_that_cannot_be_recorded_is_not_acted_on() {
    let step = RecordStep::Write {
        content: "fermat:alpha\n".to_string(),
    };
    let step = wal::record_close(step, "fermat", "alpha", WalReply::Written(false));
    assert!(matches!(step, RecordStep::Done));
}

#[test]
fn a_replay_kills_what_is_pending_for_the_host() {
    let log = "fermat:alpha\neuler:gamma\nfermat:beta\n".to_string();
    let step = wal::replay(ReplayStep::Read, "fermat", WalReply::Content(Some(log)));
    match &step {
        ReplayStep::Kill { names, .. } => assert_eq!(names, &vec!["alpha", "beta"]),
        other => panic!("got: {other:?}"),
    }
    let outcomes = vec![
        ("alpha".to_string(), None),
        ("beta".to_string(), Some("boom".to_string())),
    ];
    assert!(session::kill_sessions(&outcomes).is_err());
    let step = wal::replay(step, "fermat", WalReply::Killed(outcomes));
    match &step {
        ReplayStep::Write { content } => assert_eq!(content, "euler:gamma\nfermat:beta\n"),
        other => panic!("got: {other:?}"),
    }
    let step = wal::replay(step, "fermat", WalReply::Written(true));
    assert!(matches!(step, ReplayStep::Done));
}

#[test]
fn a_replay_without_pending_closes_does_nothing() {
    let log = "euler:gamma\n".to_string();
    let step = wal::replay(ReplayStep::Read, "fermat", WalReply::Content(Some(log)));
    assert!(matches!(step, ReplayStep::Done));
}

#[test]
fn forgetting_twice_is_forgetting_once() {
    let gone = vec!["alpha".to_string(), "beta".to_string()];
    let log = Some("fermat:alpha\nfermat:gamma\neuler:beta\n".to_string());
    let once = wal::forget(&log, "fermat", &gone);
    assert_eq!(once, "fermat:gamma\neuler:beta\n");
    assert_eq!(wal::forget(&Some(once.clone()), "fermat", &gone), once);
}

#[test]
fn what_a_replay_could_not_kill_is_replayed_again() {
    let log = "fermat:alpha\nfermat:beta\n".to_string();
    let step = wal::replay(ReplayStep::Read, "fermat", WalReply::Content(Some(log)));
    let outcomes = vec![
        ("alpha".to_string(), Some("boom".to_string())),
        ("beta".to_string(), None),
    ];
    let log = match wal::replay(step, "fermat", WalReply::Killed(outcomes)) {
        ReplayStep::Write { content } => content,
        other => panic!("got: {other:?}"),
    };
    match wal::replay(ReplayStep::Read, "fermat", WalReply::Content(Some(log))) {
        ReplayStep::Kill { names, .. } => assert_eq!(names, vec!["alpha"]),
        other => panic!("got: {other:?}"),
    }
}

#[test]
fn a_line_that_a_signal_appended_is_replayed() {
    let log = "euler:gamma\n".to_string() + &wal::wal_line("fermat", "alpha");
    match wal::replay(ReplayStep::Read, "fermat", WalReply::Content(Some(log))) {
        ReplayStep::Kill { names, .. } => assert_eq!(names, vec!["alpha"]),
        other => panic!("got: {other:?}"),
    }
}

#[test]
fn a_forgotten_session_is_not_replayed() {
    let gone = vec!["alpha".to_string()];
    let log = Some("fermat:alpha\nfermat:beta\nfermat:alpha\n".to_string());
    let log = wal::forget(&log, "fermat", &gone);
    match wal::replay(ReplayStep::Read, "fermat", WalReply::Content(Some(log))) {
        ReplayStep::Kill { names, .. } => assert_eq!(names, vec!["beta"]),
        other => panic!("got: {other:?}"),
    }
}
