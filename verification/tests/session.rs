use std::cell::RefCell;

use resh::cmd::spaced;
use resh::session;
use resh::session::{KillReply, KillStep, ListReply, ListStep, RemoteOutput, SessionEntry, SessionStatus};
use resh::upload::RemotePaths;
use serde_json::Value;

fn paths() -> RemotePaths {
    RemotePaths::new(None).unwrap()
}

/// Stands in for ssh: answers every request as the given shell script would.
/// It knows `echo '<text>' >&2`, `exit <status>` and one `case` on the command.
struct MockSsh {
    script: String,
    calls: RefCell<Vec<String>>,
}

impl MockSsh {
    fn new(script: &str) -> MockSsh {
        MockSsh {
            script: script.to_string(),
            calls: RefCell::new(Vec::new()),
        }
    }

    fn calls(&self) -> Vec<String> {
        self.calls.borrow().clone()
    }

    fn run_statements(statements: &str, stderr: &mut String) -> Option<i32> {
        for statement in statements.split(|c| c == ';' || c == '\n') {
            let statement = statement.trim();
            if let Some(rest) = statement.strip_prefix("echo '") {
                stderr.push_str(rest.strip_suffix("' >&2").unwrap());
                stderr.push('\n');
            } else if let Some(status) = statement.strip_prefix("exit ") {
                return Some(status.parse().unwrap());
            }
        }
        None
    }

    fn run_remote(&self, host: &str, command: &str) -> KillReply {
        self.calls.borrow_mut().push(format!("{host} {command}"));
        let mut stderr = String::new();
        let mut status = None;
        let mut rest = self.script.as_str();
        if let Some(body) = rest.strip_prefix("case \"$*\" in *") {
            let (pattern, body) = body.split_once("*) ").unwrap();
            let (arm, after) = body.split_once(";; esac").unwrap();
            if command.contains(pattern) {
                status = MockSsh::run_statements(arm, &mut stderr);
            }
            rest = after;
        }
        let status = status
            .or_else(|| MockSsh::run_statements(rest, &mut stderr))
            .unwrap_or(0);
        if status == 255 {
            return KillReply::Unreachable(stderr.trim().to_string());
        }
        let detail = stderr.trim();
        KillReply::Exited(RemoteOutput {
            success: status == 0,
            status: format!("exit status: {status}"),
            detail: if detail.is_empty() {
                None
            } else {
                Some(detail.to_string())
            },
            stderr: stderr.clone(),
        })
    }
}

fn kill_each(ctx: &MockSsh, host: &str, sessions: &[String], paths: &RemotePaths) -> Vec<(String, Option<String>)> {
    let mut step = session::kill_each(paths, sessions.to_vec());
    loop {
        let reply = match &step {
            KillStep::Run { command, .. } => ctx.run_remote(host, command),
            KillStep::Done(_) => break,
        };
        step = step.next(paths, reply);
    }
    match step {
        KillStep::Done(outcomes) => outcomes,
        KillStep::Run { .. } => unreachable!(),
    }
}

fn kill_sessions(ctx: &MockSsh, host: &str, sessions: &[String], paths: &RemotePaths) -> Result<(), String> {
    session::kill_sessions(&kill_each(ctx, host, sessions, paths))
}

fn decode_entry(value: &Value) -> Result<SessionEntry, String> {
    let object = value.as_object().ok_or("not an object")?;
    let name = object.get("name").and_then(Value::as_str).ok_or("no name")?;
    let status = match object.get("status").and_then(Value::as_str) {
        Some("Attached") => SessionStatus::Attached,
        Some("Disconnected") => SessionStatus::Disconnected,
        _ => SessionStatus::default(),
    };
    Ok(entry(name, status, object.get("started_at_unix_ms").and_then(Value::as_i64)))
}

fn decode(output: &str) -> Result<Vec<SessionEntry>, String> {
    let reply: Value = serde_json::from_str(output).map_err(|e| e.to_string())?;
    match reply.get("sessions") {
        Some(sessions) => sessions.as_array().ok_or("not a list")?.iter().map(decode_entry).collect(),
        None => Ok(Vec::new()),
    }
}

fn parse_session_list(output: &str) -> Result<Vec<SessionEntry>, String> {
    let mut step = session::parse_session_list(output.to_string());
    loop {
        let reply = match &step {
            ListStep::Decode { output } => match decode(output) {
                Ok(sessions) => ListReply::Decoded(sessions),
                Err(err) => ListReply::DecodeFailed(err),
            },
            _ => break,
        };
        step = step.next(reply);
    }
    match step {
        ListStep::Listed(sessions) => Ok(sessions),
        ListStep::Failed(message) => Err(message),
        other => panic!("got: {other:?}"),
    }
}

fn entry(name: &str, status: SessionStatus, started: Option<i64>) -> SessionEntry {
    SessionEntry {
        name: name.to_string(),
        status,
        started_at_unix_ms: started,
    }
}

/// One dead session must not stop the others from being killed. shpool's
/// daemon aborts a whole multi-session kill on the first failure, so one
/// session is sent per request.
#[test]
fn kill_sends_one_request_per_session() {
    let mock = MockSsh::new("exit 0");

    kill_sessions(
        &mock,
        "fermat",
        &["alpha".into(), "beta".into(), "gamma".into()],
        &paths(),
    )
    .unwrap();

    let calls = mock.calls();
    assert_eq!(calls.len(), 3, "expected one ssh call per session: {calls:?}");
    assert!(calls[0].contains("alpha") && !calls[0].contains("beta"));
    assert!(calls[1].contains("beta"));
    assert!(calls[2].contains("gamma"));
}

#[test]
fn kill_continues_after_a_session_fails() {
    let mock = MockSsh::new("case \"$*\" in *beta*) echo 'boom' >&2; exit 1;; esac\nexit 0");

    let err = kill_sessions(
        &mock,
        "fermat",
        &["alpha".into(), "beta".into(), "gamma".into()],
        &paths(),
    )
    .unwrap_err();

    let calls = mock.calls();
    assert_eq!(calls.len(), 3, "a failure must not abort the rest: {calls:?}");
    let msg = err.to_string();
    assert!(msg.contains("beta"), "error must name the session: {msg}");
    assert!(!msg.contains("alpha"), "must not blame healthy sessions: {msg}");
    assert_eq!(msg, "failed to kill 1 of 3 session(s):\n  beta: boom");
}

/// shpool exits non-zero for a session it cannot find, but "already gone" is
/// the state kill is asking for. Treating it as a failure would keep log entries
/// for vanished sessions pending forever.
#[test]
fn kill_treats_an_already_gone_session_as_success() {
    let mock = MockSsh::new("echo 'not found: alpha' >&2\nexit 1");

    kill_sessions(&mock, "fermat", &["alpha".into()], &paths()).unwrap();
}

/// A dead host fails identically for every session, so it must not cost one
/// connection timeout per selected session.
#[test]
fn kill_stops_dialling_after_the_connection_fails() {
    let mock = MockSsh::new("echo 'ssh: connect to host fermat port 22: No route to host' >&2\nexit 255");

    let err = kill_sessions(
        &mock,
        "fermat",
        &["alpha".into(), "beta".into(), "gamma".into()],
        &paths(),
    )
    .unwrap_err();

    assert_eq!(
        mock.calls().len(),
        1,
        "must stop after the first connection failure"
    );
    let msg = format!("{err:#}");
    assert!(msg.contains("alpha") && msg.contains("beta") && msg.contains("gamma"));
    assert!(msg.contains("No route to host"), "got: {msg}");
}

#[test]
fn kill_reports_remote_stderr() {
    let mock = MockSsh::new("echo 'killing shell proc: ESRCH' >&2\nexit 1");

    let err = kill_sessions(&mock, "fermat", &["alpha".into()], &paths()).unwrap_err();

    let msg = format!("{err:#}");
    assert!(msg.contains("ESRCH"), "remote stderr must reach the user: {msg}");
}

#[test]
fn parses_json_list_with_status_and_timestamps() {
    let output = r#"{
      "sessions": [
        {"name": "s0", "started_at_unix_ms": 1779472949300, "status": "Attached"},
        {"name": "s1", "started_at_unix_ms": 1779472980000, "status": "Disconnected"}
      ]
    }"#;
    let sessions = parse_session_list(output).unwrap();
    assert_eq!(sessions.len(), 2);
    assert_eq!(sessions[0].name, "s0");
    assert_eq!(sessions[0].status, SessionStatus::Attached);
    assert_eq!(sessions[1].name, "s1");
    assert_eq!(sessions[1].status, SessionStatus::Disconnected);
    assert_eq!(
        sessions[1].display_line(),
        "s1\t1779472980000\tdisconnected"
    );
}

#[test]
fn empty_output_and_empty_session_array_are_no_sessions() {
    assert!(parse_session_list("").unwrap().is_empty());
    assert!(parse_session_list(r#"{"sessions":[]}"#).unwrap().is_empty());
}

#[test]
fn unknown_status_and_extra_fields_are_tolerated() {
    let output = r#"{"future":1,"sessions":[{"name":"s","status":"PausedForUpgrade","extra":true}]}"#;
    let sessions = parse_session_list(output).unwrap();
    assert_eq!(sessions.len(), 1);
    assert_eq!(sessions[0].status, SessionStatus::Unknown);
}

#[test]
fn malformed_json_is_an_error() {
    assert!(parse_session_list("NAME STARTED STATUS").is_err());
}

#[test]
fn a_silent_failure_reports_the_exit_status() {
    let mock = MockSsh::new("exit 3");
    let outcomes = kill_each(&mock, "fermat", &["alpha".into()], &paths());
    assert_eq!(
        outcomes,
        vec![(
            "alpha".to_string(),
            Some("shpool kill exited with exit status: 3".to_string())
        )]
    );
}

#[test]
fn every_session_has_its_own_outcome_in_order() {
    let mock = MockSsh::new("case \"$*\" in *beta*) echo 'boom' >&2; exit 1;; esac\nexit 0");
    let outcomes = kill_each(
        &mock,
        "fermat",
        &["alpha".into(), "beta".into(), "gamma".into()],
        &paths(),
    );
    assert_eq!(
        outcomes,
        vec![
            ("alpha".to_string(), None),
            ("beta".to_string(), Some("boom".to_string())),
            ("gamma".to_string(), None),
        ]
    );
    assert_eq!(kill_each(&mock, "fermat", &[], &paths()), vec![]);
}

#[test]
fn the_kill_command_quotes_the_session() {
    assert_eq!(
        session::kill_command(&paths(), "-x 'y'"),
        r#""$HOME/.local/share/sshr/bin/shpool" --socket "$HOME/.local/run/sshr/shpool.socket" kill -- '-x '\''y'\'''"#
    );
    assert_eq!(spaced(&vec!["a".to_string(), "b".to_string()]), "a b");
}

#[test]
fn already_gone_is_looked_for_on_every_line() {
    assert!(session::is_already_gone("warning\r\n   not found: alpha\n"));
    assert!(!session::is_already_gone("alpha not found:\n"));
    assert!(!session::is_already_gone(""));
}

#[test]
fn a_listing_is_captured_and_then_decoded() {
    let step = session::list_sessions(&paths());
    match &step {
        ListStep::Capture { command } => assert_eq!(
            command,
            r#""$HOME/.local/share/sshr/bin/shpool" --socket "$HOME/.local/run/sshr/shpool.socket" list --json 2>/dev/null"#
        ),
        other => panic!("got: {other:?}"),
    }
    let step = step.next(ListReply::Output("{\"sessions\":[]}".to_string()));
    match &step {
        ListStep::Decode { output } => assert_eq!(output, "{\"sessions\":[]}"),
        other => panic!("got: {other:?}"),
    }
    let step = step.next(ListReply::Decoded(vec![entry("s0", SessionStatus::Attached, None)]));
    match &step {
        ListStep::Listed(sessions) => assert_eq!(sessions[0].name, "s0"),
        other => panic!("got: {other:?}"),
    }
}

#[test]
fn blank_output_is_no_sessions() {
    for output in ["", " \n\t\u{3000}"] {
        match session::parse_session_list(output.to_string()) {
            ListStep::Listed(sessions) => assert!(sessions.is_empty()),
            other => panic!("got: {other:?}"),
        }
    }
}

#[test]
fn a_malformed_listing_is_an_error() {
    let step = ListStep::Decode {
        output: "NAME STARTED STATUS".to_string(),
    };
    match step.next(ListReply::DecodeFailed("expected value".to_string())) {
        ListStep::Failed(message) => {
            assert_eq!(message, "invalid shpool list --json response: expected value")
        }
        other => panic!("got: {other:?}"),
    }
    match session::list_sessions(&paths()).next(ListReply::CaptureFailed("no route".to_string())) {
        ListStep::Failed(message) => assert_eq!(message, "no route"),
        other => panic!("got: {other:?}"),
    }
}

#[test]
fn entries_are_shown_on_one_line() {
    assert_eq!(
        entry("s1", SessionStatus::Disconnected, Some(1779472980000)).display_line(),
        "s1\t1779472980000\tdisconnected"
    );
    assert_eq!(
        entry("s2", SessionStatus::default(), None).display_line(),
        "s2\t-\tunknown"
    );
    assert_eq!(
        entry("s3", SessionStatus::Attached, Some(i64::MIN)).display_line(),
        format!("s3\t{}\tattached", i64::MIN)
    );
}

#[test]
fn the_prefix_is_the_first_label_in_lower_case() {
    assert_eq!(session::prefix_of_hostname("MacBook.local"), "macbook");
    assert_eq!(session::prefix_of_hostname("My Big Mac"), "my-big-mac");
    assert_eq!(session::prefix_of_hostname("\u{00c9}toile.fr"), "\u{00e9}toile");
    assert_eq!(session::prefix_of_hostname(""), "");
    assert_eq!(session::local_prefix(Some("  Study Mac.home\n")), "study-mac");
}

#[test]
fn a_machine_without_a_platform_name_has_a_host_name() {
    let full = session::stable_hostname(Some(" \n"));
    assert_eq!(full, session::stable_hostname(None));
    assert_eq!(session::local_prefix(None), session::prefix_of_hostname(&full));
    assert_eq!(session::hostname_or_unknown(None), "unknown");
    assert_eq!(session::hostname_or_unknown(Some("h".to_string())), "h");
}

#[test]
fn session_names_are_the_prefix_and_six_digits() {
    let none: Vec<String> = Vec::new();
    assert_eq!(
        session::fresh_session_name("macbook", &none, 0xffa3f21b),
        Some("macbook-a3f21b".to_string())
    );
    assert_eq!(
        session::fresh_session_name("macbook", &none, 7),
        Some("macbook-000007".to_string())
    );
    assert_eq!(
        session::fresh_session_name("macbook", &vec!["macbook-000007".to_string()], 7),
        None
    );
}

#[test]
fn the_first_free_name_of_the_draws_is_taken() {
    let taken = vec!["m-000007".to_string(), "m-0000ff".to_string()];
    assert_eq!(
        session::first_fresh_name("m", &taken, &vec![0xff, 7, 0x1000007, 8, 9]),
        Some("m-000008".to_string())
    );
    assert_eq!(session::first_fresh_name("m", &taken, &vec![0xff, 7]), None);
    assert_eq!(session::first_fresh_name("m", &taken, &Vec::new()), None);
}

#[test]
fn a_new_session_name_is_not_taken() {
    let sessions = vec![entry("macbook-000007", SessionStatus::Attached, None)];
    for _ in 0..50 {
        let name = session::new_session_name("macbook", &sessions).unwrap();
        assert!(name.starts_with("macbook-"));
        assert_eq!(name.len(), "macbook-".len() + 6);
        assert!(name["macbook-".len()..]
            .chars()
            .all(|c| c.is_ascii_digit() || ('a'..='f').contains(&c)));
        assert_ne!(name, "macbook-000007");
        let mine = vec![entry(&name, SessionStatus::Attached, None)];
        assert_eq!(session::visible_sessions(&mine, "macbook", false).len(), 1);
    }
}

fn some_sessions() -> Vec<SessionEntry> {
    vec![
        entry("macbook-000001", SessionStatus::Attached, Some(5)),
        entry("desk-000002", SessionStatus::Disconnected, None),
        entry("macbook-000003", SessionStatus::Disconnected, None),
        entry("macbook", SessionStatus::Disconnected, None),
    ]
}

#[test]
fn menus_show_the_visible_sessions() {
    let menu = session::pick_session_interactive(&some_sessions(), "macbook", false, "fermat").unwrap();
    assert_eq!(menu.names, vec!["macbook-000001", "macbook-000003"]);
    assert_eq!(
        menu.items,
        vec!["macbook-000001\t5\tattached", "macbook-000003\t-\tdisconnected"]
    );
    assert_eq!(menu.picked(1), "macbook-000003");

    let menu = session::pick_sessions_to_kill(&some_sessions(), "macbook", true, "fermat").unwrap();
    assert_eq!(menu.names.len(), 4);
    assert_eq!(
        menu.picked_all(&vec![3, 1]).unwrap(),
        vec!["macbook", "desk-000002"]
    );
    assert_eq!(
        menu.picked_all(&Vec::new()).unwrap_err(),
        "no sessions selected"
    );
}

#[test]
fn a_menu_without_sessions_is_an_error() {
    assert_eq!(
        session::pick_session_interactive(&some_sessions(), "laptop", false, "fermat").unwrap_err(),
        "no existing sessions on fermat"
    );
    assert_eq!(
        session::pick_sessions_to_kill(&Vec::new(), "macbook", true, "fermat").unwrap_err(),
        "no sessions on fermat"
    );
}

#[test]
fn cleaning_up_kills_detached_sessions_only() {
    assert_eq!(
        session::clean_detached(&some_sessions(), "macbook", false),
        vec!["macbook-000003"]
    );
    assert_eq!(
        session::clean_detached(&some_sessions(), "macbook", true),
        vec!["desk-000002", "macbook-000003", "macbook"]
    );
    assert!(session::clean_detached(&some_sessions(), "laptop", false).is_empty());
}
