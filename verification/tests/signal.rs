use resh::signal::{handle_signal, install_handlers, is_closing, set_ssh_child, CloseState};

const SIGHUP: i32 = 1;
const SIGTERM: i32 = 15;

#[test]
fn only_the_first_signal_is_acted_on() {
    let mut state = CloseState::new();
    assert!(!is_closing(&state));
    let first = handle_signal(&mut state, SIGHUP);
    assert!(first.write_wal_entry && first.spawn_killer);
    assert_eq!(first.forward, None);
    assert!(is_closing(&state));
    let second = handle_signal(&mut state, SIGHUP);
    assert!(!second.write_wal_entry && !second.spawn_killer);
    assert!(is_closing(&state));
}

#[test]
fn every_signal_reaches_the_child_unchanged() {
    let mut state = CloseState::new();
    set_ssh_child(&mut state, 4711);
    assert_eq!(handle_signal(&mut state, SIGHUP).forward, Some((4711, SIGHUP)));
    assert_eq!(handle_signal(&mut state, SIGTERM).forward, Some((4711, SIGTERM)));
    set_ssh_child(&mut state, 4712);
    assert_eq!(state.forwarded(SIGTERM), Some((4712, SIGTERM)));
    set_ssh_child(&mut state, 0);
    assert_eq!(handle_signal(&mut state, SIGTERM).forward, None);
    set_ssh_child(&mut state, -1);
    assert_eq!(handle_signal(&mut state, SIGTERM).forward, None);
}

#[test]
fn the_handlers_are_marshalled_ahead_of_time() {
    let handlers = install_handlers(b"/bin/resh".to_vec(), b"/data/close.wal".to_vec(), "my\u{e9}", "s:1");
    assert_eq!(handlers.wal.wal_path, b"/data/close.wal\0".to_vec());
    assert_eq!(handlers.wal.entry_line, "my\u{e9}:s:1\n".as_bytes().to_vec());
    let kill = handlers.kill.unwrap();
    assert_eq!(kill.exe, b"/bin/resh\0".to_vec());
    assert_eq!(kill.host, "my\u{e9}\0".as_bytes().to_vec());
    assert_eq!(kill.kill, b"kill\0".to_vec());
    assert_eq!(kill.session, b"s:1\0".to_vec());
}

#[test]
fn an_argument_with_a_nul_starts_no_killer() {
    for (exe, host, session) in [("a\0b", "h", "s"), ("e", "h\0", "s"), ("e", "h", "\0s")] {
        let handlers = install_handlers(exe.as_bytes().to_vec(), b"/w".to_vec(), host, session);
        assert!(handlers.kill.is_none());
        assert_eq!(handlers.wal.entry_line, format!("{host}:{session}\n").into_bytes());
    }
}
