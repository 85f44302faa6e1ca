//! What a close signal does.
//!
//! Closing a terminal window kills this process along with the window, usually
//! before it can reach its own cleanup code. So the first close signal writes an
//! entry to the log of pending closes, and hands the kill to a process of its
//! own. The functions here decide; the signal handler does what they say with
//! system calls that are safe in a signal handler.
use vstd::prelude::*;

use crate::wal;

verus! {

/// What the process knows about being closed.
#[derive(Debug, Clone, Copy, PartialEq, Eq, Structural)]
pub struct CloseState {
    /// A close signal has arrived.
    pub closing: bool,
    /// A close signal has been acted on. Closing a terminal window delivers more
    /// than one (the terminal signals the process group and the kernel signals
    /// it again when the pty goes away), and the close must only be acted on
    /// once.
    pub handled: bool,
    /// The process of the interactive ssh child; 0 if there is none.
    pub ssh_child: i32,
}

/// What a signal handler is to do.
#[derive(Debug, Clone, Copy, PartialEq, Eq)]
pub struct CloseActions {
    /// Append this session's close entry to the log.
    pub write_wal_entry: bool,
    /// Start the process that kills the remote session.
    pub spawn_killer: bool,
    /// Send this process this signal.
    pub forward: Option<(i32, i32)>,
}

impl CloseState {
    /// Nothing has happened yet.
    pub open spec fn initial() -> CloseState {
        CloseState { closing: false, handled: false, ssh_child: 0 }
    }

    /// The state of a process that has not been signalled.
    pub fn new() -> (res: CloseState)
        ensures
            res == CloseState::initial(),
    {
        CloseState { closing: false, handled: false, ssh_child: 0 }
    }

    /// The state after a signal.
    pub open spec fn signalled(self) -> CloseState {
        CloseState { closing: true, handled: true, ssh_child: self.ssh_child }
    }

    /// What a signal calls for. Only the first one is acted on, but every one is
    /// passed on to the ssh child unchanged, so that its exit is not waited for
    /// in vain.
    pub open spec fn actions(self, signo: i32) -> CloseActions {
        CloseActions {
            write_wal_entry: !self.handled,
            spawn_killer: !self.handled,
            forward: self.forward_of(signo),
        }
    }

    /// The child that a signal is passed on to, and the signal; `None` if there
    /// is no child.
    pub open spec fn forward_of(self, signo: i32) -> Option<(i32, i32)> {
        if self.ssh_child > 0 {
            Some((self.ssh_child, signo))
        } else {
            None
        }
    }

    /// Where a signal is passed on to as things stand. A handler that has
    /// other work to do first can look again after it.
    pub fn forwarded(&self, signo: i32) -> (res: Option<(i32, i32)>)
        ensures
            res == self.forward_of(signo),
    {
        if self.ssh_child > 0 {
            Some((self.ssh_child, signo))
        } else {
            None
        }
    }
}

/// Take note of a close signal, and say what to do about it.
pub fn handle_signal(state: &mut CloseState, signo: i32) -> (res: CloseActions)
    ensures
        *final(state) == old(state).signalled(),
        res == old(state).actions(signo),
        final(state).closing && final(state).handled,
        final(state).ssh_child == old(state).ssh_child,
        res.write_wal_entry == !old(state).handled,
        res.spawn_killer == !old(state).handled,
        res.forward == if old(state).ssh_child > 0 {
            Some((old(state).ssh_child, signo))
        } else {
            None
        },
{
    let first = !state.handled;
    state.closing = true;
    state.handled = true;
    let forward = state.forwarded(signo);
    CloseActions { write_wal_entry: first, spawn_killer: first, forward }
}

/// Record the current interactive ssh child PID (0 to clear once it has exited),
/// so the close signal handler can end the session promptly.
pub fn set_ssh_child(state: &mut CloseState, pid: i32)
    ensures
        *final(state) == (CloseState { ssh_child: pid, ..*old(state) }),
        final(state).ssh_child == pid,
{
    state.ssh_child = pid;
}

/// Whether a close signal has arrived.
pub fn is_closing(state: &CloseState) -> (res: bool)
    ensures
        res == state.closing,
{
    state.closing
}

/// What can happen to the state.
pub enum CloseEvent {
    /// A signal arrives.
    Signal(i32),
    /// The ssh child is recorded.
    Child(i32),
}

/// The state after these events.
pub open spec fn after_events(events: Seq<CloseEvent>) -> CloseState
    decreases events.len(),
{
    if events.len() == 0 {
        CloseState::initial()
    } else {
        let before = after_events(events.drop_last());
        match events.last() {
            CloseEvent::Signal(_) => before.signalled(),
            CloseEvent::Child(pid) => CloseState { ssh_child: pid, ..before },
        }
    }
}

/// However many signals arrive, and whatever happens between them, the log entry
/// is written and the killer is started by the first of them alone. From then on
/// the process knows that it is closing.
pub proof fn a_close_is_acted_on_once(events: Seq<CloseEvent>, signo: i32)
    ensures
        ({
            let first = forall|i: int| 0 <= i < events.len() ==> !((#[trigger] events[i]) is Signal);
            &&& after_events(events).actions(signo).write_wal_entry == first
            &&& after_events(events).actions(signo).spawn_killer == first
            &&& after_events(events).closing == !first
        }),
    decreases events.len(),
{
    if events.len() > 0 {
        let init = events.drop_last();
        a_close_is_acted_on_once(init, signo);
        assert forall|i: int| 0 <= i < init.len() implies init[i] == #[trigger] events[i] by {}
        let last = events.len() - 1;
        assert(events[last] == events.last());
        if !(events.last() is Signal) {
            if forall|i: int| 0 <= i < init.len() ==> !((#[trigger] init[i]) is Signal) {
                assert forall|i: int| 0 <= i < events.len() implies !((#[trigger] events[i]) is Signal) by {
                    if i < last {
                        assert(init[i] == events[i]);
                    }
                }
            }
        }
    }
}

/// A signal that arrives while a child is recorded reaches that child, and is
/// the same signal.
pub proof fn signals_reach_the_child_unchanged(events: Seq<CloseEvent>, signals: Seq<CloseEvent>, pid: i32, signo: i32)
    requires
        forall|i: int| 0 <= i < signals.len() ==> (#[trigger] signals[i]) is Signal,
    ensures
        after_events(events.push(CloseEvent::Child(pid)) + signals).actions(signo).forward == if pid > 0 {
            Some((pid, signo))
        } else {
            None
        },
    decreases signals.len(),
{
    let all = events.push(CloseEvent::Child(pid)) + signals;
    if signals.len() == 0 {
        assert(all =~= events.push(CloseEvent::Child(pid)));
    } else {
        let init = signals.drop_last();
        assert forall|i: int| 0 <= i < init.len() implies (#[trigger] init[i]) is Signal by {
            assert(init[i] == signals[i]);
        }
        signals_reach_the_child_unchanged(events, init, pid, signo);
        assert(all.drop_last() =~= events.push(CloseEvent::Child(pid)) + init);
        assert(signals[signals.len() - 1] is Signal);
    }
}

/// What the handler needs to write the log entry without allocating.
#[derive(Debug)]
pub struct WalContext {
    /// The path of the log, with a NUL at its end.
    pub wal_path: Vec<u8>,
    /// The line of the log for the session.
    pub entry_line: Vec<u8>,
}

/// The kill command of a session, marshalled ahead of time so that the handler
/// can exec it without allocating. Every argument has a NUL at its end.
#[derive(Debug)]
pub struct KillCommand {
    pub exe: Vec<u8>,
    pub host: Vec<u8>,
    pub kill: Vec<u8>,
    pub session: Vec<u8>,
}

/// What is set up before a close signal can arrive.
#[derive(Debug)]
pub struct Handlers {
    pub wal: WalContext,
    /// `None` if one of the arguments holds a NUL.
    pub kill: Option<KillCommand>,
}

/// The bytes of a text.
pub open spec fn bytes_of(s: Seq<char>) -> Seq<u8> {
    vstd::utf8::encode_utf8(s)
}

/// The bytes as the system takes them: with a NUL at the end, which is the only
/// one.
fn terminated(bytes: Vec<u8>) -> (res: Option<Vec<u8>>)
    ensures
        match res {
            Some(out) => !bytes@.contains(0) && out@ == bytes@.push(0),
            None => bytes@.contains(0),
        },
{
    let mut i: usize = 0;
    while i < bytes.len()
        invariant
            i <= bytes@.len(),
            forall|k: int| 0 <= k < i ==> bytes@[k] != 0,
        decreases bytes@.len() - i,
    {
        if bytes[i] == 0 {
            assert(bytes@[i as int] == 0);
            return None;
        }
        i += 1;
    }
    let mut out = bytes;
    out.push(0);
    Some(out)
}

/// What the close signal of a session needs: the log and its entry, and the
/// command `<exe> <host> kill <session>`.
pub fn install_handlers(exe: Vec<u8>, wal_path: Vec<u8>, host: &str, session_name: &str) -> (res: Handlers)
    ensures
        res.wal.wal_path@ == wal_path@.push(0),
        res.wal.entry_line@ == bytes_of(wal::entry_line(host@, session_name@)),
        match res.kill {
            Some(command) => {
                &&& !exe@.contains(0) && !bytes_of(host@).contains(0) && !bytes_of(session_name@).contains(0)
                &&& command.exe@ == exe@.push(0)
                &&& command.host@ == bytes_of(host@).push(0)
                &&& command.kill@ == bytes_of("kill"@).push(0)
                &&& command.session@ == bytes_of(session_name@).push(0)
            },
            None => exe@.contains(0) || bytes_of(host@).contains(0) || bytes_of(session_name@).contains(0),
        },
{
    let mut path = wal_path;
    path.push(0);
    let entry_line = wal::wal_line(host, session_name).as_str().as_bytes_vec();
    let wal = WalContext { wal_path: path, entry_line };
    proof {
        reveal_strlit("kill");
        vstd::utf8::is_ascii_chars_encode_utf8("kill"@);
    }
    let kill = match (
        terminated(exe),
        terminated(host.as_bytes_vec()),
        terminated("kill".as_bytes_vec()),
        terminated(session_name.as_bytes_vec()),
    ) {
        (Some(exe), Some(host), Some(kill), Some(session)) => Some(KillCommand { exe, host, kill, session }),
        _ => None,
    };
    Handlers { wal, kill }
}

/// What a state calls for on a signal, said outright: it is acted on if none was
/// before, and passed on unchanged to the child if there is one. From then on
/// the state is that of a process that is closing, with the same child.
pub proof fn a_signal_is_noted_and_the_first_acted_on(state: CloseState, signo: i32)
    ensures
        state.actions(signo).write_wal_entry == !state.handled,
        state.actions(signo).spawn_killer == !state.handled,
        state.ssh_child > 0 ==> state.actions(signo).forward == Some((state.ssh_child, signo)),
        state.ssh_child <= 0 ==> state.actions(signo).forward is None,
        state.signalled().closing,
        state.signalled().handled,
        state.signalled().ssh_child == state.ssh_child,
{
}

/// Where a signal is passed on to is the child, and the signal is the same.
pub proof fn signals_are_passed_on_to_the_child(state: &CloseState, signo: i32, res: Option<(i32, i32)>, closing: bool)
    requires
        call_ensures(CloseState::forwarded, (state, signo), res),
        call_ensures(is_closing, (state,), closing),
    ensures
        state.ssh_child > 0 ==> res == Some((state.ssh_child, signo)),
        state.ssh_child <= 0 ==> res is None,
        closing == state.closing,
{
}

/// The handler is given the line that the log has for the session, and the
/// command that kills exactly that session on that host, each argument ended by
/// the only NUL in it. Without the command the log entry is all there is.
pub proof fn handlers_are_about_the_session(
    exe: Vec<u8>,
    log_path: Vec<u8>,
    host: &str,
    session_name: &str,
    line: String,
    res: Handlers,
)
    requires
        call_ensures(wal::wal_line, (host, session_name), line),
        call_ensures(install_handlers, (exe, log_path, host, session_name), res),
    ensures
        res.wal.wal_path@ == log_path@ + seq![0u8],
        res.wal.entry_line@ == vstd::utf8::encode_utf8(line@),
        ({
            let host_bytes = vstd::utf8::encode_utf8(host@);
            let session_bytes = vstd::utf8::encode_utf8(session_name@);
            if exe@.contains(0) || host_bytes.contains(0) || session_bytes.contains(0) {
                res.kill is None
            } else {
                res.kill matches Some(command) && {
                    &&& command.exe@ == exe@ + seq![0u8]
                    &&& command.host@ == host_bytes + seq![0u8]
                    &&& command.kill@ == vstd::utf8::encode_utf8("kill"@) + seq![0u8]
                    &&& command.session@ == session_bytes + seq![0u8]
                }
            }
        }),
{
    assert(log_path@.push(0) =~= log_path@ + seq![0u8]);
    if let Some(command) = res.kill {
        assert(exe@.push(0) =~= exe@ + seq![0u8]);
        assert(bytes_of(host@).push(0) =~= bytes_of(host@) + seq![0u8]);
        assert(bytes_of("kill"@).push(0) =~= bytes_of("kill"@) + seq![0u8]);
        assert(bytes_of(session_name@).push(0) =~= bytes_of(session_name@) + seq![0u8]);
    }
}

} // verus!
