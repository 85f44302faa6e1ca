//! The write-ahead log of sessions that are to be closed.
//!
//! Closing a window may leave no time to kill the remote session. The log keeps
//! what is still to be killed, one `host:session` line each, until it is done.
//! The functions here decide what the log holds; whoever calls them reads and
//! writes the file.
use vstd::prelude::*;

use crate::filters;
use crate::session;
use crate::text;

verus! {

/// A session on a host that is to be closed.
#[derive(Debug)]
pub struct WalEntry {
    pub host: String,
    pub session: String,
}

impl Clone for WalEntry {
    fn clone(&self) -> (res: WalEntry)
        ensures
            res == *self,
    {
        WalEntry { host: self.host.clone(), session: self.session.clone() }
    }
}

impl View for WalEntry {
    type V = (Seq<char>, Seq<char>);

    /// The host and the session.
    open spec fn view(&self) -> (Seq<char>, Seq<char>) {
        (self.host@, self.session@)
    }
}

/// The hosts and sessions of a list of entries.
pub open spec fn entries_view(entries: Seq<WalEntry>) -> Seq<(Seq<char>, Seq<char>)> {
    Seq::new(entries.len(), |i: int| entries[i]@)
}

// ---------------------------------------------------------------------- file
/// `base` with the relative path `rest` below it.
pub open spec fn path_join(base: Seq<char>, rest: Seq<char>) -> Seq<char> {
    if base.len() == 0 || base.last() == '/' {
        base + rest
    } else {
        base + seq!['/'] + rest
    }
}

/// `base` with the relative path `rest` below it.
pub fn join_path(base: &str, rest: &str) -> (res: String)
    ensures
        res@ == path_join(base@, rest@),
{
    let chars = text::chars_of(base);
    let mut out: String = base.to_owned();
    if chars.len() > 0 && chars[chars.len() - 1] != '/' {
        out.push('/');
    }
    out.append(rest);
    assert(out@ =~= path_join(base@, rest@));
    out
}

/// Where data files live: the configured directory, or one below the home
/// directory, or, without a home directory, below `/tmp`.
pub open spec fn data_dir_of(xdg_data_home: Option<Seq<char>>, home: Option<Seq<char>>) -> Seq<char> {
    match xdg_data_home {
        Some(dir) => dir,
        None => path_join(
            match home {
                Some(dir) => dir,
                None => "/tmp"@,
            },
            ".local/share"@,
        ),
    }
}

/// The directory for data files, from the values of `XDG_DATA_HOME` and `HOME`.
pub fn data_dir(xdg_data_home: Option<&str>, home: Option<&str>) -> (res: String)
    ensures
        res@ == data_dir_of(crate::cmd::opt_text(xdg_data_home), crate::cmd::opt_text(home)),
{
    match xdg_data_home {
        Some(dir) => dir.to_owned(),
        None => {
            let base = match home {
                Some(dir) => dir,
                None => "/tmp",
            };
            join_path(base, ".local/share")
        },
    }
}

/// The file of the log, from the values of `XDG_DATA_HOME` and `HOME`.
pub fn wal_path(xdg_data_home: Option<&str>, home: Option<&str>) -> (res: String)
    ensures
        res@ == path_join(
            path_join(data_dir_of(crate::cmd::opt_text(xdg_data_home), crate::cmd::opt_text(home)), "sshr"@),
            "close.wal"@,
        ),
{
    let dir = join_path(data_dir(xdg_data_home, home).as_str(), "sshr");
    join_path(dir.as_str(), "close.wal")
}

// -------------------------------------------------------------------- format
/// The line of the log for one session.
pub open spec fn entry_line(host: Seq<char>, session: Seq<char>) -> Seq<char> {
    host + seq![':'] + session + seq!['\n']
}

/// The log that holds these entries.
pub open spec fn rendered(entries: Seq<(Seq<char>, Seq<char>)>) -> Seq<char>
    decreases entries.len(),
{
    if entries.len() == 0 {
        Seq::empty()
    } else {
        rendered(entries.drop_last()) + entry_line(entries.last().0, entries.last().1)
    }
}

/// The entries of these lines. A line without a colon is none.
pub open spec fn parsed_lines(lines: Seq<Seq<char>>) -> Seq<(Seq<char>, Seq<char>)>
    decreases lines.len(),
{
    if lines.len() == 0 {
        Seq::empty()
    } else {
        let before = parsed_lines(lines.drop_last());
        match text::split_first(lines.last(), ':') {
            Some(entry) => before.push(entry),
            None => before,
        }
    }
}

/// The entries of a log.
pub open spec fn parsed(content: Seq<char>) -> Seq<(Seq<char>, Seq<char>)> {
    parsed_lines(text::lines_of(content))
}

/// The entries of what was read of the log; a log that cannot be read has none.
pub open spec fn parsed_file(content: Option<String>) -> Seq<(Seq<char>, Seq<char>)> {
    match content {
        Some(c) => parsed(c@),
        None => Seq::empty(),
    }
}

/// The line of the log for one session.
pub fn wal_line(host: &str, session: &str) -> (res: String)
    ensures
        res@ == entry_line(host@, session@),
{
    let mut out: String = host.to_owned();
    out.push(':');
    out.append(session);
    out.push('\n');
    assert(out@ =~= entry_line(host@, session@));
    out
}

/// The entries of what was read of the log.
pub fn read_entries(content: &Option<String>) -> (res: Vec<WalEntry>)
    ensures
        entries_view(res@) == parsed_file(*content),
{
    let mut out: Vec<WalEntry> = Vec::new();
    assert(entries_view(out@) =~= Seq::empty());
    if let Some(c) = content {
        let lines = text::lines(c.as_str());
        let ghost all = text::lines_of(c@);
        let mut i: usize = 0;
        while i < lines.len()
            invariant
                i <= lines@.len(),
                text::texts(lines@) == all,
                entries_view(out@) == parsed_lines(all.take(i as int)),
            decreases lines@.len() - i,
        {
            let ghost before = entries_view(out@);
            assert(all.take(i + 1).drop_last() =~= all.take(i as int));
            assert(all.take(i + 1).last() == lines@[i as int]@);
            if let Some((host, session)) = text::split_once(lines[i].as_str(), ':') {
                let entry = WalEntry { host, session };
                let ghost e = entry@;
                out.push(entry);
                assert(entries_view(out@) =~= before.push(e));
            }
            i += 1;
        }
        assert(all.take(i as int) =~= all);
    }
    out
}

/// The log that holds these entries.
pub fn write_entries(entries: &Vec<WalEntry>) -> (res: String)
    ensures
        res@ == rendered(entries_view(entries@)),
{
    let ghost all = entries_view(entries@);
    let mut out: String = String::new();
    let mut i: usize = 0;
    while i < entries.len()
        invariant
            i <= entries@.len(),
            all == entries_view(entries@),
            out@ == rendered(all.take(i as int)),
        decreases entries@.len() - i,
    {
        assert(all.take(i + 1).drop_last() =~= all.take(i as int));
        out.append(wal_line(entries[i].host.as_str(), entries[i].session.as_str()).as_str());
        i += 1;
    }
    assert(all.take(i as int) =~= all);
    out
}

/// The log can hold the entry: its host has no colon, and its line is one line
/// that does not end in a carriage return.
pub open spec fn is_storable(entry: (Seq<char>, Seq<char>)) -> bool {
    &&& !entry.0.contains(':')
    &&& !entry.0.contains('\n')
    &&& !entry.1.contains('\n')
    &&& entry.1.len() > 0 ==> entry.1.last() != '\r'
}

/// Every line of the log is ended by a newline.
pub open spec fn is_complete(content: Seq<char>) -> bool {
    content.len() > 0 ==> content.last() == '\n'
}

/// A line that is added to a complete log adds its entry, and changes none of
/// the others.
pub proof fn appending_a_line_adds_its_entry(content: Seq<char>, entry: (Seq<char>, Seq<char>))
    requires
        is_complete(content),
        is_storable(entry),
    ensures
        parsed(content + entry_line(entry.0, entry.1)) == parsed(content).push(entry),
        is_complete(content + entry_line(entry.0, entry.1)),
{
    let line = entry.0 + seq![':'] + entry.1;
    assert(entry_line(entry.0, entry.1) =~= line.push('\n'));
    assert forall|i: int| 0 <= i < line.len() implies line[i] != '\n' by {
        if i < entry.0.len() {
            assert(line[i] == entry.0[i]);
        } else if i > entry.0.len() {
            assert(line[i] == entry.1[i - entry.0.len() - 1]);
        }
    }
    text::a_newline_ends_a_line(content, line);
    assert(content + line + seq!['\n'] =~= content + entry_line(entry.0, entry.1));
    assert(text::chomped(line) == line) by {
        if entry.1.len() > 0 {
            assert(line.last() == entry.1.last());
        } else {
            assert(line.last() == ':');
        }
    }
    let lines = text::lines_of(content);
    assert(lines.push(line).drop_last() =~= lines);
    text::lemma_split_first(line, ':', entry.0.len() as int);
    assert(line.take(entry.0.len() as int) =~= entry.0);
    assert(line.skip(entry.0.len() as int + 1) =~= entry.1);
}

/// Reading the log gives back the entries that were written to it.
pub proof fn reading_gives_back_what_was_written(entries: Seq<(Seq<char>, Seq<char>)>)
    requires
        forall|i: int| 0 <= i < entries.len() ==> is_storable(#[trigger] entries[i]),
    ensures
        parsed(rendered(entries)) == entries,
        is_complete(rendered(entries)),
    decreases entries.len(),
{
    if entries.len() == 0 {
        assert(parsed(rendered(entries)) =~= entries);
    } else {
        let init = entries.drop_last();
        assert forall|i: int| 0 <= i < init.len() implies is_storable(#[trigger] init[i]) by {
            assert(init[i] == entries[i]);
        }
        reading_gives_back_what_was_written(init);
        assert(is_storable(entries[entries.len() - 1]));
        appending_a_line_adds_its_entry(rendered(init), entries.last());
        assert(init.push(entries.last()) =~= entries);
    }
}

// ------------------------------------------------------------------- filters
/// The session was killed.
pub open spec fn was_killed(outcomes: Seq<(Seq<char>, Option<Seq<char>>)>, session: Seq<char>) -> bool {
    exists|i: int| 0 <= i < outcomes.len() && (#[trigger] outcomes[i]).0 == session && outcomes[i].1 is None
}

/// An entry stays after the sessions of `host` were killed with these outcomes.
pub open spec fn not_killed(host: Seq<char>, outcomes: Seq<(Seq<char>, Option<Seq<char>>)>) -> spec_fn((Seq<char>, Seq<char>)) -> bool {
    |e: (Seq<char>, Seq<char>)| e.0 != host || !was_killed(outcomes, e.1)
}

/// An entry is none of `host` with one of the sessions.
pub open spec fn not_among(host: Seq<char>, sessions: Seq<Seq<char>>) -> spec_fn((Seq<char>, Seq<char>)) -> bool {
    |e: (Seq<char>, Seq<char>)| e.0 != host || !sessions.contains(e.1)
}

/// An entry is one of `host`.
pub open spec fn on_host(host: Seq<char>) -> spec_fn((Seq<char>, Seq<char>)) -> bool {
    |e: (Seq<char>, Seq<char>)| e.0 == host
}

/// The entries but for the ones of `host` whose session was killed.
pub open spec fn still_pending(
    entries: Seq<(Seq<char>, Seq<char>)>,
    host: Seq<char>,
    outcomes: Seq<(Seq<char>, Option<Seq<char>>)>,
) -> Seq<(Seq<char>, Seq<char>)> {
    entries.filter(not_killed(host, outcomes))
}

/// The entries but for the ones of `host` with one of the sessions.
pub open spec fn without(
    entries: Seq<(Seq<char>, Seq<char>)>,
    host: Seq<char>,
    sessions: Seq<Seq<char>>,
) -> Seq<(Seq<char>, Seq<char>)> {
    entries.filter(not_among(host, sessions))
}

/// The entries of `host`.
pub open spec fn pending_for(entries: Seq<(Seq<char>, Seq<char>)>, host: Seq<char>) -> Seq<(Seq<char>, Seq<char>)> {
    entries.filter(on_host(host))
}

/// The sessions of a list of entries.
pub open spec fn sessions_of(entries: Seq<(Seq<char>, Seq<char>)>) -> Seq<Seq<char>> {
    Seq::new(entries.len(), |i: int| entries[i].1)
}

/// Whether the session was killed.
fn killed(outcomes: &Vec<session::Outcome>, name: &str) -> (res: bool)
    ensures
        res == was_killed(session::outcomes_view(outcomes@), name@),
{
    let ghost all = session::outcomes_view(outcomes@);
    let mut i: usize = 0;
    while i < outcomes.len()
        invariant
            i <= outcomes@.len(),
            all == session::outcomes_view(outcomes@),
            forall|k: int| 0 <= k < i ==> !((#[trigger] all[k]).0 == name@ && all[k].1 is None),
        decreases outcomes@.len() - i,
    {
        assert(all[i as int].0 == outcomes@[i as int].0@);
        if text::same_text(outcomes[i].0.as_str(), name) && outcomes[i].1.is_none() {
            assert(all[i as int].1 is None);
            return true;
        }
        i += 1;
    }
    false
}

/// Drop the entries whose session was killed, keeping the ones that failed so
/// a later connect retries them. Entries for other hosts are left untouched.
pub fn remaining_after(entries: Vec<WalEntry>, host: &str, outcomes: &Vec<session::Outcome>) -> (res: Vec<WalEntry>)
    ensures
        entries_view(res@) == still_pending(entries_view(entries@), host@, session::outcomes_view(outcomes@)),
{
    let ghost all = entries_view(entries@);
    let ghost keep = not_killed(host@, session::outcomes_view(outcomes@));
    let mut out: Vec<WalEntry> = Vec::new();
    let mut i: usize = 0;
    assert(entries_view(out@) =~= all.take(0).filter(keep)) by {
        reveal(Seq::filter);
    }
    while i < entries.len()
        invariant
            i <= entries@.len(),
            all == entries_view(entries@),
            keep == not_killed(host@, session::outcomes_view(outcomes@)),
            entries_view(out@) == all.take(i as int).filter(keep),
        decreases entries@.len() - i,
    {
        proof {
            all.take(i as int).lemma_filter_push(all[i as int], keep);
            assert(all.take(i + 1) =~= all.take(i as int).push(all[i as int]));
        }
        let ghost before = entries_view(out@);
        if !text::same_text(entries[i].host.as_str(), host) || !killed(outcomes, entries[i].session.as_str()) {
            out.push(entries[i].clone());
            assert(entries_view(out@) =~= before.push(all[i as int]));
        }
        i += 1;
    }
    assert(all.take(i as int) =~= all);
    out
}

/// Drop the entries of the host for these sessions.
pub fn without_sessions(entries: Vec<WalEntry>, host: &str, sessions: &Vec<String>) -> (res: Vec<WalEntry>)
    ensures
        entries_view(res@) == without(entries_view(entries@), host@, text::texts(sessions@)),
{
    let ghost all = entries_view(entries@);
    let ghost keep = not_among(host@, text::texts(sessions@));
    let mut out: Vec<WalEntry> = Vec::new();
    let mut i: usize = 0;
    assert(entries_view(out@) =~= all.take(0).filter(keep)) by {
        reveal(Seq::filter);
    }
    while i < entries.len()
        invariant
            i <= entries@.len(),
            all == entries_view(entries@),
            keep == not_among(host@, text::texts(sessions@)),
            entries_view(out@) == all.take(i as int).filter(keep),
        decreases entries@.len() - i,
    {
        proof {
            all.take(i as int).lemma_filter_push(all[i as int], keep);
            assert(all.take(i + 1) =~= all.take(i as int).push(all[i as int]));
        }
        let ghost before = entries_view(out@);
        if !text::same_text(entries[i].host.as_str(), host) || !text::contains_text(sessions, entries[i].session.as_str()) {
            out.push(entries[i].clone());
            assert(entries_view(out@) =~= before.push(all[i as int]));
        }
        i += 1;
    }
    assert(all.take(i as int) =~= all);
    out
}

/// The sessions of the entries of the host, in order.
pub fn pending_sessions(entries: &Vec<WalEntry>, host: &str) -> (res: Vec<String>)
    ensures
        text::texts(res@) == sessions_of(pending_for(entries_view(entries@), host@)),
{
    let ghost all = entries_view(entries@);
    let ghost keep = on_host(host@);
    let mut out: Vec<String> = Vec::new();
    let mut i: usize = 0;
    assert(text::texts(out@) =~= sessions_of(all.take(0).filter(keep))) by {
        reveal(Seq::filter);
    }
    while i < entries.len()
        invariant
            i <= entries@.len(),
            all == entries_view(entries@),
            keep == on_host(host@),
            text::texts(out@) == sessions_of(all.take(i as int).filter(keep)),
        decreases entries@.len() - i,
    {
        proof {
            all.take(i as int).lemma_filter_push(all[i as int], keep);
            assert(all.take(i + 1) =~= all.take(i as int).push(all[i as int]));
        }
        let ghost before = text::texts(out@);
        let ghost kept = all.take(i as int).filter(keep);
        if text::same_text(entries[i].host.as_str(), host) {
            out.push(entries[i].session.clone());
            assert(text::texts(out@) =~= before.push(all[i as int].1));
            assert(sessions_of(kept.push(all[i as int])) =~= sessions_of(kept).push(all[i as int].1));
        }
        i += 1;
    }
    assert(all.take(i as int) =~= all);
    out
}

// --------------------------------------------------------------------- steps
/// What came of a step.
#[derive(Debug)]
pub enum WalReply {
    /// The log was read; `None` if it could not be.
    Content(Option<String>),
    /// The log was written, or could not be.
    Written(bool),
    /// The sessions were killed, or not, with these outcomes.
    Killed(Vec<session::Outcome>),
}

/// Every session was killed.
pub open spec fn all_killed(outcomes: Seq<session::Outcome>) -> bool {
    forall|i: int| 0 <= i < outcomes.len() ==> (#[trigger] outcomes[i]).1 is None
}

/// What is next to do to record that a session is to be closed, and to close
/// it.
#[derive(Debug)]
pub enum RecordStep {
    /// Read the log.
    Read,
    /// Write the log, with the session added.
    Write { content: String },
    /// Kill these sessions of the host; there is one.
    Kill { names: Vec<String> },
    /// Read the log again.
    ReadAgain,
    /// Write the log, without the session.
    Rewrite { content: String },
    Done,
}

/// The log without any entry for the session.
pub fn remove_entry(content: &Option<String>, host: &str, session_name: &str) -> (res: String)
    ensures
        res@ == rendered(without(parsed_file(*content), host@, seq![session_name@])),
{
    let mut gone: Vec<String> = Vec::new();
    gone.push(session_name.to_owned());
    assert(text::texts(gone@) =~= seq![session_name@]);
    write_entries(&without_sessions(read_entries(content), host, &gone))
}

/// The log with an entry for the session added at its end.
pub fn add_entry(content: &Option<String>, host: &str, session_name: &str) -> (res: String)
    ensures
        res@ == rendered(parsed_file(*content).push((host@, session_name@))),
{
    let mut entries = read_entries(content);
    let ghost before = entries_view(entries@);
    entries.push(WalEntry { host: host.to_owned(), session: session_name.to_owned() });
    assert(entries_view(entries@) =~= before.push((host@, session_name@)));
    write_entries(&entries)
}

impl RecordStep {
    /// `next` is what to do after `self` was done and `reply` came of it. A
    /// reply that does not answer the step changes nothing.
    pub open spec fn leads_to(self, host: Seq<char>, session: Seq<char>, reply: WalReply, next: RecordStep) -> bool {
        match (self, reply) {
            (RecordStep::Read, WalReply::Content(read)) => {
                next matches RecordStep::Write { content } && content@ == rendered(parsed_file(read).push((host, session)))
            },
            (RecordStep::Write { .. }, WalReply::Written(true)) => {
                next matches RecordStep::Kill { names } && text::texts(names@) == seq![session]
            },
            (RecordStep::Write { .. }, WalReply::Written(false)) => next == RecordStep::Done,
            (RecordStep::Kill { .. }, WalReply::Killed(outcomes)) => next == if all_killed(outcomes@) {
                RecordStep::ReadAgain
            } else {
                RecordStep::Done
            },
            (RecordStep::ReadAgain, WalReply::Content(read)) => {
                next matches RecordStep::Rewrite { content } && content@ == rendered(
                    without(parsed_file(read), host, seq![session]),
                )
            },
            (RecordStep::Rewrite { .. }, WalReply::Written(_)) => next == RecordStep::Done,
            _ => next == self,
        }
    }
}

/// Record that a session should be closed, and close it, step by step from
/// `RecordStep::Read` on. The session is killed at once; if that fails the entry
/// stays for replay on the next connect.
pub fn record_close(step: RecordStep, host: &str, session_name: &str, reply: WalReply) -> (res: RecordStep)
    ensures
        step.leads_to(host@, session_name@, reply, res),
{
    match (step, reply) {
        (RecordStep::Read, WalReply::Content(read)) => RecordStep::Write { content: add_entry(&read, host, session_name) },
        (RecordStep::Write { .. }, WalReply::Written(ok)) => if ok {
            let mut names: Vec<String> = Vec::new();
            names.push(session_name.to_owned());
            assert(text::texts(names@) =~= seq![session_name@]);
            RecordStep::Kill { names }
        } else {
            RecordStep::Done
        },
        (RecordStep::Kill { .. }, WalReply::Killed(outcomes)) => if session::kill_sessions(&outcomes).is_ok() {
            RecordStep::ReadAgain
        } else {
            RecordStep::Done
        },
        (RecordStep::ReadAgain, WalReply::Content(read)) => RecordStep::Rewrite {
            content: remove_entry(&read, host, session_name),
        },
        (RecordStep::Rewrite { .. }, WalReply::Written(_)) => RecordStep::Done,
        (step, _) => step,
    }
}

/// What is next to do to catch up on the sessions that a host should have lost.
#[derive(Debug)]
pub enum ReplayStep {
    /// Read the log.
    Read,
    /// Kill these sessions of the host. `entries` is what the log held.
    Kill { names: Vec<String>, entries: Vec<WalEntry> },
    /// Write the log.
    Write { content: String },
    Done,
}

impl ReplayStep {
    /// `next` is what to do after `self` was done and `reply` came of it. A
    /// reply that does not answer the step changes nothing.
    pub open spec fn leads_to(self, host: Seq<char>, reply: WalReply, next: ReplayStep) -> bool {
        match (self, reply) {
            (ReplayStep::Read, WalReply::Content(read)) => {
                let pending = pending_for(parsed_file(read), host);
                if pending.len() == 0 {
                    next == ReplayStep::Done
                } else {
                    next matches ReplayStep::Kill { names, entries } && text::texts(names@) == sessions_of(pending)
                        && entries_view(entries@) == parsed_file(read)
                }
            },
            (ReplayStep::Kill { entries, .. }, WalReply::Killed(outcomes)) => {
                next matches ReplayStep::Write { content } && content@ == rendered(
                    still_pending(entries_view(entries@), host, session::outcomes_view(outcomes@)),
                )
            },
            (ReplayStep::Write { .. }, WalReply::Written(_)) => next == ReplayStep::Done,
            _ => next == self,
        }
    }
}

/// Replay the pending close operations for a host, step by step from
/// `ReplayStep::Read` on. Called on connect.
pub fn replay(step: ReplayStep, host: &str, reply: WalReply) -> (res: ReplayStep)
    ensures
        step.leads_to(host@, reply, res),
{
    match (step, reply) {
        (ReplayStep::Read, WalReply::Content(read)) => {
            let entries = read_entries(&read);
            let names = pending_sessions(&entries, host);
            assert(text::texts(names@).len() == names@.len());
            if names.len() == 0 {
                ReplayStep::Done
            } else {
                ReplayStep::Kill { names, entries }
            }
        },
        (ReplayStep::Kill { entries, .. }, WalReply::Killed(outcomes)) => {
            let remaining = remaining_after(entries, host, &outcomes);
            ReplayStep::Write { content: write_entries(&remaining) }
        },
        (ReplayStep::Write { .. }, WalReply::Written(_)) => ReplayStep::Done,
        (step, _) => step,
    }
}

/// The log without the pending close entries for sessions that are now gone.
/// Called by the command that kills sessions, which is both a user-facing
/// command and the process the close signal hands the kill to.
pub fn forget(content: &Option<String>, host: &str, sessions: &Vec<String>) -> (res: String)
    ensures
        res@ == rendered(without(parsed_file(*content), host@, text::texts(sessions@))),
{
    write_entries(&without_sessions(read_entries(content), host, sessions))
}

// ---------------------------------------------------------------------- laws
/// Whatever a replay for one host does, the entries of every other host stay,
/// in order.
pub proof fn replay_spares_other_hosts(
    entries: Seq<(Seq<char>, Seq<char>)>,
    host: Seq<char>,
    outcomes: Seq<(Seq<char>, Option<Seq<char>>)>,
    other: Seq<char>,
)
    requires
        other != host,
    ensures
        pending_for(still_pending(entries, host, outcomes), other) == pending_for(entries, other),
{
    filters::lemma_filter_absorbs(
        entries,
        not_killed(host, outcomes),
        on_host(other),
    );
}

/// After a replay an entry is in the log if and only if it was before and is
/// not one of the host whose session was killed: what failed stays pending, and
/// what was killed is gone.
pub proof fn replay_keeps_what_failed(
    entries: Seq<(Seq<char>, Seq<char>)>,
    host: Seq<char>,
    outcomes: Seq<(Seq<char>, Option<Seq<char>>)>,
    entry: (Seq<char>, Seq<char>),
)
    ensures
        still_pending(entries, host, outcomes).contains(entry) <==> entries.contains(entry) && (entry.0 != host || !was_killed(
            outcomes,
            entry.1,
        )),
{
    let keep = not_killed(host, outcomes);
    filters::lemma_filter_members(entries, keep, entry);
}

/// When every pending session of the host was killed, nothing is left for it.
pub proof fn replay_can_finish(
    entries: Seq<(Seq<char>, Seq<char>)>,
    host: Seq<char>,
    outcomes: Seq<(Seq<char>, Option<Seq<char>>)>,
)
    requires
        forall|i: int| 0 <= i < entries.len() && (#[trigger] entries[i]).0 == host ==> was_killed(outcomes, entries[i].1),
    ensures
        pending_for(still_pending(entries, host, outcomes), host).len() == 0,
{
    filters::lemma_filter_excludes(
        entries,
        not_killed(host, outcomes),
        on_host(host),
    );
}

/// Forgetting sessions of one host spares the entries of every other host.
pub proof fn forgetting_spares_other_hosts(
    entries: Seq<(Seq<char>, Seq<char>)>,
    host: Seq<char>,
    sessions: Seq<Seq<char>>,
    other: Seq<char>,
)
    requires
        other != host,
    ensures
        pending_for(without(entries, host, sessions), other) == pending_for(entries, other),
{
    filters::lemma_filter_absorbs(
        entries,
        not_among(host, sessions),
        on_host(other),
    );
}

/// Forgetting drops every entry of the host for one of the sessions, however
/// often it was recorded, and no other entry.
pub proof fn forgetting_drops_exactly_the_sessions(
    entries: Seq<(Seq<char>, Seq<char>)>,
    host: Seq<char>,
    sessions: Seq<Seq<char>>,
    entry: (Seq<char>, Seq<char>),
)
    ensures
        without(entries, host, sessions).contains(entry) <==> entries.contains(entry) && !(entry.0 == host && sessions.contains(
            entry.1,
        )),
{
    filters::lemma_filter_members(entries, not_among(host, sessions), entry);
}

/// Forgetting twice is forgetting once.
pub proof fn forgetting_is_idempotent(entries: Seq<(Seq<char>, Seq<char>)>, host: Seq<char>, sessions: Seq<Seq<char>>)
    ensures
        without(without(entries, host, sessions), host, sessions) == without(entries, host, sessions),
{
    let keep = not_among(host, sessions);
    filters::lemma_filter_absorbs(entries, keep, keep);
}

/// What is written to the log is complete.
proof fn lemma_rendered_complete(entries: Seq<(Seq<char>, Seq<char>)>)
    ensures
        is_complete(rendered(entries)),
{
}

/// The entries of a log have no colon in the host and no newline.
proof fn lemma_parsed_clean(lines: Seq<Seq<char>>)
    requires
        forall|i: int| 0 <= i < lines.len() ==> !(#[trigger] lines[i]).contains('\n'),
    ensures
        forall|i: int|
            0 <= i < parsed_lines(lines).len() ==> {
                let e = #[trigger] parsed_lines(lines)[i];
                !e.0.contains(':') && !e.0.contains('\n') && !e.1.contains('\n')
            },
    decreases lines.len(),
{
    if lines.len() > 0 {
        let init = lines.drop_last();
        let line = lines.last();
        assert forall|i: int| 0 <= i < init.len() implies !(#[trigger] init[i]).contains('\n') by {
            assert(init[i] == lines[i]);
        }
        lemma_parsed_clean(init);
        text::lemma_split_first_parts(line, ':');
        assert(!lines[lines.len() - 1].contains('\n'));
        if let Some((host, session)) = text::split_first(line, ':') {
            assert forall|k: int| 0 <= k < host.len() implies host[k] != '\n' by {
                assert(line[k] == host[k]);
            }
            assert forall|k: int| 0 <= k < session.len() implies session[k] != '\n' by {
                assert(line[host.len() + 1 + k] == session[k]);
            }
        }
        let before = parsed_lines(init);
        assert forall|i: int| 0 <= i < parsed_lines(lines).len() implies {
            let e = #[trigger] parsed_lines(lines)[i];
            !e.0.contains(':') && !e.0.contains('\n') && !e.1.contains('\n')
        } by {
            if i < before.len() {
                assert(parsed_lines(lines)[i] == before[i]);
            }
        }
    }
}

/// The line of the entry keeps its end when it is read back.
pub open spec fn keeps_its_end(entry: (Seq<char>, Seq<char>)) -> bool {
    entry.1.len() > 0 ==> entry.1.last() != '\r'
}

/// What was read from a log can be written to it again, unless a session ends
/// in a carriage return.
pub proof fn entries_can_be_stored_again(content: Seq<char>)
    requires
        forall|i: int| 0 <= i < parsed(content).len() ==> keeps_its_end(#[trigger] parsed(content)[i]),
    ensures
        forall|i: int| 0 <= i < parsed(content).len() ==> is_storable(#[trigger] parsed(content)[i]),
{
    text::lemma_lines_clean(content);
    lemma_parsed_clean(text::lines_of(content));
}

/// The step asks to kill the session.
pub open spec fn asks_to_kill(step: ReplayStep, session: Seq<char>) -> bool {
    step matches ReplayStep::Kill { names, .. } && text::texts(names@).contains(session)
}

/// The replay of a log asks to kill exactly the sessions that the log holds for
/// the host.
pub proof fn a_replay_kills_what_is_pending(read: Option<String>, host: Seq<char>, replayed: ReplayStep, session: Seq<char>)
    requires
        ReplayStep::Read.leads_to(host, WalReply::Content(read), replayed),
    ensures
        asks_to_kill(replayed, session) <==> parsed_file(read).contains((host, session)),
{
    let pending = pending_for(parsed_file(read), host);
    filters::lemma_filter_members(parsed_file(read), on_host(host), (host, session));
    if pending.contains((host, session)) {
        let i = choose|i: int| 0 <= i < pending.len() && pending[i] == (host, session);
        assert(sessions_of(pending)[i] == session);
    }
    if sessions_of(pending).contains(session) {
        let i = choose|i: int| 0 <= i < pending.len() && sessions_of(pending)[i] == session;
        filters::lemma_filter_members(parsed_file(read), on_host(host), pending[i]);
        assert(pending.contains(pending[i]));
        assert(pending[i] == (host, session));
    }
}

/// A close that was recorded and did not get any further is replayed on the
/// next connect to that host: the log that was written makes the replay kill
/// the session.
pub proof fn a_recorded_close_is_replayed(
    read: Option<String>,
    host: Seq<char>,
    session: Seq<char>,
    recorded: RecordStep,
    log: String,
    replayed: ReplayStep,
)
    requires
        is_storable((host, session)),
        RecordStep::Read.leads_to(host, session, WalReply::Content(read), recorded),
        recorded matches RecordStep::Write { content } && content@ == log@,
        ReplayStep::Read.leads_to(host, WalReply::Content(Some(log)), replayed),
    ensures
        asks_to_kill(replayed, session),
{
    let before = parsed_file(read);
    lemma_entry_added(before, host, session);
    lemma_last_is_in(parsed(rendered(before)), (host, session));
    a_replay_kills_what_is_pending(Some(log), host, replayed, session);
}

proof fn lemma_last_is_in(entries: Seq<(Seq<char>, Seq<char>)>, entry: (Seq<char>, Seq<char>))
    ensures
        entries.push(entry).contains(entry),
{
    assert(entries.push(entry)[entries.len() as int] == entry);
}

proof fn lemma_entry_added(before: Seq<(Seq<char>, Seq<char>)>, host: Seq<char>, session: Seq<char>)
    requires
        is_storable((host, session)),
    ensures
        parsed(rendered(before.push((host, session)))) == parsed(rendered(before)).push((host, session)),
{
    lemma_rendered_complete(before);
    appending_a_line_adds_its_entry(rendered(before), (host, session));
    assert(before.push((host, session)).drop_last() =~= before);
}

/// The line that a close signal appends to a complete log is replayed on the
/// next connect to that host.
pub proof fn a_signalled_close_is_replayed(
    content: Seq<char>,
    host: Seq<char>,
    session: Seq<char>,
    log: String,
    replayed: ReplayStep,
)
    requires
        is_complete(content),
        is_storable((host, session)),
        log@ == content + entry_line(host, session),
        ReplayStep::Read.leads_to(host, WalReply::Content(Some(log)), replayed),
    ensures
        asks_to_kill(replayed, session),
{
    appending_a_line_adds_its_entry(content, (host, session));
    lemma_last_is_in(parsed(content), (host, session));
    a_replay_kills_what_is_pending(Some(log), host, replayed, session);
}

/// The steps follow from each other by the replies, from the reading on.
pub open spec fn is_record_run(
    host: Seq<char>,
    session: Seq<char>,
    steps: Seq<RecordStep>,
    replies: Seq<WalReply>,
) -> bool {
    &&& steps.len() == replies.len() + 1
    &&& steps[0] == RecordStep::Read
    &&& forall|i: int| 0 <= i < replies.len() ==> (#[trigger] steps[i]).leads_to(host, session, replies[i], steps[i + 1])
}

/// The step writes a log that holds the session.
pub open spec fn writes_entry(host: Seq<char>, session: Seq<char>, step: RecordStep) -> bool {
    step matches RecordStep::Write { content } && parsed(content@).contains((host, session))
}

proof fn lemma_writes_entry(
    host: Seq<char>,
    session: Seq<char>,
    steps: Seq<RecordStep>,
    replies: Seq<WalReply>,
    at: int,
)
    requires
        is_storable((host, session)),
        is_record_run(host, session, steps, replies),
        0 <= at < steps.len(),
        steps[at] is Write,
    ensures
        writes_entry(host, session, steps[at]),
    decreases at,
{
    let prev = steps[at - 1];
    assert(prev.leads_to(host, session, replies[at - 1], steps[at - 1 + 1]));
    if prev is Write {
        lemma_writes_entry(host, session, steps, replies, at - 1);
    } else {
        let before = parsed_file(replies[at - 1]->Content_0);
        lemma_entry_added(before, host, session);
        lemma_last_is_in(parsed(rendered(before)), (host, session));
    }
}

/// A session is killed only after a log that holds it was written.
pub proof fn a_close_is_recorded_before_the_kill(
    host: Seq<char>,
    session: Seq<char>,
    steps: Seq<RecordStep>,
    replies: Seq<WalReply>,
    at: int,
)
    requires
        is_storable((host, session)),
        is_record_run(host, session, steps, replies),
        0 <= at < steps.len(),
        steps[at] is Kill,
    ensures
        exists|i: int|
            0 <= i < at && writes_entry(host, session, #[trigger] steps[i]) && replies[i] == WalReply::Written(true),
    decreases at,
{
    let prev = steps[at - 1];
    assert(prev.leads_to(host, session, replies[at - 1], steps[at - 1 + 1]));
    if prev is Kill {
        a_close_is_recorded_before_the_kill(host, session, steps, replies, at - 1);
    } else {
        lemma_writes_entry(host, session, steps, replies, at - 1);
    }
}

/// The entry is taken out of the log only after the session was killed; if that
/// failed it stays.
pub proof fn an_entry_goes_only_after_the_kill(
    host: Seq<char>,
    session: Seq<char>,
    steps: Seq<RecordStep>,
    replies: Seq<WalReply>,
    at: int,
)
    requires
        is_record_run(host, session, steps, replies),
        0 <= at < steps.len(),
        steps[at] is ReadAgain || steps[at] is Rewrite,
    ensures
        exists|i: int|
            0 <= i < at && (#[trigger] steps[i]) is Kill && (replies[i] matches WalReply::Killed(outcomes) && all_killed(
                outcomes@,
            )),
    decreases at,
{
    let prev = steps[at - 1];
    assert(prev.leads_to(host, session, replies[at - 1], steps[at - 1 + 1]));
    if !(prev is Kill) {
        an_entry_goes_only_after_the_kill(host, session, steps, replies, at - 1);
    }
}

/// The entries that are left when some of those of a log are taken out can be
/// written to it again.
proof fn lemma_rest_is_stored(read: Option<String>, keep: spec_fn((Seq<char>, Seq<char>)) -> bool)
    requires
        forall|i: int| 0 <= i < parsed_file(read).len() ==> keeps_its_end(#[trigger] parsed_file(read)[i]),
    ensures
        parsed(rendered(parsed_file(read).filter(keep))) == parsed_file(read).filter(keep),
{
    let before = parsed_file(read);
    let after = before.filter(keep);
    if let Some(content) = read {
        entries_can_be_stored_again(content@);
    }
    assert forall|i: int| 0 <= i < after.len() implies is_storable(#[trigger] after[i]) by {
        filters::lemma_filter_members(before, keep, after[i]);
        assert(before.contains(after[i]));
    }
    reading_gives_back_what_was_written(after);
}

/// A close that was recorded and whose session was then killed leaves no entry
/// for that session behind, and every other entry as it was.
pub proof fn a_finished_close_leaves_no_entry(
    read: Option<String>,
    host: Seq<char>,
    session: Seq<char>,
    rewritten: RecordStep,
)
    requires
        forall|i: int| 0 <= i < parsed_file(read).len() ==> keeps_its_end(#[trigger] parsed_file(read)[i]),
        RecordStep::ReadAgain.leads_to(host, session, WalReply::Content(read), rewritten),
    ensures
        rewritten matches RecordStep::Rewrite { content } && {
            &&& !parsed(content@).contains((host, session))
            &&& parsed(content@) == without(parsed_file(read), host, seq![session])
        },
{
    lemma_rest_is_stored(read, not_among(host, seq![session]));
    forgetting_drops_exactly_the_sessions(parsed_file(read), host, seq![session], (host, session));
    assert(seq![session][0] == session);
}

/// What a replay could not kill is replayed again on the next connect, and what
/// it killed is not.
pub proof fn a_failed_kill_is_replayed_again(
    read: Option<String>,
    host: Seq<char>,
    replayed: ReplayStep,
    outcomes: Vec<session::Outcome>,
    written: ReplayStep,
    log: String,
    again: ReplayStep,
    session: Seq<char>,
)
    requires
        forall|i: int| 0 <= i < parsed_file(read).len() ==> keeps_its_end(#[trigger] parsed_file(read)[i]),
        ReplayStep::Read.leads_to(host, WalReply::Content(read), replayed),
        replayed is Kill,
        replayed.leads_to(host, WalReply::Killed(outcomes), written),
        written matches ReplayStep::Write { content } && content@ == log@,
        ReplayStep::Read.leads_to(host, WalReply::Content(Some(log)), again),
    ensures
        asks_to_kill(again, session) <==> asks_to_kill(replayed, session) && !was_killed(
            session::outcomes_view(outcomes@),
            session,
        ),
{
    let view = session::outcomes_view(outcomes@);
    lemma_rest_is_stored(read, not_killed(host, view));
    a_replay_kills_what_is_pending(read, host, replayed, session);
    a_replay_kills_what_is_pending(Some(log), host, again, session);
    replay_keeps_what_failed(parsed_file(read), host, view, (host, session));
}

/// Sessions that were forgotten are not replayed, and all others still are.
pub proof fn forgotten_sessions_are_not_replayed(
    read: Option<String>,
    host: Seq<char>,
    sessions: Seq<Seq<char>>,
    log: String,
    replayed: ReplayStep,
    session: Seq<char>,
)
    requires
        forall|i: int| 0 <= i < parsed_file(read).len() ==> keeps_its_end(#[trigger] parsed_file(read)[i]),
        log@ == rendered(without(parsed_file(read), host, sessions)),
        ReplayStep::Read.leads_to(host, WalReply::Content(Some(log)), replayed),
    ensures
        asks_to_kill(replayed, session) <==> parsed_file(read).contains((host, session)) && !sessions.contains(session),
{
    lemma_rest_is_stored(read, not_among(host, sessions));
    a_replay_kills_what_is_pending(Some(log), host, replayed, session);
    forgetting_drops_exactly_the_sessions(parsed_file(read), host, sessions, (host, session));
}

// ---------------------------------------------------------- laws of operations
/// The log is below the data directory that the environment names, or below the
/// home directory, or, without either, below `/tmp`; with one slash between the
/// parts.
pub proof fn the_log_is_in_the_data_directory(xdg_data_home: Option<&str>, home: Option<&str>, res: String)
    requires
        call_ensures(wal_path, (xdg_data_home, home), res),
    ensures
        match xdg_data_home {
            Some(dir) => if dir@.len() > 0 && dir@.last() != '/' {
                res@ == dir@ + "/sshr/close.wal"@
            } else {
                res@ == dir@ + "sshr/close.wal"@
            },
            None => match home {
                Some(dir) => if dir@.len() > 0 && dir@.last() != '/' {
                    res@ == dir@ + "/.local/share/sshr/close.wal"@
                } else {
                    res@ == dir@ + ".local/share/sshr/close.wal"@
                },
                None => res@ == "/tmp/.local/share/sshr/close.wal"@,
            },
        },
{
    reveal_strlit("sshr");
    reveal_strlit("close.wal");
    reveal_strlit("/tmp");
    reveal_strlit(".local/share");
    reveal_strlit("/sshr/close.wal");
    reveal_strlit("sshr/close.wal");
    reveal_strlit("/.local/share/sshr/close.wal");
    reveal_strlit(".local/share/sshr/close.wal");
    reveal_strlit("/tmp/.local/share/sshr/close.wal");
    match xdg_data_home {
        Some(dir) => {
            if dir@.len() > 0 && dir@.last() != '/' {
                assert(res@ =~= dir@ + "/sshr/close.wal"@);
            } else {
                assert(res@ =~= dir@ + "sshr/close.wal"@);
            }
        },
        None => match home {
            Some(dir) => {
                if dir@.len() > 0 && dir@.last() != '/' {
                    assert(res@ =~= dir@ + "/.local/share/sshr/close.wal"@);
                } else {
                    assert(res@ =~= dir@ + ".local/share/sshr/close.wal"@);
                }
            },
            None => {
                assert(res@ =~= "/tmp/.local/share/sshr/close.wal"@);
            },
        },
    }
}

/// A relative path is put below a directory with one slash between them, unless
/// the directory ends in one or is empty. The data directory is the one that the
/// environment names, or `.local/share` below the home directory or `/tmp`.
pub proof fn paths_are_joined_with_one_slash(
    base: &str,
    rest: &str,
    joined: String,
    xdg_data_home: Option<&str>,
    home: Option<&str>,
    dir: String,
)
    requires
        call_ensures(join_path, (base, rest), joined),
        call_ensures(data_dir, (xdg_data_home, home), dir),
    ensures
        base@.len() > 0 && base@.last() != '/' ==> joined@ == base@ + "/"@ + rest@,
        base@.len() == 0 || base@.last() == '/' ==> joined@ == base@ + rest@,
        xdg_data_home matches Some(d) ==> dir@ == d@,
        xdg_data_home is None && home is None ==> dir@ == "/tmp/.local/share"@,
        xdg_data_home is None && home is Some && home->0@.len() > 0 && home->0@.last() != '/' ==> dir@ == home->0@
            + "/.local/share"@,
{
    reveal_strlit("/");
    reveal_strlit("/tmp");
    reveal_strlit(".local/share");
    reveal_strlit("/.local/share");
    reveal_strlit("/tmp/.local/share");
    assert("/"@ =~= seq!['/']);
    if xdg_data_home is None {
        if home is None {
            assert(dir@ =~= "/tmp/.local/share"@);
        } else if home->0@.len() > 0 && home->0@.last() != '/' {
            assert(dir@ =~= home->0@ + "/.local/share"@);
        }
    }
}

/// The log holds one line for each entry, in order: the host, a colon, the
/// session and a newline.
pub proof fn the_log_has_a_line_for_each_entry(
    entries: &Vec<WalEntry>,
    host: &str,
    session: &str,
    line: String,
    res: String,
)
    requires
        call_ensures(write_entries, (entries,), res),
        call_ensures(wal_line, (host, session), line),
    ensures
        line@ == host@ + ":"@ + session@ + "\n"@,
        res@ == entries@.map_values(|e: WalEntry| e.host@ + ":"@ + e.session@ + "\n"@).flatten(),
{
    reveal_strlit(":");
    reveal_strlit("\n");
    assert(":"@ =~= seq![':']);
    assert("\n"@ =~= seq!['\n']);
    let f = |e: WalEntry| e.host@ + ":"@ + e.session@ + "\n"@;
    lemma_rendered_lines(entries@, f);
}

proof fn lemma_rendered_lines(entries: Seq<WalEntry>, f: spec_fn(WalEntry) -> Seq<char>)
    requires
        forall|e: WalEntry| #[trigger] f(e) == e.host@ + seq![':'] + e.session@ + seq!['\n'],
    ensures
        rendered(entries_view(entries)) == entries.map_values(f).flatten(),
    decreases entries.len(),
{
    if entries.len() > 0 {
        let init = entries.drop_last();
        lemma_rendered_lines(init, f);
        assert(entries_view(entries).drop_last() =~= entries_view(init));
        assert(entries.map_values(f) =~= init.map_values(f).push(f(entries.last())));
        init.map_values(f).lemma_flatten_push(f(entries.last()));
    }
}

/// What is read is the entries of the log, in order; a log that cannot be read
/// has none.
pub proof fn reading_gives_the_entries(content: &Option<String>, res: Vec<WalEntry>)
    requires
        call_ensures(read_entries, (content,), res),
    ensures
        match content {
            Some(c) => res@.len() == parsed(c@).len() && forall|i: int|
                0 <= i < res@.len() ==> #[trigger] parsed(c@)[i] == (res@[i].host@, res@[i].session@),
            None => res@.len() == 0,
        },
{
    assert(entries_view(res@).len() == res@.len());
    if content is Some {
        let c = content->0;
        assert forall|i: int| 0 <= i < res@.len() implies #[trigger] parsed(c@)[i] == (res@[i].host@, res@[i].session@) by {
            assert(entries_view(res@)[i] == parsed(c@)[i]);
        }
    }
}

/// A line is an entry if and only if it has a colon: what stands in front of the
/// first colon is the host, and the rest is the session. The line may end in a
/// newline, in a carriage return and a newline, or with the log.
pub proof fn lines_with_a_colon_are_entries(before: Seq<char>, line: Seq<char>, host: Seq<char>, session: Seq<char>)
    requires
        before.len() > 0 ==> before.last() == '\n',
        !line.contains('\n'),
        line.len() > 0 ==> line.last() != '\r',
    ensures
        parsed(Seq::empty()).len() == 0,
        !line.contains(':') ==> parsed(before + line + seq!['\n']) == parsed(before) && parsed(before + line + seq!['\r', '\n'])
            == parsed(before) && parsed(before + line) == parsed(before),
        line == host + seq![':'] + session && !host.contains(':') ==> parsed(before + line + seq!['\n']) == parsed(before).push(
            (host, session),
        ) && parsed(before + line + seq!['\r', '\n']) == parsed(before).push((host, session)) && parsed(before + line)
            == parsed(before).push((host, session)),
{
    let lines = text::lines_of(before);
    let returned = line.push('\r');
    assert forall|i: int| 0 <= i < returned.len() implies returned[i] != '\n' by {
        if i < line.len() {
            assert(returned[i] == line[i]);
        }
    }
    text::a_newline_ends_a_line(before, line);
    text::a_newline_ends_a_line(before, returned);
    assert(returned.drop_last() =~= line);
    assert(before + returned + seq!['\n'] =~= before + line + seq!['\r', '\n']);
    assert(lines.push(line).drop_last() =~= lines);
    if line.len() == 0 {
        assert(before + line =~= before);
    }
    if !line.contains(':') {
        text::lemma_split_first_none(line, ':');
    }
    if line == host + seq![':'] + session && !host.contains(':') {
        let at = host.len() as int;
        assert forall|k: int| 0 <= k < at implies line[k] != ':' by {
            assert(line[k] == host[k]);
        }
        text::lemma_split_first(line, ':', at);
        assert(line.take(at) =~= host);
        assert(line.skip(at + 1) =~= session);
    }
}

/// Of a line that ends in carriage returns and a newline only the last of them
/// belongs to the end of the line; the others stay with the session.
pub proof fn one_carriage_return_ends_a_line(before: Seq<char>, host: Seq<char>, session: Seq<char>)
    requires
        before.len() > 0 ==> before.last() == '\n',
        !host.contains(':'),
        !host.contains('\n'),
        !session.contains('\n'),
    ensures
        parsed(before + host + seq![':'] + session + seq!['\r', '\n']) == parsed(before).push((host, session)),
        parsed(before + host + seq![':'] + session) == parsed(before).push((host, session)),
{
    let line = host + seq![':'] + session;
    let returned = line.push('\r');
    let lines = text::lines_of(before);
    assert forall|i: int| 0 <= i < line.len() implies line[i] != '\n' by {
        if i < host.len() {
            assert(line[i] == host[i]);
        } else if i > host.len() {
            assert(line[i] == session[i - host.len() - 1]);
        }
    }
    assert forall|i: int| 0 <= i < returned.len() implies returned[i] != '\n' by {
        if i < line.len() {
            assert(returned[i] == line[i]);
        }
    }
    text::a_newline_ends_a_line(before, line);
    text::a_newline_ends_a_line(before, returned);
    assert(returned.drop_last() =~= line);
    assert(before + returned + seq!['\n'] =~= before + host + seq![':'] + session + seq!['\r', '\n']);
    assert(before + line =~= before + host + seq![':'] + session);
    assert(lines.push(line).drop_last() =~= lines);
    let at = host.len() as int;
    assert forall|k: int| 0 <= k < at implies line[k] != ':' by {
        assert(line[k] == host[k]);
    }
    text::lemma_split_first(line, ':', at);
    assert(line.take(at) =~= host);
    assert(line.skip(at + 1) =~= session);
}

/// Recording a close writes the log that was read with the close added at its
/// end. Every close that was pending stays pending, those of the same host among
/// them: reading the log that is written gives exactly the entries that were
/// read, in order, and behind them the new one.
pub proof fn recording_keeps_what_is_pending(
    read: Option<String>,
    host: &str,
    session_name: &str,
    entry: (Seq<char>, Seq<char>),
    res: RecordStep,
)
    requires
        call_ensures(record_close, (RecordStep::Read, host, session_name, WalReply::Content(read)), res),
    ensures
        res is Write,
        res->Write_content@ == rendered(parsed_file(read)) + host@ + ":"@ + session_name@ + "\n"@,
        is_storable((host@, session_name@)) && (forall|i: int|
            0 <= i < parsed_file(read).len() ==> keeps_its_end(#[trigger] parsed_file(read)[i])) ==> {
            &&& parsed(res->Write_content@) == parsed_file(read).push((host@, session_name@))
            &&& parsed_file(read).contains(entry) ==> parsed(res->Write_content@).contains(entry)
        },
{
    let before = parsed_file(read);
    let new = (host@, session_name@);
    reveal_strlit(":");
    reveal_strlit("\n");
    assert(":"@ =~= seq![':']);
    assert("\n"@ =~= seq!['\n']);
    assert(before.push(new).drop_last() =~= before);
    assert(rendered(before.push(new)) =~= rendered(before) + host@ + ":"@ + session_name@ + "\n"@);
    if is_storable(new) && (forall|i: int|
        0 <= i < parsed_file(read).len() ==> keeps_its_end(#[trigger] parsed_file(read)[i])) {
        if let Some(content) = read {
            entries_can_be_stored_again(content@);
        }
        reading_gives_back_what_was_written(before);
        lemma_entry_added(before, host@, session_name@);
        if before.contains(entry) {
            let i = choose|i: int| 0 <= i < before.len() && before[i] == entry;
            assert(before.push(new)[i] == entry);
        }
    }
}

/// A close that was recorded is acted on: exactly that session is killed. A
/// close that could not be recorded is not.
pub proof fn only_a_recorded_close_is_acted_on(
    step: RecordStep,
    host: &str,
    session_name: &str,
    written: bool,
    res: RecordStep,
)
    requires
        step is Write,
        call_ensures(record_close, (step, host, session_name, WalReply::Written(written)), res),
    ensures
        written ==> (res matches RecordStep::Kill { names } && names@.len() == 1 && names@[0]@ == session_name@),
        !written ==> res is Done,
{
    if written {
        let names = res->names;
        assert(text::texts(names@).len() == names@.len());
        assert(text::texts(names@)[0] == names@[0]@);
    }
}

/// The log is looked at again if and only if the session was killed; if it was
/// not, the log stays as it was written.
pub proof fn only_a_kill_reopens_the_log(
    step: RecordStep,
    host: &str,
    session_name: &str,
    outcomes: Vec<session::Outcome>,
    res: RecordStep,
)
    requires
        step is Kill,
        call_ensures(record_close, (step, host, session_name, WalReply::Killed(outcomes)), res),
    ensures
        (forall|i: int| 0 <= i < outcomes@.len() ==> (#[trigger] outcomes@[i]).1 is None) ==> res is ReadAgain,
        (exists|i: int| 0 <= i < outcomes@.len() && (#[trigger] outcomes@[i]).1 is Some) ==> res is Done,
{
}

/// After the kill the log is written without the session's entries for that
/// host, and with every other entry as it was, in order. That is the end of it.
pub proof fn a_killed_session_leaves_the_log(
    read: Option<String>,
    host: &str,
    session_name: &str,
    res: RecordStep,
    rewrite: RecordStep,
    written: bool,
    end: RecordStep,
)
    requires
        call_ensures(record_close, (RecordStep::ReadAgain, host, session_name, WalReply::Content(read)), res),
        rewrite is Rewrite,
        call_ensures(record_close, (rewrite, host, session_name, WalReply::Written(written)), end),
    ensures
        res matches RecordStep::Rewrite { content } && content@ == rendered(
            parsed_file(read).filter(|e: (Seq<char>, Seq<char>)| !(e.0 == host@ && e.1 == session_name@)),
        ),
        end is Done,
{
    let f = |e: (Seq<char>, Seq<char>)| !(e.0 == host@ && e.1 == session_name@);
    lemma_among_one(session_name@);
    assert(f =~= not_among(host@, seq![session_name@]));
}

proof fn lemma_among_one(session: Seq<char>)
    ensures
        forall|s: Seq<char>| #[trigger] seq![session].contains(s) <==> s == session,
{
    assert(seq![session][0] == session);
}

/// A reply that answers another step changes nothing.
pub proof fn stray_replies_change_nothing(
    step: RecordStep,
    replaying: ReplayStep,
    host: &str,
    session_name: &str,
    reply: WalReply,
    res: RecordStep,
    replayed: ReplayStep,
)
    requires
        call_ensures(record_close, (step, host, session_name, reply), res),
        call_ensures(replay, (replaying, host, reply), replayed),
    ensures
        (step is Read || step is ReadAgain) && !(reply is Content) ==> res == step,
        (step is Write || step is Rewrite) && !(reply is Written) ==> res == step,
        step is Kill && !(reply is Killed) ==> res == step,
        step is Done ==> res is Done,
        replaying is Read && !(reply is Content) ==> replayed == replaying,
        replaying is Kill && !(reply is Killed) ==> replayed == replaying,
        replaying is Write && !(reply is Written) ==> replayed == replaying,
        replaying is Done ==> replayed is Done,
{
}

/// A replay kills the sessions that the log holds for the host, each as often as
/// it is in the log and in that order, and remembers the whole log. Where the
/// log holds none there is nothing to do.
pub proof fn a_replay_asks_for_every_pending_close(read: Option<String>, host: &str, res: ReplayStep)
    requires
        call_ensures(replay, (ReplayStep::Read, host, WalReply::Content(read)), res),
    ensures
        ({
            let pending = parsed_file(read).filter(|e: (Seq<char>, Seq<char>)| e.0 == host@);
            if pending.len() == 0 {
                res is Done
            } else {
                res matches ReplayStep::Kill { names, entries } && {
                    &&& names@.len() == pending.len()
                    &&& forall|i: int| 0 <= i < pending.len() ==> #[trigger] names@[i]@ == pending[i].1
                    &&& entries@.len() == parsed_file(read).len()
                    &&& forall|i: int|
                        0 <= i < entries@.len() ==> #[trigger] parsed_file(read)[i] == (entries@[i].host@, entries@[i].session@)
                }
            }
        }),
{
    let f = |e: (Seq<char>, Seq<char>)| e.0 == host@;
    assert(f =~= on_host(host@));
    let pending = parsed_file(read).filter(f);
    if pending.len() > 0 {
        let names = res->names;
        let entries = res->entries;
        lemma_pending_names(names@, pending);
        assert(entries_view(entries@).len() == entries@.len());
        assert forall|i: int| 0 <= i < entries@.len() implies #[trigger] parsed_file(read)[i] == (
            entries@[i].host@,
            entries@[i].session@,
        ) by {
            assert(entries_view(entries@)[i] == parsed_file(read)[i]);
        }
    }
}

proof fn lemma_pending_names(list: Seq<String>, pending: Seq<(Seq<char>, Seq<char>)>)
    requires
        text::texts(list) == sessions_of(pending),
    ensures
        list.len() == pending.len(),
        forall|i: int| 0 <= i < pending.len() ==> #[trigger] list[i]@ == pending[i].1,
{
    assert(text::texts(list).len() == list.len());
    assert forall|i: int| 0 <= i < pending.len() implies #[trigger] list[i]@ == pending[i].1 by {
        assert(text::texts(list)[i] == sessions_of(pending)[i]);
    }
}

/// After a replay the log is written without the entries of the host whose
/// session was killed, and with every other entry as it was, in order. That is
/// the end of it.
pub proof fn a_replay_drops_what_was_killed(
    step: ReplayStep,
    host: &str,
    outcomes: Vec<session::Outcome>,
    res: ReplayStep,
    write: ReplayStep,
    written: bool,
    end: ReplayStep,
)
    requires
        step is Kill,
        call_ensures(replay, (step, host, WalReply::Killed(outcomes)), res),
        write is Write,
        call_ensures(replay, (write, host, WalReply::Written(written)), end),
    ensures
        res matches ReplayStep::Write { content } && content@ == rendered(
            entries_view(step->entries@).filter(
                |e: (Seq<char>, Seq<char>)|
                    !(e.0 == host@ && exists|i: int|
                        0 <= i < outcomes@.len() && #[trigger] outcomes@[i].0@ == e.1 && outcomes@[i].1 is None),
            ),
        ),
        end is Done,
{
    let f = |e: (Seq<char>, Seq<char>)|
        !(e.0 == host@ && exists|i: int|
            0 <= i < outcomes@.len() && #[trigger] outcomes@[i].0@ == e.1 && outcomes@[i].1 is None);
    lemma_killed(outcomes@);
    assert(f =~= not_killed(host@, session::outcomes_view(outcomes@)));
}

proof fn lemma_killed(outcomes: Seq<session::Outcome>)
    ensures
        forall|s: Seq<char>|
            #[trigger] was_killed(session::outcomes_view(outcomes), s) <==> exists|i: int|
                0 <= i < outcomes.len() && #[trigger] outcomes[i].0@ == s && outcomes[i].1 is None,
{
    let view = session::outcomes_view(outcomes);
    assert forall|s: Seq<char>| #[trigger] was_killed(view, s) <==> exists|i: int|
        0 <= i < outcomes.len() && #[trigger] outcomes[i].0@ == s && outcomes[i].1 is None by {
        if was_killed(view, s) {
            let i = choose|i: int| 0 <= i < view.len() && (#[trigger] view[i]).0 == s && view[i].1 is None;
            assert(outcomes[i].0@ == s && outcomes[i].1 is None);
        }
        if exists|i: int| 0 <= i < outcomes.len() && #[trigger] outcomes[i].0@ == s && outcomes[i].1 is None {
            let i = choose|i: int| 0 <= i < outcomes.len() && #[trigger] outcomes[i].0@ == s && outcomes[i].1 is None;
            assert(view[i].0 == s && view[i].1 is None);
        }
    }
}

proof fn lemma_among(list: Seq<String>)
    ensures
        forall|s: Seq<char>|
            #[trigger] text::texts(list).contains(s) <==> exists|i: int| 0 <= i < list.len() && #[trigger] list[i]@ == s,
{
    let all = text::texts(list);
    assert forall|s: Seq<char>| #[trigger] all.contains(s) <==> exists|i: int|
        0 <= i < list.len() && #[trigger] list[i]@ == s by {
        if all.contains(s) {
            let i = choose|i: int| 0 <= i < all.len() && all[i] == s;
            assert(list[i]@ == s);
        }
        if exists|i: int| 0 <= i < list.len() && #[trigger] list[i]@ == s {
            let i = choose|i: int| 0 <= i < list.len() && #[trigger] list[i]@ == s;
            assert(all[i] == s);
        }
    }
}

/// Forgetting writes the log without the entries of the host for any of the
/// sessions, and with every other entry as it was, in order.
pub proof fn forgetting_writes_the_other_entries(read: Option<String>, host: &str, sessions: &Vec<String>, res: String)
    requires
        call_ensures(forget, (&read, host, sessions), res),
    ensures
        res@ == rendered(
            parsed_file(read).filter(
                |e: (Seq<char>, Seq<char>)|
                    !(e.0 == host@ && exists|i: int| 0 <= i < sessions@.len() && #[trigger] sessions@[i]@ == e.1),
            ),
        ),
{
    let f = |e: (Seq<char>, Seq<char>)|
        !(e.0 == host@ && exists|i: int| 0 <= i < sessions@.len() && #[trigger] sessions@[i]@ == e.1);
    lemma_among(sessions@);
    assert(f =~= not_among(host@, text::texts(sessions@)));
}

/// The lists of entries are cut down as the log is: to what was not killed, to
/// what is not among the sessions, and to the sessions of the host; each in
/// order.
pub proof fn entries_are_cut_down_in_order(
    entries: Vec<WalEntry>,
    host: &str,
    outcomes: &Vec<session::Outcome>,
    sessions: &Vec<String>,
    remaining: Vec<WalEntry>,
    rest: Vec<WalEntry>,
    pending: Vec<String>,
)
    requires
        call_ensures(remaining_after, (entries, host, outcomes), remaining),
        call_ensures(without_sessions, (entries, host, sessions), rest),
        call_ensures(pending_sessions, (&entries, host), pending),
    ensures
        entries_view(remaining@) == entries_view(entries@).filter(
            |e: (Seq<char>, Seq<char>)|
                !(e.0 == host@ && exists|i: int|
                    0 <= i < outcomes@.len() && #[trigger] outcomes@[i].0@ == e.1 && outcomes@[i].1 is None),
        ),
        entries_view(rest@) == entries_view(entries@).filter(
            |e: (Seq<char>, Seq<char>)|
                !(e.0 == host@ && exists|i: int| 0 <= i < sessions@.len() && #[trigger] sessions@[i]@ == e.1),
        ),
        ({
            let own = entries_view(entries@).filter(|e: (Seq<char>, Seq<char>)| e.0 == host@);
            pending@.len() == own.len() && forall|i: int| 0 <= i < own.len() ==> #[trigger] pending@[i]@ == own[i].1
        }),
{
    let f = |e: (Seq<char>, Seq<char>)|
        !(e.0 == host@ && exists|i: int|
            0 <= i < outcomes@.len() && #[trigger] outcomes@[i].0@ == e.1 && outcomes@[i].1 is None);
    lemma_killed(outcomes@);
    assert(f =~= not_killed(host@, session::outcomes_view(outcomes@)));
    let g = |e: (Seq<char>, Seq<char>)|
        !(e.0 == host@ && exists|i: int| 0 <= i < sessions@.len() && #[trigger] sessions@[i]@ == e.1);
    lemma_among(sessions@);
    assert(g =~= not_among(host@, text::texts(sessions@)));
    let h = |e: (Seq<char>, Seq<char>)| e.0 == host@;
    assert(h =~= on_host(host@));
    lemma_pending_names(pending@, entries_view(entries@).filter(h));
}

/// Adding an entry and taking it out are each other's opposite where the log
/// held none for that session.
pub proof fn removing_undoes_adding(
    read: Option<String>,
    host: &str,
    session_name: &str,
    added: String,
    removed: String,
)
    requires
        is_storable((host@, session_name@)),
        forall|i: int| 0 <= i < parsed_file(read).len() ==> keeps_its_end(#[trigger] parsed_file(read)[i]),
        !parsed_file(read).contains((host@, session_name@)),
        call_ensures(add_entry, (&read, host, session_name), added),
        call_ensures(remove_entry, (&Some(added), host, session_name), removed),
    ensures
        parsed(added@) == parsed_file(read).push((host@, session_name@)),
        parsed(removed@) == parsed_file(read),
{
    let before = parsed_file(read);
    let new = (host@, session_name@);
    let keep = not_among(host@, seq![session_name@]);
    if let Some(content) = read {
        entries_can_be_stored_again(content@);
    }
    reading_gives_back_what_was_written(before);
    lemma_entry_added(before, host@, session_name@);
    lemma_among_one(session_name@);
    before.lemma_filter_push(new, keep);
    assert forall|i: int| 0 <= i < before.len() implies keep(#[trigger] before[i]) by {
        if !keep(before[i]) {
            assert(before[i] == new);
            assert(before.contains(new));
        }
    }
    filters::lemma_filter_all(before, keep);
}

} // verus!
