//! Sessions on a remote host: how they are named, listed, picked and killed.
//!
//! The functions here decide; whoever calls them runs the commands they hand
//! out on the remote host, and hands back what came of it.
use vstd::prelude::*;

use crate::cmd;
use crate::filters;
use crate::posix;
use crate::shell;
use crate::text;
use crate::upload;
use crate::upload::RemotePaths;

verus! {

// --------------------------------------------------------------------- names
/// The part of a session's name that stands for this machine, made from the
/// machine's full name: its first label in lower case, with dashes for blanks.
pub open spec fn prefix_of(full: Seq<char>) -> Seq<char> {
    text::replaced(text::lowercased(text::pieces(full, '.')[0]), ' ', "-"@)
}

/// `hostname::get`: the host name as the system reports it, with what is not
/// Unicode in it replaced, or `None` if the system reports none. Which name
/// that is depends on the machine, so nothing is claimed of it.
#[verifier::external_body]
fn system_hostname() -> (res: Option<String>) {
    match hostname::get() {
        Ok(name) => Some(name.to_string_lossy().to_string()),
        Err(_) => None,
    }
}

/// The system reported this when it was asked for the host name.
pub closed spec fn system_reported(reported: Option<String>) -> bool {
    call_ensures(system_hostname, (), reported)
}

/// The name of a machine for which the system reported `reported`.
pub open spec fn reported_name(reported: Option<String>) -> Seq<char> {
    match reported {
        Some(name) => name@,
        None => "unknown"@,
    }
}

/// The name of a machine for which the system reported `reported`.
pub fn hostname_or_unknown(reported: Option<String>) -> (res: String)
    ensures
        match reported {
            Some(name) => res@ == name@,
            None => res@ == "unknown"@,
        },
{
    match reported {
        Some(name) => name,
        None => "unknown".to_owned(),
    }
}

/// A name for this machine that does not change with the network it is in. On
/// a platform that keeps such a name, `platform_name` is what the platform
/// printed; if that is blank, or there is none, it is the host name that the
/// system reported.
pub fn stable_hostname(platform_name: Option<&str>) -> (res: String)
    ensures
        if platform_name is Some && text::trimmed(platform_name->0@).len() > 0 {
            res@ == text::trimmed(platform_name->0@)
        } else {
            exists|reported: Option<String>| #[trigger] system_reported(reported) && res@ == reported_name(reported)
        },
{
    if let Some(printed) = platform_name {
        let name = text::trim(printed);
        if !name.as_str().is_empty() {
            return name;
        }
    }
    let reported = system_hostname();
    assert(system_reported(reported));
    hostname_or_unknown(reported)
}

/// The prefix that a machine of the given name gives its sessions.
pub fn prefix_of_hostname(full: &str) -> (res: String)
    ensures
        res@ == prefix_of(full@),
        text::is_ascii_text(text::pieces(full@, '.')[0]) ==> res@ == text::replaced(
            text::ascii_lowercased(text::pieces(full@, '.')[0]),
            ' ',
            "-"@,
        ),
        !res@.contains(' '),
{
    let labels = text::split_char(full, '.');
    proof {
        text::lemma_pieces_some(full@, '.');
        assert(text::texts(labels@)[0] == labels@[0]@);
        reveal_strlit("-");
        text::lemma_replaced_gone(text::lowercased(text::pieces(full@, '.')[0]), ' ', "-"@);
    }
    let lower = text::lowercase(labels[0].as_str());
    text::replace_char(lower.as_str(), ' ', "-")
}

/// The prefix that this machine gives its sessions.
pub fn local_prefix(platform_name: Option<&str>) -> (res: String)
    ensures
        exists|full: Seq<char>| res@ == #[trigger] prefix_of(full),
        !res@.contains(' '),
        if platform_name is Some && text::trimmed(platform_name->0@).len() > 0 {
            res@ == prefix_of(text::trimmed(platform_name->0@))
        } else {
            exists|reported: Option<String>| #[trigger] system_reported(reported) && res@ == prefix_of(reported_name(reported))
        },
{
    let full = stable_hostname(platform_name);
    prefix_of_hostname(full.as_str())
}

/// The session name for a random number: the prefix, a dash, and the last six
/// hexadecimal digits of the number.
pub open spec fn session_name(prefix: Seq<char>, id: u32) -> Seq<char> {
    prefix + seq!['-'] + text::low_digits(id as nat, 16, 6)
}

/// `rand::random`: any number at all, so nothing is claimed of it.
#[verifier::external_body]
fn random_id() -> (res: u32) {
    rand::random()
}

/// The number was drawn.
pub closed spec fn was_drawn(id: u32) -> bool {
    call_ensures(random_id, (), id)
}

/// The session name for a random number, unless a session of that name exists.
pub fn fresh_session_name(prefix: &str, existing: &Vec<String>, id: u32) -> (res: Option<String>)
    ensures
        match res {
            Some(name) => name@ == session_name(prefix@, id) && !text::texts(existing@).contains(name@),
            None => text::texts(existing@).contains(session_name(prefix@, id)),
        },
{
    let mut name: String = prefix.to_owned();
    name.push('-');
    name.append(text::low_digits_text(id as u64, 16, 6).as_str());
    assert(name@ =~= session_name(prefix@, id));
    if text::contains_text(existing, name.as_str()) {
        None
    } else {
        Some(name)
    }
}

/// No existing session has the name for the number.
pub open spec fn is_free(prefix: Seq<char>, taken: Seq<Seq<char>>, id: u32) -> bool {
    !taken.contains(session_name(prefix, id))
}

/// Each of the numbers has a name that is taken.
pub open spec fn none_free(prefix: Seq<char>, taken: Seq<Seq<char>>, ids: Seq<u32>) -> bool {
    forall|i: int| 0 <= i < ids.len() ==> !is_free(prefix, taken, #[trigger] ids[i])
}

/// The session name for the first of the numbers whose name is free, or `None`
/// if none of them is.
pub fn first_fresh_name(prefix: &str, existing: &Vec<String>, ids: &Vec<u32>) -> (res: Option<String>)
    ensures
        match res {
            Some(name) => exists|i: int|
                0 <= i < ids@.len() && name@ == session_name(prefix@, #[trigger] ids@[i]) && is_free(
                    prefix@,
                    text::texts(existing@),
                    ids@[i],
                ) && forall|k: int| 0 <= k < i ==> !is_free(prefix@, text::texts(existing@), #[trigger] ids@[k]),
            None => none_free(prefix@, text::texts(existing@), ids@),
        },
{
    let mut i: usize = 0;
    while i < ids.len()
        invariant
            i <= ids@.len(),
            forall|k: int| 0 <= k < i ==> !is_free(prefix@, text::texts(existing@), #[trigger] ids@[k]),
        decreases ids@.len() - i,
    {
        let name = fresh_session_name(prefix, existing, ids[i]);
        if name.is_some() {
            return name;
        }
        i += 1;
    }
    None
}

/// The name depends on the last six hexadecimal digits of the number alone, so
/// there are as many names as there are numbers of six digits.
proof fn lemma_six_digits(prefix: Seq<char>, id: u32)
    ensures
        session_name(prefix, id) == session_name(prefix, (id % 0x1000000) as u32),
{
    reveal_with_fuel(text::low_digits, 7);
    let n = id as nat;
    let m = (id % 0x1000000) as nat;
    assert(m % 16 == n % 16);
    assert(m / 16 % 16 == n / 16 % 16);
    assert(m / 16 / 16 % 16 == n / 16 / 16 % 16);
    assert(m / 16 / 16 / 16 % 16 == n / 16 / 16 / 16 % 16);
    assert(m / 16 / 16 / 16 / 16 % 16 == n / 16 / 16 / 16 / 16 % 16);
    assert(m / 16 / 16 / 16 / 16 / 16 % 16 == n / 16 / 16 / 16 / 16 / 16 % 16);
}

/// These numbers were drawn, one after the other, and no name of theirs is free.
pub open spec fn are_missed_draws(prefix: Seq<char>, taken: Seq<Seq<char>>, ids: Seq<u32>) -> bool {
    forall|i: int| 0 <= i < ids.len() ==> was_drawn(#[trigger] ids[i]) && !is_free(prefix, taken, ids[i])
}

/// So many draws missed every free name that no more are made.
pub open spec fn all_draws_missed(prefix: Seq<char>, taken: Seq<Seq<char>>) -> bool {
    exists|ids: Seq<u32>| ids.len() == u64::MAX && #[trigger] are_missed_draws(prefix, taken, ids)
}

/// A name for a new session that no existing session has. Numbers are drawn
/// until one gives such a name. There are 2^24 names; should 2^64 - 1 draws miss
/// every free one, the names are gone through in turn. `None` if and only if
/// every name is taken, where no draw could ever succeed.
pub fn new_session_name(prefix: &str, sessions: &Vec<SessionEntry>) -> (res: Option<String>)
    ensures
        match res {
            Some(name) => exists|id: u32|
                #[trigger] is_free(prefix@, names(sessions@), id) && name@ == session_name(prefix@, id) && (was_drawn(id)
                    || all_draws_missed(prefix@, names(sessions@))),
            None => (forall|id: u32| !#[trigger] is_free(prefix@, names(sessions@), id)) && all_draws_missed(
                prefix@,
                names(sessions@),
            ),
        },
{
    let existing = names_of(sessions);
    let mut draws: u64 = 0;
    let ghost mut drawn: Seq<u32> = Seq::empty();
    while draws < u64::MAX
        invariant
            text::texts(existing@) == names(sessions@),
            are_missed_draws(prefix@, names(sessions@), drawn),
            drawn.len() == draws,
        decreases u64::MAX - draws,
    {
        let id: u32 = random_id();
        assert(was_drawn(id));
        let name = fresh_session_name(prefix, &existing, id);
        if name.is_some() {
            assert(is_free(prefix@, names(sessions@), id));
            return name;
        }
        proof {
            assert(!is_free(prefix@, names(sessions@), id));
            drawn = drawn.push(id);
        }
        draws += 1;
    }
    assert(all_draws_missed(prefix@, names(sessions@)));
    let mut id: u32 = 0;
    while id < 0x1000000
        invariant
            id <= 0x1000000,
            all_draws_missed(prefix@, names(sessions@)),
            text::texts(existing@) == names(sessions@),
            forall|k: u32| k < id ==> !#[trigger] is_free(prefix@, names(sessions@), k),
        decreases 0x1000000 - id,
    {
        let name = fresh_session_name(prefix, &existing, id);
        if name.is_some() {
            assert(is_free(prefix@, names(sessions@), id));
            return name;
        }
        id += 1;
    }
    assert forall|k: u32| !#[trigger] is_free(prefix@, names(sessions@), k) by {
        lemma_six_digits(prefix@, k);
        assert(!is_free(prefix@, names(sessions@), (k % 0x1000000) as u32));
    }
    None
}

// ------------------------------------------------------------------- entries
/// Whether a session currently has a client attached. A status that is not
/// known by name is `Unknown`.
#[derive(Debug, Clone, Copy, PartialEq, Eq, Structural)]
pub enum SessionStatus {
    Attached,
    Disconnected,
    Unknown,
}

impl Default for SessionStatus {
    fn default() -> (res: SessionStatus)
        ensures
            res == SessionStatus::Unknown,
    {
        SessionStatus::Unknown
    }
}

impl SessionStatus {
    pub open spec fn text(self) -> Seq<char> {
        match self {
            SessionStatus::Attached => "attached"@,
            SessionStatus::Disconnected => "disconnected"@,
            SessionStatus::Unknown => "unknown"@,
        }
    }

    pub fn as_str(self) -> (res: &'static str)
        ensures
            res@ == self.text(),
    {
        match self {
            SessionStatus::Attached => "attached",
            SessionStatus::Disconnected => "disconnected",
            SessionStatus::Unknown => "unknown",
        }
    }
}

/// One session as the remote host lists it.
#[derive(Debug)]
pub struct SessionEntry {
    pub name: String,
    pub status: SessionStatus,
    pub started_at_unix_ms: Option<i64>,
}

impl Clone for SessionEntry {
    fn clone(&self) -> (res: SessionEntry)
        ensures
            res == *self,
    {
        SessionEntry { name: self.name.clone(), status: self.status, started_at_unix_ms: self.started_at_unix_ms }
    }
}

impl SessionEntry {
    /// The name, the start and the status, with tabs between them; a dash for a
    /// start that is not known.
    pub open spec fn line(self) -> Seq<char> {
        let started = match self.started_at_unix_ms {
            Some(ms) => text::signed_decimal(ms as int),
            None => "-"@,
        };
        self.name@ + "\t"@ + started + "\t"@ + self.status.text()
    }

    /// One-line rendering for the list of sessions.
    pub fn display_line(&self) -> (res: String)
        ensures
            res@ == self.line(),
    {
        let started = match self.started_at_unix_ms {
            Some(ms) => text::signed_decimal_text(ms),
            None => "-".to_owned(),
        };
        let mut out: String = self.name.clone();
        out.append("\t");
        out.append(started.as_str());
        out.append("\t");
        out.append(self.status.as_str());
        out
    }
}

/// The names of the sessions.
pub open spec fn names(sessions: Seq<SessionEntry>) -> Seq<Seq<char>> {
    Seq::new(sessions.len(), |i: int| sessions[i].name@)
}

/// The names of the sessions.
pub fn names_of(sessions: &Vec<SessionEntry>) -> (res: Vec<String>)
    ensures
        text::texts(res@) == names(sessions@),
{
    let mut out: Vec<String> = Vec::new();
    let mut i: usize = 0;
    while i < sessions.len()
        invariant
            i <= sessions@.len(),
            text::texts(out@) =~= names(sessions@).take(i as int),
        decreases sessions@.len() - i,
    {
        let ghost before = text::texts(out@);
        out.push(sessions[i].name.clone());
        assert(text::texts(out@) =~= before.push(sessions@[i as int].name@));
        i += 1;
    }
    assert(names(sessions@).take(i as int) =~= names(sessions@));
    out
}

/// The session belongs to a machine with that prefix, or everybody's sessions
/// are wanted.
pub open spec fn is_visible(entry: SessionEntry, prefix: Seq<char>, all: bool) -> bool {
    all || (prefix + seq!['-']).is_prefix_of(entry.name@)
}

/// Being visible, as a condition.
pub open spec fn shown(prefix: Seq<char>, all: bool) -> spec_fn(SessionEntry) -> bool {
    |s: SessionEntry| is_visible(s, prefix, all)
}

/// The visible sessions, in order.
pub open spec fn visible(sessions: Seq<SessionEntry>, prefix: Seq<char>, all: bool) -> Seq<SessionEntry> {
    sessions.filter(shown(prefix, all))
}

/// The visible sessions, in order.
pub fn visible_sessions(sessions: &Vec<SessionEntry>, prefix: &str, all: bool) -> (res: Vec<SessionEntry>)
    ensures
        res@ == visible(sessions@, prefix@, all),
{
    let mut own: String = prefix.to_owned();
    own.push('-');
    let ghost wanted = shown(prefix@, all);
    let mut out: Vec<SessionEntry> = Vec::new();
    let mut i: usize = 0;
    assert(sessions@.take(0).filter(wanted) =~= Seq::empty()) by {
        reveal(Seq::filter);
    }
    while i < sessions.len()
        invariant
            i <= sessions@.len(),
            own@ =~= prefix@ + seq!['-'],
            wanted == shown(prefix@, all),
            out@ == sessions@.take(i as int).filter(wanted),
        decreases sessions@.len() - i,
    {
        proof {
            sessions@.take(i as int).lemma_filter_push(sessions@[i as int], wanted);
            assert(sessions@.take(i + 1) =~= sessions@.take(i as int).push(sessions@[i as int]));
        }
        if all || text::starts_with(sessions[i].name.as_str(), own.as_str()) {
            out.push(sessions[i].clone());
        }
        i += 1;
    }
    assert(sessions@.take(i as int) =~= sessions@);
    out
}

/// A session that this machine creates is one of those it shows by default.
pub proof fn new_sessions_are_visible(entry: SessionEntry, prefix: Seq<char>, id: u32)
    requires
        entry.name@ == session_name(prefix, id),
    ensures
        is_visible(entry, prefix, false),
{
    let head = prefix + seq!['-'];
    assert(session_name(prefix, id).subrange(0, head.len() as int) =~= head);
}

// ------------------------------------------------------------------- listing
/// The command that lists the sessions.
pub open spec fn list_command(dir: Seq<char>) -> Seq<char> {
    upload::home_word(upload::below(dir, "bin/shpool"@)) + " --socket "@ + upload::runtime_word("/shpool.socket"@)
        + " list --json 2>/dev/null"@
}

/// What is next to do to list the sessions of a host.
#[derive(Debug)]
pub enum ListStep {
    /// Run the command and capture its output.
    Capture { command: String },
    /// Decode the output as the daemon's JSON reply.
    Decode { output: String },
    /// The sessions of the host.
    Listed(Vec<SessionEntry>),
    /// Listing failed, with this message.
    Failed(String),
}

/// What came of a `ListStep`.
#[derive(Debug)]
pub enum ListReply {
    /// The command ran and printed this.
    Output(String),
    /// The command could not be run, or failed.
    CaptureFailed(String),
    /// The output holds these sessions.
    Decoded(Vec<SessionEntry>),
    /// The output is not a reply of the daemon.
    DecodeFailed(String),
}

/// The first thing to do to list the sessions of a host.
pub fn list_sessions(paths: &RemotePaths) -> (res: ListStep)
    ensures
        res matches ListStep::Capture { command } && command@ == list_command(paths@),
{
    let mut command: String = paths.shpool();
    command.append(" --socket ");
    command.append(paths.socket().as_str());
    command.append(" list --json 2>/dev/null");
    ListStep::Capture { command }
}

/// What an output that was captured calls for. No daemon, or no sessions, can
/// yield blank output; that is no sessions rather than a malformed reply.
pub fn parse_session_list(output: String) -> (res: ListStep)
    ensures
        if text::trimmed(output@).len() == 0 {
            res matches ListStep::Listed(sessions) && sessions@.len() == 0
        } else {
            res == (ListStep::Decode { output })
        },
{
    if text::trim(output.as_str()).as_str().is_empty() {
        ListStep::Listed(Vec::new())
    } else {
        ListStep::Decode { output }
    }
}

impl ListStep {
    /// `next` is what to do after `self` was done and `reply` came of it. A
    /// reply that does not answer the step changes nothing.
    pub open spec fn leads_to(self, reply: ListReply, next: ListStep) -> bool {
        match (self, reply) {
            (ListStep::Capture { .. }, ListReply::Output(output)) => if text::trimmed(output@).len() == 0 {
                next matches ListStep::Listed(sessions) && sessions@.len() == 0
            } else {
                next == (ListStep::Decode { output })
            },
            (ListStep::Capture { .. }, ListReply::CaptureFailed(err)) => next == ListStep::Failed(err),
            (ListStep::Decode { .. }, ListReply::Decoded(sessions)) => next == ListStep::Listed(sessions),
            (ListStep::Decode { .. }, ListReply::DecodeFailed(err)) => {
                next matches ListStep::Failed(message) && message@ == "invalid shpool list --json response: "@ + err@
            },
            _ => next == self,
        }
    }

    /// What to do next.
    pub fn next(self, reply: ListReply) -> (res: ListStep)
        ensures
            self.leads_to(reply, res),
    {
        match (self, reply) {
            (ListStep::Capture { .. }, ListReply::Output(output)) => parse_session_list(output),
            (ListStep::Capture { .. }, ListReply::CaptureFailed(err)) => ListStep::Failed(err),
            (ListStep::Decode { .. }, ListReply::Decoded(sessions)) => ListStep::Listed(sessions),
            (ListStep::Decode { .. }, ListReply::DecodeFailed(err)) => {
                let mut message: String = "invalid shpool list --json response: ".to_owned();
                message.append(err.as_str());
                ListStep::Failed(message)
            },
            (step, _) => step,
        }
    }
}

// ------------------------------------------------------------------- killing
/// How a command on the remote host ended.
#[derive(Debug)]
pub struct RemoteOutput {
    /// Whether it exited with status zero.
    pub success: bool,
    /// Its exit status, in words.
    pub status: String,
    pub stderr: String,
    /// What the output says about a failure, if it says anything.
    pub detail: Option<String>,
}

/// What came of a request to kill one session.
#[derive(Debug)]
pub enum KillReply {
    /// The connection failed, for this reason; the request did not reach the
    /// daemon.
    Unreachable(String),
    /// The request ran.
    Exited(RemoteOutput),
}

/// The output says that there is no such session.
pub open spec fn already_gone(stderr: Seq<char>) -> bool {
    exists|i: int|
        0 <= i < text::lines_of(stderr).len() && "not found:"@.is_prefix_of(
            text::trimmed(#[trigger] text::lines_of(stderr)[i]),
        )
}

/// `shpool kill` reports a missing session as `not found: <name>` on stderr.
pub fn is_already_gone(stderr: &str) -> (res: bool)
    ensures
        res == already_gone(stderr@),
{
    let all = text::lines(stderr);
    let mut i: usize = 0;
    while i < all.len()
        invariant
            i <= all@.len(),
            text::texts(all@) == text::lines_of(stderr@),
            forall|k: int|
                0 <= k < i ==> !"not found:"@.is_prefix_of(text::trimmed(#[trigger] text::lines_of(stderr@)[k])),
        decreases all@.len() - i,
    {
        assert(text::lines_of(stderr@)[i as int] == all@[i as int]@);
        if text::starts_with(text::trim(all[i].as_str()).as_str(), "not found:") {
            return true;
        }
        i += 1;
    }
    false
}

/// Why a session was not killed, as far as its own request says. A session that
/// is already gone is exactly what the request asked for.
pub open spec fn kill_error(output: RemoteOutput) -> Option<Seq<char>> {
    if output.success || already_gone(output.stderr@) {
        None
    } else {
        match output.detail {
            Some(detail) => Some(detail@),
            None => Some("shpool kill exited with "@ + output.status@),
        }
    }
}

/// The words of the command that kills one session, each as it is written in
/// the command.
pub open spec fn kill_parts(dir: Seq<char>, session: Seq<char>) -> Seq<Seq<char>> {
    seq![
        upload::home_word(upload::below(dir, "bin/shpool"@)),
        "--socket"@,
        upload::runtime_word("/shpool.socket"@),
        "kill"@,
        "--"@,
        posix::quoted(session),
    ]
}

/// The command that kills one session.
pub fn kill_command(paths: &RemotePaths, session: &str) -> (res: String)
    ensures
        res@ == cmd::command(kill_parts(paths@, session@)),
{
    let mut parts: Vec<String> = Vec::new();
    parts.push(paths.shpool());
    parts.push("--socket".to_owned());
    parts.push(paths.socket());
    parts.push("kill".to_owned());
    // `--` terminates option parsing so a session name beginning with `-` is
    // never treated as a flag, and the name is one shell word.
    parts.push("--".to_owned());
    parts.push(posix::quote(session));
    assert(text::texts(parts@) =~= kill_parts(paths@, session@));
    cmd::spaced(&parts)
}

/// The command that kills a session names that session alone: it is the one
/// word behind `--`, whatever characters it holds.
pub proof fn kill_command_words(env: spec_fn(Seq<char>) -> Seq<char>, dir: Seq<char>, session: Seq<char>)
    ensures
        shell::shell_words(env, cmd::command(kill_parts(dir, session))) == Some(
            seq![
                env("HOME"@) + seq!['/'] + upload::below(dir, "bin/shpool"@),
                "--socket"@,
                env("HOME"@) + seq!['/'] + upload::REMOTE_SOCKET_DIR@ + "/shpool.socket"@,
                "kill"@,
                "--"@,
                session,
            ],
        ),
{
    let words = seq![
        env("HOME"@) + seq!['/'] + upload::below(dir, "bin/shpool"@),
        "--socket"@,
        env("HOME"@) + seq!['/'] + upload::REMOTE_SOCKET_DIR@ + "/shpool.socket"@,
        "kill"@,
        "--"@,
        session,
    ];
    cmd::lemma_shpool_words(env, dir);
    reveal_strlit("kill");
    reveal_strlit("--");
    shell::lemma_bare_word(env, "kill"@);
    shell::lemma_bare_word(env, "--"@);
    posix::quoting_keeps_the_value(env, session);
    shell::lemma_joined_words(env, kill_parts(dir, session), words);
}

/// A session, and why it was not killed if it was not.
pub type Outcome = (String, Option<String>);

/// The view of the outcomes.
pub open spec fn outcomes_view(outcomes: Seq<Outcome>) -> Seq<(Seq<char>, Option<Seq<char>>)> {
    Seq::new(
        outcomes.len(),
        |i: int|
            (
                outcomes[i].0@,
                match outcomes[i].1 {
                    Some(err) => Some(err@),
                    None => None,
                },
            ),
    )
}

/// The outcomes after one more reply, which answers the request for the first
/// session that has none yet. If the connection failed, every session that is
/// left would fail the same way, so all of them do.
pub open spec fn with_reply(
    sessions: Seq<Seq<char>>,
    outcomes: Seq<(Seq<char>, Option<Seq<char>>)>,
    reply: KillReply,
) -> Seq<(Seq<char>, Option<Seq<char>>)> {
    match reply {
        KillReply::Unreachable(err) => Seq::new(
            sessions.len(),
            |i: int|
                if i < outcomes.len() {
                    outcomes[i]
                } else {
                    (sessions[i], Some(err@))
                },
        ),
        KillReply::Exited(output) => outcomes.push((sessions[outcomes.len() as int], kill_error(output))),
    }
}

/// What is next to do to kill a list of sessions, one request each.
#[derive(Debug)]
pub enum KillStep {
    /// Run the command, which kills the first session without an outcome.
    Run { command: String, sessions: Vec<String>, outcomes: Vec<Outcome> },
    /// Every session has its outcome, in the order in which they were given.
    Done(Vec<Outcome>),
}

/// `step` is what to do when `outcomes` is what is known of `sessions`.
pub open spec fn is_kill_step(
    dir: Seq<char>,
    sessions: Seq<Seq<char>>,
    outcomes: Seq<(Seq<char>, Option<Seq<char>>)>,
    step: KillStep,
) -> bool {
    if outcomes.len() < sessions.len() {
        step matches KillStep::Run { command, sessions: s, outcomes: o } && {
            &&& command@ == cmd::command(kill_parts(dir, sessions[outcomes.len() as int]))
            &&& text::texts(s@) == sessions
            &&& outcomes_view(o@) == outcomes
        }
    } else {
        step matches KillStep::Done(o) && outcomes_view(o@) == outcomes
    }
}

/// The request for the first session without an outcome, if there is one.
fn kill_rest(paths: &RemotePaths, sessions: Vec<String>, outcomes: Vec<Outcome>) -> (res: KillStep)
    ensures
        is_kill_step(paths@, text::texts(sessions@), outcomes_view(outcomes@), res),
{
    if outcomes.len() < sessions.len() {
        let command = kill_command(paths, sessions[outcomes.len()].as_str());
        KillStep::Run { command, sessions, outcomes }
    } else {
        KillStep::Done(outcomes)
    }
}

/// The first request to kill the sessions.
///
/// One request per session on purpose: shpool's daemon walks a multi-session
/// kill in order and aborts the whole batch on the first session it cannot
/// signal, so a single unkillable session would otherwise spare every session
/// listed behind it.
pub fn kill_each(paths: &RemotePaths, sessions: Vec<String>) -> (res: KillStep)
    ensures
        is_kill_step(paths@, text::texts(sessions@), Seq::empty(), res),
{
    let outcomes: Vec<Outcome> = Vec::new();
    assert(outcomes_view(outcomes@) =~= Seq::empty());
    kill_rest(paths, sessions, outcomes)
}

/// Add the reply to the outcomes.
fn add_reply(sessions: &Vec<String>, outcomes: &mut Vec<Outcome>, reply: KillReply)
    requires
        old(outcomes)@.len() < sessions@.len(),
    ensures
        outcomes_view(final(outcomes)@) == with_reply(text::texts(sessions@), outcomes_view(old(outcomes)@), reply),
{
    let ghost before = outcomes_view(outcomes@);
    let at: usize = outcomes.len();
    match reply {
        KillReply::Unreachable(err) => {
            let mut i: usize = at;
            while i < sessions.len()
                invariant
                    at <= i <= sessions@.len(),
                    at == before.len(),
                    outcomes@.len() == i,
                    forall|k: int| 0 <= k < at ==> #[trigger] outcomes_view(outcomes@)[k] == before[k],
                    forall|k: int|
                        at <= k < i ==> #[trigger] outcomes_view(outcomes@)[k] == (text::texts(sessions@)[k], Some(err@)),
                decreases sessions@.len() - i,
            {
                let ghost prev = outcomes_view(outcomes@);
                outcomes.push((sessions[i].clone(), Some(err.clone())));
                assert(outcomes_view(outcomes@) =~= prev.push((text::texts(sessions@)[i as int], Some(err@))));
                i += 1;
            }
            assert(outcomes_view(outcomes@) =~= with_reply(text::texts(sessions@), before, reply));
        },
        KillReply::Exited(output) => {
            let failed = !output.success && !is_already_gone(output.stderr.as_str());
            let error: Option<String> = if !failed {
                None
            } else {
                match output.detail {
                    Some(detail) => Some(detail),
                    None => {
                        let mut message: String = "shpool kill exited with ".to_owned();
                        message.append(output.status.as_str());
                        Some(message)
                    },
                }
            };
            outcomes.push((sessions[at].clone(), error));
            assert(outcomes_view(outcomes@) =~= with_reply(text::texts(sessions@), before, reply));
        },
    }
}

impl KillStep {
    /// What to do next, after the request was made and `reply` came of it.
    pub fn next(self, paths: &RemotePaths, reply: KillReply) -> (res: KillStep)
        ensures
            match self {
                KillStep::Run { sessions, outcomes, .. } => is_kill_step(
                    paths@,
                    text::texts(sessions@),
                    if outcomes@.len() < sessions@.len() {
                        with_reply(text::texts(sessions@), outcomes_view(outcomes@), reply)
                    } else {
                        outcomes_view(outcomes@)
                    },
                    res,
                ),
                KillStep::Done(_) => res == self,
            },
    {
        match self {
            KillStep::Run { sessions, mut outcomes, .. } => {
                if outcomes.len() < sessions.len() {
                    add_reply(&sessions, &mut outcomes, reply);
                }
                kill_rest(paths, sessions, outcomes)
            },
            KillStep::Done(outcomes) => KillStep::Done(outcomes),
        }
    }
}

/// What is known of the sessions after the replies to the requests so far.
pub open spec fn after_replies(sessions: Seq<Seq<char>>, replies: Seq<KillReply>) -> Seq<(Seq<char>, Option<Seq<char>>)>
    decreases replies.len(),
{
    if replies.len() == 0 {
        Seq::empty()
    } else {
        with_reply(sessions, after_replies(sessions, replies.drop_last()), replies.last())
    }
}

/// As long as the host can be reached, each session gets a request of its own
/// and is judged by the reply to that request alone: a session that cannot be
/// killed does not hold back the ones behind it.
pub proof fn sessions_are_killed_one_by_one(dir: Seq<char>, sessions: Seq<Seq<char>>, replies: Seq<KillReply>, step: KillStep)
    requires
        replies.len() <= sessions.len(),
        forall|i: int| 0 <= i < replies.len() ==> #[trigger] replies[i] is Exited,
        is_kill_step(dir, sessions, after_replies(sessions, replies), step),
    ensures
        after_replies(sessions, replies) == Seq::new(
            replies.len(),
            |i: int| (sessions[i], kill_error(replies[i]->Exited_0)),
        ),
        replies.len() < sessions.len() ==> (step matches KillStep::Run { command, .. } && command@ == cmd::command(
            kill_parts(dir, sessions[replies.len() as int]),
        )),
        replies.len() == sessions.len() ==> step is Done,
{
    lemma_own_replies(sessions, replies);
}

proof fn lemma_own_replies(sessions: Seq<Seq<char>>, replies: Seq<KillReply>)
    requires
        replies.len() <= sessions.len(),
        forall|i: int| 0 <= i < replies.len() ==> #[trigger] replies[i] is Exited,
    ensures
        after_replies(sessions, replies) == Seq::new(
            replies.len(),
            |i: int| (sessions[i], kill_error(replies[i]->Exited_0)),
        ),
    decreases replies.len(),
{
    if replies.len() > 0 {
        let init = replies.drop_last();
        assert forall|i: int| 0 <= i < init.len() implies #[trigger] init[i] is Exited by {
            assert(init[i] == replies[i]);
        }
        lemma_own_replies(sessions, init);
        assert(replies[replies.len() - 1] is Exited);
    }
    assert(after_replies(sessions, replies) =~= Seq::new(
        replies.len(),
        |i: int| (sessions[i], kill_error(replies[i]->Exited_0)),
    ));
}

/// Once the connection fails no further request is made. The sessions that had
/// their reply keep it, and all others carry the connection's error.
pub proof fn a_failed_connection_ends_the_requests(
    dir: Seq<char>,
    sessions: Seq<Seq<char>>,
    replies: Seq<KillReply>,
    err: String,
    step: KillStep,
)
    requires
        replies.len() < sessions.len(),
        forall|i: int| 0 <= i < replies.len() ==> #[trigger] replies[i] is Exited,
        is_kill_step(dir, sessions, after_replies(sessions, replies.push(KillReply::Unreachable(err))), step),
    ensures
        step matches KillStep::Done(outcomes) && outcomes_view(outcomes@) == Seq::new(
            sessions.len(),
            |i: int|
                if i < replies.len() {
                    (sessions[i], kill_error(replies[i]->Exited_0))
                } else {
                    (sessions[i], Some(err@))
                },
        ),
{
    let all = replies.push(KillReply::Unreachable(err));
    assert(all.drop_last() =~= replies);
    lemma_own_replies(sessions, replies);
    assert(after_replies(sessions, all) =~= Seq::new(
        sessions.len(),
        |i: int|
            if i < replies.len() {
                (sessions[i], kill_error(replies[i]->Exited_0))
            } else {
                (sessions[i], Some(err@))
            },
    ));
}

/// The failures among the outcomes, each with its session's name.
pub open spec fn failures(outcomes: Seq<(Seq<char>, Option<Seq<char>>)>) -> Seq<Seq<char>>
    decreases outcomes.len(),
{
    if outcomes.len() == 0 {
        Seq::empty()
    } else {
        let before = failures(outcomes.drop_last());
        match outcomes.last().1 {
            Some(err) => before.push(outcomes.last().0 + ": "@ + err),
            None => before,
        }
    }
}

/// The message about the sessions that were not killed.
pub open spec fn kill_report(outcomes: Seq<(Seq<char>, Option<Seq<char>>)>) -> Seq<char> {
    let failed = failures(outcomes);
    "failed to kill "@ + text::decimal(failed.len()) + " of "@ + text::decimal(outcomes.len()) + " session(s):\n  "@
        + text::joined(failed, "\n  "@)
}

/// Whether all sessions were killed; if not, a message that names the ones that
/// were not, and why, and no others.
pub fn kill_sessions(outcomes: &Vec<Outcome>) -> (res: Result<(), String>)
    ensures
        match res {
            Ok(()) => forall|i: int| 0 <= i < outcomes@.len() ==> (#[trigger] outcomes@[i]).1 is None,
            Err(message) => message@ == kill_report(outcomes_view(outcomes@)) && exists|i: int|
                0 <= i < outcomes@.len() && (#[trigger] outcomes@[i]).1 is Some,
        },
{
    let ghost all = outcomes_view(outcomes@);
    let mut failed: Vec<String> = Vec::new();
    let mut i: usize = 0;
    assert(text::texts(failed@) =~= failures(all.take(0)));
    while i < outcomes.len()
        invariant
            i <= outcomes@.len(),
            all == outcomes_view(outcomes@),
            text::texts(failed@) == failures(all.take(i as int)),
            failed@.len() <= i,
            failed@.len() == 0 ==> forall|k: int| 0 <= k < i ==> (#[trigger] outcomes@[k]).1 is None,
            failed@.len() > 0 ==> exists|k: int| 0 <= k < i && (#[trigger] outcomes@[k]).1 is Some,
        decreases outcomes@.len() - i,
    {
        assert(all.take(i + 1).drop_last() =~= all.take(i as int));
        assert(all.take(i + 1).last() == all[i as int]);
        let ghost before = text::texts(failed@);
        if let Some(err) = &outcomes[i].1 {
            assert(outcomes@[i as int].1 is Some);
            let mut line: String = outcomes[i].0.clone();
            line.append(": ");
            line.append(err.as_str());
            let ghost text = line@;
            failed.push(line);
            assert(text::texts(failed@) =~= before.push(text));
        }
        i += 1;
    }
    assert(all.take(i as int) =~= all);
    if failed.len() == 0 {
        return Ok(());
    }
    let mut message: String = "failed to kill ".to_owned();
    message.append(text::decimal_text(failed.len() as u64).as_str());
    message.append(" of ");
    message.append(text::decimal_text(outcomes.len() as u64).as_str());
    message.append(" session(s):\n  ");
    message.append(text::join(&failed, "\n  ").as_str());
    Err(message)
}

// ------------------------------------------------------------------- picking
/// The sessions to pick from: their names, and the lines that show them.
#[derive(Debug)]
pub struct Menu {
    pub names: Vec<String>,
    pub items: Vec<String>,
}

impl Menu {
    /// The menu shows exactly these sessions, in order.
    pub open spec fn shows(self, sessions: Seq<SessionEntry>) -> bool {
        &&& text::texts(self.names@) == names(sessions)
        &&& text::texts(self.items@) == Seq::new(sessions.len(), |i: int| sessions[i].line())
    }

    fn of(sessions: &Vec<SessionEntry>) -> (res: Menu)
        ensures
            res.shows(sessions@),
    {
        let ghost all = Seq::new(sessions@.len(), |i: int| sessions@[i].line());
        let mut items: Vec<String> = Vec::new();
        let mut i: usize = 0;
        while i < sessions.len()
            invariant
                i <= sessions@.len(),
                all == Seq::new(sessions@.len(), |i: int| sessions@[i].line()),
                text::texts(items@) =~= all.take(i as int),
            decreases sessions@.len() - i,
        {
            let ghost before = text::texts(items@);
            items.push(sessions[i].display_line());
            assert(text::texts(items@) =~= before.push(all[i as int]));
            i += 1;
        }
        assert(all.take(i as int) =~= all);
        Menu { names: names_of(sessions), items }
    }

    /// The name of the session that was picked.
    pub fn picked(&self, index: usize) -> (res: String)
        requires
            index < self.names@.len(),
        ensures
            res@ == self.names@[index as int]@,
    {
        self.names[index].clone()
    }

    /// The names of the sessions that were picked; it is an error to pick none.
    pub fn picked_all(&self, indices: &Vec<usize>) -> (res: Result<Vec<String>, String>)
        requires
            forall|i: int| 0 <= i < indices@.len() ==> #[trigger] indices@[i] < self.names@.len(),
        ensures
            match res {
                Ok(picked) => indices@.len() > 0 && text::texts(picked@) == Seq::new(
                    indices@.len(),
                    |i: int| self.names@[indices@[i] as int]@,
                ),
                Err(message) => indices@.len() == 0 && message@ == "no sessions selected"@,
            },
    {
        if indices.len() == 0 {
            return Err("no sessions selected".to_owned());
        }
        let ghost all = Seq::new(indices@.len(), |i: int| self.names@[indices@[i] as int]@);
        let mut out: Vec<String> = Vec::new();
        let mut i: usize = 0;
        while i < indices.len()
            invariant
                i <= indices@.len(),
                forall|i: int| 0 <= i < indices@.len() ==> #[trigger] indices@[i] < self.names@.len(),
                all == Seq::new(indices@.len(), |i: int| self.names@[indices@[i] as int]@),
                text::texts(out@) =~= all.take(i as int),
            decreases indices@.len() - i,
        {
            let ghost before = text::texts(out@);
            out.push(self.names[indices[i]].clone());
            assert(text::texts(out@) =~= before.push(all[i as int]));
            i += 1;
        }
        assert(all.take(i as int) =~= all);
        Ok(out)
    }
}

/// The sessions to pick one from, to attach to it; an error if there are none.
pub fn pick_session_interactive(sessions: &Vec<SessionEntry>, prefix: &str, all: bool, host: &str) -> (res: Result<Menu, String>)
    ensures
        match res {
            Ok(menu) => visible(sessions@, prefix@, all).len() > 0 && menu.shows(visible(sessions@, prefix@, all)),
            Err(message) => visible(sessions@, prefix@, all).len() == 0 && message@ == "no existing sessions on "@ + host@,
        },
{
    let shown = visible_sessions(sessions, prefix, all);
    if shown.len() == 0 {
        let mut message: String = "no existing sessions on ".to_owned();
        message.append(host);
        return Err(message);
    }
    Ok(Menu::of(&shown))
}

/// The sessions to pick some from, to kill them; an error if there are none.
pub fn pick_sessions_to_kill(sessions: &Vec<SessionEntry>, prefix: &str, all: bool, host: &str) -> (res: Result<Menu, String>)
    ensures
        match res {
            Ok(menu) => visible(sessions@, prefix@, all).len() > 0 && menu.shows(visible(sessions@, prefix@, all)),
            Err(message) => visible(sessions@, prefix@, all).len() == 0 && message@ == "no sessions on "@ + host@,
        },
{
    let shown = visible_sessions(sessions, prefix, all);
    if shown.len() == 0 {
        let mut message: String = "no sessions on ".to_owned();
        message.append(host);
        return Err(message);
    }
    Ok(Menu::of(&shown))
}

/// Being visible with nobody attached, as a condition.
pub open spec fn left_behind(prefix: Seq<char>, all: bool) -> spec_fn(SessionEntry) -> bool {
    |s: SessionEntry| s.status == SessionStatus::Disconnected && is_visible(s, prefix, all)
}

/// The names of the visible sessions that nobody is attached to, in order.
pub open spec fn detached(sessions: Seq<SessionEntry>, prefix: Seq<char>, all: bool) -> Seq<Seq<char>> {
    names(sessions.filter(left_behind(prefix, all)))
}

/// The sessions to kill to leave no detached ones behind.
pub fn clean_detached(sessions: &Vec<SessionEntry>, prefix: &str, all: bool) -> (res: Vec<String>)
    ensures
        text::texts(res@) == detached(sessions@, prefix@, all),
{
    let mut own: String = prefix.to_owned();
    own.push('-');
    let ghost wanted = left_behind(prefix@, all);
    let mut out: Vec<SessionEntry> = Vec::new();
    let mut i: usize = 0;
    assert(sessions@.take(0).filter(wanted) =~= Seq::empty()) by {
        reveal(Seq::filter);
    }
    while i < sessions.len()
        invariant
            i <= sessions@.len(),
            own@ =~= prefix@ + seq!['-'],
            wanted == left_behind(prefix@, all),
            out@ == sessions@.take(i as int).filter(wanted),
        decreases sessions@.len() - i,
    {
        proof {
            sessions@.take(i as int).lemma_filter_push(sessions@[i as int], wanted);
            assert(sessions@.take(i + 1) =~= sessions@.take(i as int).push(sessions@[i as int]));
        }
        if sessions[i].status == SessionStatus::Disconnected && (all || text::starts_with(
            sessions[i].name.as_str(),
            own.as_str(),
        )) {
            out.push(sessions[i].clone());
        }
        i += 1;
    }
    assert(sessions@.take(i as int) =~= sessions@);
    names_of(&out)
}

/// Cleaning up names exactly the sessions that nobody is attached to and that
/// are visible: it spares attached sessions, and other machines' sessions unless
/// everybody's are wanted.
pub proof fn cleaning_spares_attached_sessions(sessions: Seq<SessionEntry>, prefix: Seq<char>, all: bool, name: Seq<char>)
    ensures
        detached(sessions, prefix, all).contains(name) <==> exists|i: int|
            0 <= i < sessions.len() && (#[trigger] sessions[i]).name@ == name && sessions[i].status
                == SessionStatus::Disconnected && is_visible(sessions[i], prefix, all),
{
    let keep = left_behind(prefix, all);
    let kept = sessions.filter(keep);
    assert(detached(sessions, prefix, all) == names(kept));
    if names(kept).contains(name) {
        let i = choose|i: int| 0 <= i < names(kept).len() && names(kept)[i] == name;
        filters::lemma_filter_members(sessions, keep, kept[i]);
        assert(kept.contains(kept[i]));
        let k = choose|k: int| 0 <= k < sessions.len() && sessions[k] == kept[i];
        assert(sessions[k].name@ == name);
    }
    if exists|i: int|
        0 <= i < sessions.len() && (#[trigger] sessions[i]).name@ == name && sessions[i].status == SessionStatus::Disconnected
            && is_visible(sessions[i], prefix, all) {
        let i = choose|i: int|
            0 <= i < sessions.len() && (#[trigger] sessions[i]).name@ == name && sessions[i].status
                == SessionStatus::Disconnected && is_visible(sessions[i], prefix, all);
        filters::lemma_filter_members(sessions, keep, sessions[i]);
        let k = choose|k: int| 0 <= k < kept.len() && kept[k] == sessions[i];
        assert(names(kept)[k] == name);
    }
}

// ---------------------------------------------------------------------- laws
/// Nothing but an answer of the system counts as reported, and nothing but a
/// draw as drawn.
proof fn only_outside_answers_count(reported: Option<String>, id: u32)
    ensures
        system_reported(reported) <==> call_ensures(system_hostname, (), reported),
        was_drawn(id) <==> call_ensures(random_id, (), id),
{
}

/// This machine is called what the platform printed, without the white space
/// around it; where it printed nothing, what the system reported as the host
/// name; and `unknown` only where the system reported none.
pub proof fn this_machine_is_called_what_it_reports(platform_name: Option<&str>, res: String)
    requires
        call_ensures(stable_hostname, (platform_name,), res),
    ensures
        platform_name matches Some(printed) ==> text::trimmed(printed@).len() > 0 ==> res@ == text::trimmed(printed@),
        (platform_name matches Some(printed) ==> text::trimmed(printed@).len() == 0) ==> exists|reported: Option<String>|
            #[trigger] system_reported(reported) && match reported {
                Some(name) => res@ == name@,
                None => res@ == "unknown"@,
            },
{
}

/// The prefix of this machine's sessions is the prefix of a host of the name
/// that this machine is called.
pub proof fn the_prefix_is_that_of_this_machine(platform_name: Option<&str>, res: String)
    requires
        call_ensures(local_prefix, (platform_name,), res),
    ensures
        platform_name matches Some(printed) ==> text::trimmed(printed@).len() > 0 ==> res@ == prefix_of(
            text::trimmed(printed@),
        ),
        (platform_name matches Some(printed) ==> text::trimmed(printed@).len() == 0) ==> exists|reported: Option<String>|
            #[trigger] system_reported(reported) && match reported {
                Some(name) => res@ == prefix_of(name@),
                None => res@ == prefix_of("unknown"@),
            },
{
}

/// A prefix is the label in front of the first dot, character by character: a
/// blank becomes a dash, an ASCII capital becomes small, and every other ASCII
/// character stays. What follows the first dot does not matter.
pub proof fn prefixes_are_the_first_label(full: &str, label: Seq<char>, res: String)
    requires
        call_ensures(prefix_of_hostname, (full,), res),
        label.is_prefix_of(full@),
        !label.contains('.'),
        label.len() == full@.len() || full@[label.len() as int] == '.',
    ensures
        res@ == prefix_of(full@),
        res@ == prefix_of(label),
        res@.len() == text::lowercased(label).len(),
        forall|i: int|
            0 <= i < res@.len() ==> #[trigger] res@[i] == if text::lowercased(label)[i] == ' ' {
                '-'
            } else {
                text::lowercased(label)[i]
            },
        (forall|i: int| 0 <= i < label.len() ==> (#[trigger] label[i] as u32) < 128) ==> res@.len() == label.len() && forall|
            i: int,
        |
            0 <= i < label.len() ==> #[trigger] res@[i] as u32 == if label[i] == ' ' {
                '-' as u32
            } else if 'A' <= label[i] <= 'Z' {
                (label[i] as u32 + 32) as u32
            } else {
                label[i] as u32
            },
{
    text::lemma_pieces_whole(label, '.');
    if label.len() == full@.len() {
        assert(label =~= full@);
    } else {
        let rest = full@.skip(label.len() as int + 1);
        assert(full@ =~= label.push('.') + rest) by {
            assert forall|i: int| 0 <= i < label.len() implies full@[i] == label[i] by {
                assert(full@.subrange(0, label.len() as int)[i] == label[i]);
            }
        }
        text::lemma_pieces_join(label, rest, '.');
    }
    assert(text::pieces(full@, '.')[0] == label);
    reveal_strlit("-");
    assert("-"@ =~= seq!['-']);
    lemma_replaced_one(text::lowercased(label), ' ', '-');
    if forall|i: int| 0 <= i < label.len() ==> (#[trigger] label[i] as u32) < 128 {
        assert(text::is_ascii_text(label));
        lemma_replaced_one(text::ascii_lowercased(label), ' ', '-');
    }
}

proof fn lemma_replaced_one(s: Seq<char>, from: char, to: char)
    ensures
        text::replaced(s, from, seq![to]).len() == s.len(),
        forall|i: int|
            0 <= i < s.len() ==> #[trigger] text::replaced(s, from, seq![to])[i] == if s[i] == from {
                to
            } else {
                s[i]
            },
    decreases s.len(),
{
    if s.len() > 0 {
        lemma_replaced_one(s.drop_last(), from, to);
        let init = s.drop_last();
        let out = text::replaced(s, from, seq![to]);
        let before = text::replaced(init, from, seq![to]);
        assert forall|i: int| 0 <= i < s.len() implies #[trigger] out[i] == if s[i] == from {
            to
        } else {
            s[i]
        } by {
            if i < init.len() {
                assert(out[i] == before[i]);
                assert(init[i] == s[i]);
            }
        }
    }
}

/// The name for a number: the prefix, a dash, and six hexadecimal digits that
/// stand for the last 24 bits of the number.
pub open spec fn is_name_for(prefix: Seq<char>, id: u32, digits: Seq<char>) -> bool {
    &&& digits.len() == 6
    &&& text::number_of(digits, 16) == id as int % 0x1000000
    &&& forall|i: int| 0 <= i < 6 ==> ('0' <= #[trigger] digits[i] <= '9' || 'a' <= digits[i] <= 'f')
}

/// A number gives the name for it, unless that is the name of a session that
/// exists.
pub proof fn numbers_give_names(prefix: &str, existing: &Vec<String>, id: u32, res: Option<String>)
    requires
        call_ensures(fresh_session_name, (prefix, existing, id), res),
    ensures
        exists|digits: Seq<char>|
            #[trigger] is_name_for(prefix@, id, digits) && match res {
                Some(name) => name@ == prefix@ + seq!['-'] + digits && forall|i: int|
                    0 <= i < existing@.len() ==> #[trigger] existing@[i]@ != name@,
                None => exists|i: int| 0 <= i < existing@.len() && #[trigger] existing@[i]@ == prefix@ + seq!['-'] + digits,
            },
{
    let digits = text::low_digits(id as nat, 16, 6);
    lemma_digits_of(prefix@, id);
    assert(is_name_for(prefix@, id, digits));
    let all = text::texts(existing@);
    match res {
        Some(name) => {
            assert forall|i: int| 0 <= i < existing@.len() implies #[trigger] existing@[i]@ != name@ by {
                assert(all[i] == existing@[i]@);
            }
        },
        None => {
            let i = choose|i: int| 0 <= i < all.len() && all[i] == session_name(prefix@, id);
            assert(existing@[i]@ == prefix@ + seq!['-'] + digits);
        },
    }
}

proof fn lemma_digits_of(prefix: Seq<char>, id: u32)
    ensures
        is_name_for(prefix, id, text::low_digits(id as nat, 16, 6)),
        session_name(prefix, id) == prefix + seq!['-'] + text::low_digits(id as nat, 16, 6),
{
    text::low_digits_stand_for_the_rest(id as nat, 16, 6);
    assert(vstd::arithmetic::power::pow(16, 6) == 0x1000000) by {
        reveal_with_fuel(vstd::arithmetic::power::pow, 7);
    }
}

/// The name is that of the number at that place; no session has it, and each
/// number in front of that place has a name that is taken.
pub open spec fn comes_first(prefix: Seq<char>, taken: Seq<Seq<char>>, ids: Seq<u32>, at: int, name: Seq<char>) -> bool {
    &&& 0 <= at < ids.len()
    &&& name == prefix + seq!['-'] + text::low_digits(ids[at] as nat, 16, 6)
    &&& !taken.contains(name)
    &&& forall|k: int| 0 <= k < at ==> taken.contains(prefix + seq!['-'] + text::low_digits(#[trigger] ids[k] as nat, 16, 6))
}

/// Of several numbers the first one counts whose name no session has.
pub proof fn the_first_free_name_counts(prefix: &str, existing: &Vec<String>, ids: &Vec<u32>, res: Option<String>)
    requires
        call_ensures(first_fresh_name, (prefix, existing, ids), res),
    ensures
        match res {
            Some(name) => exists|at: int| comes_first(prefix@, text::texts(existing@), ids@, at, name@),
            None => forall|k: int|
                0 <= k < ids@.len() ==> text::texts(existing@).contains(
                    prefix@ + seq!['-'] + text::low_digits(#[trigger] ids@[k] as nat, 16, 6),
                ),
        },
{
    let taken = text::texts(existing@);
    if res is Some {
        let name = res->0;
        let i = choose|i: int|
            0 <= i < ids@.len() && name@ == session_name(prefix@, #[trigger] ids@[i]) && is_free(prefix@, taken, ids@[i])
                && forall|k: int| 0 <= k < i ==> !is_free(prefix@, taken, #[trigger] ids@[k]);
        assert forall|k: int| 0 <= k < i implies taken.contains(
            prefix@ + seq!['-'] + text::low_digits(#[trigger] ids@[k] as nat, 16, 6),
        ) by {
            assert(!is_free(prefix@, taken, ids@[k]));
        }
        assert(comes_first(prefix@, text::texts(existing@), ids@, i, name@));
    } else {
        assert forall|k: int| 0 <= k < ids@.len() implies taken.contains(
            prefix@ + seq!['-'] + text::low_digits(#[trigger] ids@[k] as nat, 16, 6),
        ) by {
            assert(!is_free(prefix@, taken, ids@[k]));
        }
    }
}

/// A new session gets a name that no session of the host has: the prefix, a dash
/// and six digits of a number that was drawn, unless very many draws gave names
/// that are taken. There is no new name only if every one is taken.
pub proof fn new_sessions_get_new_names(prefix: &str, sessions: &Vec<SessionEntry>, id: u32, res: Option<String>)
    requires
        call_ensures(new_session_name, (prefix, sessions), res),
    ensures
        match res {
            Some(name) => {
                &&& forall|i: int| 0 <= i < sessions@.len() ==> #[trigger] sessions@[i].name@ != name@
                &&& exists|id: u32, digits: Seq<char>|
                    #[trigger] is_name_for(prefix@, id, digits) && name@ == prefix@ + seq!['-'] + digits && (was_drawn(id) || exists|
                        ids: Seq<u32>,
                    |
                        #[trigger] ids.len() == u64::MAX && forall|i: int|
                            0 <= i < ids.len() ==> was_drawn(#[trigger] ids[i]) && names(sessions@).contains(
                                prefix@ + seq!['-'] + text::low_digits(ids[i] as nat, 16, 6),
                            ))
                &&& (prefix@ + seq!['-']).is_prefix_of(name@)
            },
            None => exists|i: int|
                0 <= i < sessions@.len() && #[trigger] sessions@[i].name@ == prefix@ + seq!['-'] + text::low_digits(
                    id as nat,
                    16,
                    6,
                ),
        },
{
    match res {
        Some(name) => {
            let id = choose|id: u32|
                #[trigger] is_free(prefix@, names(sessions@), id) && name@ == session_name(prefix@, id) && (was_drawn(id)
                    || all_draws_missed(prefix@, names(sessions@)));
            lemma_digits_of(prefix@, id);
            if !was_drawn(id) {
                let ids = choose|ids: Seq<u32>|
                    ids.len() == u64::MAX && #[trigger] are_missed_draws(prefix@, names(sessions@), ids);
                assert(ids.len() == u64::MAX);
                assert forall|i: int| 0 <= i < ids.len() implies was_drawn(#[trigger] ids[i]) && names(sessions@).contains(
                    prefix@ + seq!['-'] + text::low_digits(ids[i] as nat, 16, 6),
                ) by {
                    assert(!is_free(prefix@, names(sessions@), ids[i]));
                }
            }
            assert forall|i: int| 0 <= i < sessions@.len() implies #[trigger] sessions@[i].name@ != name@ by {
                assert(names(sessions@)[i] == sessions@[i].name@);
            }
            assert(name@.subrange(0, prefix@.len() as int + 1) =~= prefix@ + seq!['-']);
        },
        None => {
            assert(!is_free(prefix@, names(sessions@), id));
            let all = names(sessions@);
            let i = choose|i: int| 0 <= i < all.len() && all[i] == session_name(prefix@, id);
            assert(sessions@[i].name@ == session_name(prefix@, id));
        },
    }
}

/// The line of a session: its name, its start or a dash, and its status in
/// words, with tabs between them.
pub proof fn lines_show_name_start_and_status(entry: &SessionEntry, res: String)
    requires
        call_ensures(SessionEntry::display_line, (entry,), res),
    ensures
        ({
            let status = match entry.status {
                SessionStatus::Attached => "attached"@,
                SessionStatus::Disconnected => "disconnected"@,
                SessionStatus::Unknown => "unknown"@,
            };
            match entry.started_at_unix_ms {
                Some(ms) => res@ == entry.name@ + "\t"@ + text::signed_decimal(ms as int) + "\t"@ + status,
                None => res@ == entry.name@ + "\t-\t"@ + status,
            }
        }),
{
    reveal_strlit("\t");
    reveal_strlit("-");
    reveal_strlit("\t-\t");
    let tail = match entry.status {
        SessionStatus::Attached => "attached"@,
        SessionStatus::Disconnected => "disconnected"@,
        SessionStatus::Unknown => "unknown"@,
    };
    if entry.started_at_unix_ms is None {
        assert("\t-\t"@ =~= "\t"@ + "-"@ + "\t"@);
        assert(entry.name@ + "\t"@ + "-"@ + "\t"@ + tail =~= entry.name@ + "\t-\t"@ + tail);
    }
}

/// The sessions that are shown are all of them, or those whose name starts with
/// the prefix and a dash; in the order in which they were listed.
pub proof fn own_sessions_are_shown(sessions: &Vec<SessionEntry>, prefix: &str, all: bool, res: Vec<SessionEntry>)
    requires
        call_ensures(visible_sessions, (sessions, prefix, all), res),
    ensures
        res@ == sessions@.filter(|s: SessionEntry| all || (prefix@ + seq!['-']).is_prefix_of(s.name@)),
        all ==> res@ == sessions@,
{
    let f = |s: SessionEntry| all || (prefix@ + seq!['-']).is_prefix_of(s.name@);
    assert(f =~= shown(prefix@, all));
    if all {
        filters::lemma_filter_all(sessions@, shown(prefix@, all));
    }
}

/// The names of sessions are their names, in order.
pub proof fn names_are_the_names(sessions: &Vec<SessionEntry>, res: Vec<String>)
    requires
        call_ensures(names_of, (sessions,), res),
    ensures
        res@.len() == sessions@.len(),
        forall|i: int| 0 <= i < res@.len() ==> #[trigger] res@[i]@ == sessions@[i].name@,
{
    lemma_named(sessions@, res@);
}

proof fn lemma_named(sessions: Seq<SessionEntry>, list: Seq<String>)
    requires
        text::texts(list) == names(sessions),
    ensures
        list.len() == sessions.len(),
        forall|i: int| 0 <= i < list.len() ==> #[trigger] list[i]@ == sessions[i].name@,
{
    assert(text::texts(list).len() == list.len());
    assert forall|i: int| 0 <= i < list.len() implies #[trigger] list[i]@ == sessions[i].name@ by {
        assert(text::texts(list)[i] == names(sessions)[i]);
    }
}

/// The menu holds one line for each of the sessions, in order: the line of that
/// session, for its name.
pub open spec fn menu_of(menu: Menu, sessions: Seq<SessionEntry>) -> bool {
    &&& menu.names@.len() == sessions.len()
    &&& menu.items@.len() == sessions.len()
    &&& forall|i: int| 0 <= i < sessions.len() ==> #[trigger] menu.names@[i]@ == sessions[i].name@
    &&& forall|i: int| 0 <= i < sessions.len() ==> #[trigger] menu.items@[i]@ == sessions[i].line()
}

proof fn lemma_menu(menu: Menu, sessions: Seq<SessionEntry>)
    requires
        menu.shows(sessions),
    ensures
        menu_of(menu, sessions),
{
    lemma_named(sessions, menu.names@);
    let lines = Seq::new(sessions.len(), |i: int| sessions[i].line());
    assert(text::texts(menu.items@).len() == menu.items@.len());
    assert forall|i: int| 0 <= i < sessions.len() implies #[trigger] menu.items@[i]@ == sessions[i].line() by {
        assert(text::texts(menu.items@)[i] == lines[i]);
    }
}

/// Both menus hold exactly the sessions that are shown, each under its own line;
/// without such a session there is no menu, and the message names the host.
pub proof fn menus_hold_the_sessions_shown(
    sessions: &Vec<SessionEntry>,
    prefix: &str,
    all: bool,
    host: &str,
    on_show: Vec<SessionEntry>,
    to_attach: Result<Menu, String>,
    to_kill: Result<Menu, String>,
)
    requires
        call_ensures(visible_sessions, (sessions, prefix, all), on_show),
        call_ensures(pick_session_interactive, (sessions, prefix, all, host), to_attach),
        call_ensures(pick_sessions_to_kill, (sessions, prefix, all, host), to_kill),
    ensures
        on_show@.len() > 0 ==> {
            &&& to_attach matches Ok(menu) && menu_of(menu, on_show@)
            &&& to_kill matches Ok(menu) && menu_of(menu, on_show@)
        },
        on_show@.len() == 0 ==> {
            &&& to_attach matches Err(message) && message@ == "no existing sessions on "@ + host@
            &&& to_kill matches Err(message) && message@ == "no sessions on "@ + host@
        },
{
    if let Ok(menu) = to_attach {
        lemma_menu(menu, on_show@);
    }
    if let Ok(menu) = to_kill {
        lemma_menu(menu, on_show@);
    }
}

/// What is picked from a menu is what stands at the places that were picked, in
/// the order in which they were picked.
pub proof fn picking_gives_the_names_at_the_places(
    menu: &Menu,
    index: usize,
    indices: &Vec<usize>,
    one: String,
    some: Result<Vec<String>, String>,
)
    requires
        index < menu.names@.len(),
        forall|i: int| 0 <= i < indices@.len() ==> #[trigger] indices@[i] < menu.names@.len(),
        call_ensures(Menu::picked, (menu, index), one),
        call_ensures(Menu::picked_all, (menu, indices), some),
    ensures
        one@ == menu.names@[index as int]@,
        indices@.len() == 0 ==> (some matches Err(message) && message@ == "no sessions selected"@),
        indices@.len() > 0 ==> (some matches Ok(picked) && picked@.len() == indices@.len() && forall|i: int|
            0 <= i < indices@.len() ==> #[trigger] picked@[i]@ == menu.names@[indices@[i] as int]@),
{
    if let Ok(picked) = some {
        let all = Seq::new(indices@.len(), |i: int| menu.names@[indices@[i] as int]@);
        assert(text::texts(picked@).len() == picked@.len());
        assert forall|i: int| 0 <= i < indices@.len() implies #[trigger] picked@[i]@ == menu.names@[indices@[i] as int]@ by {
            assert(text::texts(picked@)[i] == all[i]);
        }
    }
}

/// Cleaning up kills the sessions that are shown and that the host lists as
/// disconnected, in order, and no others.
pub proof fn cleaning_kills_disconnected_sessions(
    sessions: &Vec<SessionEntry>,
    prefix: &str,
    all: bool,
    on_show: Vec<SessionEntry>,
    res: Vec<String>,
)
    requires
        call_ensures(visible_sessions, (sessions, prefix, all), on_show),
        call_ensures(clean_detached, (sessions, prefix, all), res),
    ensures
        ({
            let gone = on_show@.filter(|s: SessionEntry| s.status == SessionStatus::Disconnected);
            res@.len() == gone.len() && forall|i: int| 0 <= i < res@.len() ==> #[trigger] res@[i]@ == gone[i].name@
        }),
{
    let f = |s: SessionEntry| s.status == SessionStatus::Disconnected;
    let both = left_behind(prefix@, all);
    filters::lemma_filter_twice(sessions@, shown(prefix@, all), f, both);
    lemma_named(sessions@.filter(both), res@);
}

/// The listing asks our own daemon for its sessions as JSON.
pub proof fn listing_asks_our_daemon(paths: &RemotePaths, shpool: String, socket: String, res: ListStep)
    requires
        call_ensures(RemotePaths::shpool, (paths,), shpool),
        call_ensures(RemotePaths::socket, (paths,), socket),
        call_ensures(list_sessions, (paths,), res),
    ensures
        res matches ListStep::Capture { command } && command@ == shpool@ + " --socket "@ + socket@
            + " list --json 2>/dev/null"@,
{
}

/// Blank output lists no sessions; any other output is decoded as it is. What
/// the decoding gives is what is listed, and each failure is reported with its
/// cause.
pub proof fn listings_are_decoded(step: ListStep, reply: ListReply, output: String, parsed: ListStep, res: ListStep)
    requires
        call_ensures(ListStep::next, (step, reply), res),
        call_ensures(parse_session_list, (output,), parsed),
    ensures
        (forall|i: int| 0 <= i < output@.len() ==> text::is_white(#[trigger] output@[i])) ==> (parsed matches ListStep::Listed(s)
            && s@.len() == 0),
        (exists|i: int| 0 <= i < output@.len() && !text::is_white(#[trigger] output@[i])) ==> parsed == (ListStep::Decode {
            output,
        }),
        step is Capture && reply == ListReply::Output(output) ==> {
            ||| res == parsed
            ||| res is Listed && parsed is Listed && res->Listed_0@.len() == 0 && parsed->Listed_0@.len() == 0
        },
        step is Capture && reply is CaptureFailed ==> res == ListStep::Failed(reply->CaptureFailed_0),
        step is Decode && reply is Decoded ==> res == ListStep::Listed(reply->Decoded_0),
        step is Decode && reply is DecodeFailed ==> (res matches ListStep::Failed(message) && message@
            == "invalid shpool list --json response: "@ + reply->DecodeFailed_0@),
        step is Listed || step is Failed ==> res == step,
        step is Capture && (reply is Decoded || reply is DecodeFailed) ==> res == step,
        step is Decode && (reply is Output || reply is CaptureFailed) ==> res == step,
{
    lemma_blank(output@);
}

/// A text is blank if and only if every character of it is white space.
proof fn lemma_blank(s: Seq<char>)
    ensures
        text::trimmed(s).len() == 0 <==> forall|i: int| 0 <= i < s.len() ==> text::is_white(#[trigger] s[i]),
{
    text::trimming_takes_white_space_at_the_ends(s);
    let (from, to) = choose|from: int, to: int|
        #[trigger] text::trims_to(s, text::whites(), from, to) && text::trimmed(s) == s.subrange(from, to);
    if from == to {
        assert forall|i: int| 0 <= i < s.len() implies text::is_white(#[trigger] s[i]) by {
            let white = text::whites();
            if i < from {
                assert(white(s[i]));
            } else {
                assert(white(s[i]));
            }
        }
    } else {
        assert(!text::is_white(s[from]));
    }
}

/// A session is already gone if some line of the error output, white space
/// aside, starts with `not found:`.
pub proof fn gone_is_said_at_the_start_of_a_line(stderr: &str, res: bool)
    requires
        call_ensures(is_already_gone, (stderr,), res),
    ensures
        res <==> exists|i: int|
            0 <= i < text::lines_of(stderr@).len() && "not found:"@.is_prefix_of(
                text::trimmed(#[trigger] text::lines_of(stderr@)[i]),
            ),
{
}

/// The command that kills a session asks our own daemon to kill exactly that
/// session.
pub proof fn kill_commands_name_the_session(
    env: spec_fn(Seq<char>) -> Seq<char>,
    paths: &RemotePaths,
    session: &str,
    res: String,
)
    requires
        call_ensures(kill_command, (paths, session), res),
    ensures
        is_kill_of(env, paths@, session@, res@),
{
    lemma_kill_words(env, paths@, session@);
}

/// The command kills the session of that name, and no other.
pub open spec fn is_kill_of(env: spec_fn(Seq<char>) -> Seq<char>, dir: Seq<char>, session: Seq<char>, command: Seq<char>) -> bool {
    shell::shell_words(env, command) == Some(
        seq![
            env("HOME"@) + seq!['/'] + dir + "/bin/shpool"@,
            "--socket"@,
            env("HOME"@) + "/.local/run/sshr/shpool.socket"@,
            "kill"@,
            "--"@,
            session,
        ],
    )
}

proof fn lemma_kill_words(env: spec_fn(Seq<char>) -> Seq<char>, dir: Seq<char>, session: Seq<char>)
    ensures
        is_kill_of(env, dir, session, cmd::command(kill_parts(dir, session))),
{
    kill_command_words(env, dir, session);
    let home = env("HOME"@);
    reveal_strlit("bin/shpool");
    reveal_strlit("/bin/shpool");
    reveal_strlit(".local/run/sshr");
    reveal_strlit("/shpool.socket");
    reveal_strlit("/.local/run/sshr/shpool.socket");
    assert(home + seq!['/'] + upload::below(dir, "bin/shpool"@) =~= home + seq!['/'] + dir + "/bin/shpool"@);
    assert(home + seq!['/'] + upload::REMOTE_SOCKET_DIR@ + "/shpool.socket"@ =~= home + "/.local/run/sshr/shpool.socket"@);
}

/// What is known of the sessions at a step.
pub open spec fn known(step: KillStep) -> Seq<Outcome> {
    match step {
        KillStep::Run { outcomes, .. } => outcomes@,
        KillStep::Done(outcomes) => outcomes@,
    }
}

/// The outcomes agree: the same session, and the same error if there is one.
pub open spec fn same_outcome(a: Outcome, b: Outcome) -> bool {
    a.0@ == b.0@ && match (a.1, b.1) {
        (Some(x), Some(y)) => x@ == y@,
        (None, None) => true,
        _ => false,
    }
}

/// The step goes on with the first session without an outcome, or is done when
/// there is none.
pub open spec fn goes_on(env: spec_fn(Seq<char>) -> Seq<char>, dir: Seq<char>, sessions: Seq<String>, step: KillStep) -> bool {
    if known(step).len() < sessions.len() {
        step matches KillStep::Run { command, sessions: s, outcomes } && {
            &&& is_kill_of(env, dir, sessions[known(step).len() as int]@, command@)
            &&& s@.len() == sessions.len()
            &&& forall|i: int| 0 <= i < sessions.len() ==> #[trigger] s@[i]@ == sessions[i]@
        }
    } else {
        step is Done
    }
}

proof fn lemma_goes_on(
    env: spec_fn(Seq<char>) -> Seq<char>,
    dir: Seq<char>,
    sessions: Seq<String>,
    outcomes: Seq<(Seq<char>, Option<Seq<char>>)>,
    step: KillStep,
)
    requires
        is_kill_step(dir, text::texts(sessions), outcomes, step),
    ensures
        goes_on(env, dir, sessions, step),
        outcomes_view(known(step)) == outcomes,
        known(step).len() == outcomes.len(),
{
    assert(text::texts(sessions).len() == sessions.len());
    assert(outcomes_view(known(step)).len() == known(step).len());
    if outcomes.len() < sessions.len() {
        lemma_kill_words(env, dir, sessions[outcomes.len() as int]@);
        let s = step->sessions;
        assert(text::texts(s@).len() == s@.len());
        assert forall|i: int| 0 <= i < sessions.len() implies #[trigger] s@[i]@ == sessions[i]@ by {
            assert(text::texts(s@)[i] == text::texts(sessions)[i]);
        }
    }
}

/// Killing starts with the first session, with nothing known of any.
pub proof fn killing_starts_with_the_first_session(
    env: spec_fn(Seq<char>) -> Seq<char>,
    paths: &RemotePaths,
    sessions: Vec<String>,
    res: KillStep,
)
    requires
        call_ensures(kill_each, (paths, sessions), res),
    ensures
        known(res).len() == 0,
        goes_on(env, paths@, sessions@, res),
{
    lemma_goes_on(env, paths@, sessions@, Seq::empty(), res);
}

/// A request that ran adds one outcome, for the session it was about, and leaves
/// the others as they were. The session was killed if the request succeeded,
/// whatever it printed, or if the daemon did not find it. Otherwise it was not,
/// and the error is what the output says or else the exit status.
pub proof fn a_request_decides_about_its_own_session(
    env: spec_fn(Seq<char>) -> Seq<char>,
    paths: &RemotePaths,
    step: KillStep,
    output: RemoteOutput,
    res: KillStep,
)
    requires
        step matches KillStep::Run { sessions, outcomes, .. } && outcomes@.len() < sessions@.len(),
        call_ensures(KillStep::next, (step, paths, KillReply::Exited(output)), res),
    ensures
        ({
            let sessions = step->sessions@;
            let at = known(step).len() as int;
            let added = known(res)[at];
            let not_found = exists|i: int|
                0 <= i < text::lines_of(output.stderr@).len() && "not found:"@.is_prefix_of(
                    text::trimmed(#[trigger] text::lines_of(output.stderr@)[i]),
                );
            &&& known(res).len() == at + 1
            &&& forall|i: int| 0 <= i < at ==> same_outcome(#[trigger] known(res)[i], known(step)[i])
            &&& added.0@ == sessions[at]@
            &&& output.success ==> added.1 is None
            &&& not_found ==> added.1 is None
            &&& !output.success && !not_found ==> (added.1 matches Some(err) && match output.detail {
                Some(detail) => err@ == detail@,
                None => err@ == "shpool kill exited with "@ + output.status@,
            })
            &&& goes_on(env, paths@, sessions, res)
        }),
{
    let sessions = step->sessions@;
    let before = outcomes_view(known(step));
    let after = with_reply(text::texts(sessions), before, KillReply::Exited(output));
    lemma_goes_on(env, paths@, sessions, after, res);
    let at = known(step).len() as int;
    assert(before.len() == at);
    assert(after.len() == at + 1);
    assert(outcomes_view(known(res))[at] == after[at]);
    assert forall|i: int| 0 <= i < at implies same_outcome(#[trigger] known(res)[i], known(step)[i]) by {
        assert(outcomes_view(known(res))[i] == after[i]);
        assert(after[i] == before[i]);
    }
}

/// A connection that failed ends the requests: every session without an outcome
/// gets the connection's error, and the others keep theirs.
pub proof fn a_failed_connection_decides_about_the_rest(
    paths: &RemotePaths,
    step: KillStep,
    err: String,
    res: KillStep,
)
    requires
        step matches KillStep::Run { sessions, outcomes, .. } && outcomes@.len() < sessions@.len(),
        call_ensures(KillStep::next, (step, paths, KillReply::Unreachable(err)), res),
    ensures
        ({
            let sessions = step->sessions@;
            let at = known(step).len() as int;
            &&& res is Done
            &&& known(res).len() == sessions.len()
            &&& forall|i: int| 0 <= i < at ==> same_outcome(#[trigger] known(res)[i], known(step)[i])
            &&& forall|i: int|
                at <= i < sessions.len() ==> (#[trigger] known(res)[i]).0@ == sessions[i]@ && (known(res)[i].1 matches Some(e)
                    && e@ == err@)
        }),
{
    let sessions = step->sessions@;
    let before = outcomes_view(known(step));
    let after = with_reply(text::texts(sessions), before, KillReply::Unreachable(err));
    let at = known(step).len() as int;
    assert(text::texts(sessions).len() == sessions.len());
    assert(before.len() == at);
    assert(outcomes_view(known(res)).len() == known(res).len());
    assert(outcomes_view(known(res)) == after);
    assert forall|i: int| 0 <= i < at implies same_outcome(#[trigger] known(res)[i], known(step)[i]) by {
        assert(outcomes_view(known(res))[i] == after[i]);
        assert(after[i] == before[i]);
    }
    assert forall|i: int| at <= i < sessions.len() implies (#[trigger] known(res)[i]).0@ == sessions[i]@ && (
    known(res)[i].1 matches Some(e) && e@ == err@) by {
        assert(outcomes_view(known(res))[i] == after[i]);
    }
}

/// When every outcome is known nothing more is asked.
pub proof fn killing_ends(paths: &RemotePaths, step: KillStep, reply: KillReply, res: KillStep)
    requires
        step is Done,
        call_ensures(KillStep::next, (step, paths, reply), res),
    ensures
        res == step,
{
}

/// Killing succeeded if no session has an error. Otherwise the report counts the
/// failures and the sessions, and lists exactly the failures, in order, each with
/// its session and its error.
pub proof fn the_report_lists_the_failures(outcomes: &Vec<Outcome>, res: Result<(), String>)
    requires
        call_ensures(kill_sessions, (outcomes,), res),
    ensures
        ({
            let failed = outcomes@.filter(|o: Outcome| o.1 is Some);
            let lines = failed.map_values(|o: Outcome| o.0@ + ": "@ + o.1->0@);
            match res {
                Ok(()) => failed.len() == 0,
                Err(message) => failed.len() > 0 && message@ == "failed to kill "@ + text::decimal(failed.len()) + " of "@
                    + text::decimal(outcomes@.len()) + " session(s):\n  "@ + text::joined(lines, "\n  "@),
            }
        }),
{
    let bad = |o: Outcome| o.1 is Some;
    let line = |o: Outcome| o.0@ + ": "@ + o.1->0@;
    let failed = outcomes@.filter(bad);
    lemma_failures(outcomes@, bad, line);
    assert(outcomes_view(outcomes@).len() == outcomes@.len());
    match res {
        Ok(()) => {
            if failed.len() > 0 {
                filters::lemma_filter_members(outcomes@, bad, failed[0]);
                assert(failed.contains(failed[0]));
                let i = choose|i: int| 0 <= i < outcomes@.len() && outcomes@[i] == failed[0];
                assert(outcomes@[i].1 is Some);
            }
        },
        Err(_) => {
            let i = choose|i: int| 0 <= i < outcomes@.len() && (#[trigger] outcomes@[i]).1 is Some;
            filters::lemma_filter_members(outcomes@, bad, outcomes@[i]);
        },
    }
}

proof fn lemma_failures(outcomes: Seq<Outcome>, bad: spec_fn(Outcome) -> bool, line: spec_fn(Outcome) -> Seq<char>)
    requires
        forall|o: Outcome| #[trigger] bad(o) == (o.1 is Some),
        forall|o: Outcome| #[trigger] line(o) == o.0@ + ": "@ + o.1->0@,
    ensures
        failures(outcomes_view(outcomes)) == outcomes.filter(bad).map_values(line),
    decreases outcomes.len(),
{
    let view = outcomes_view(outcomes);
    if outcomes.len() == 0 {
        reveal(Seq::filter);
        assert(outcomes.filter(bad).map_values(line) =~= Seq::empty());
    } else {
        let init = outcomes.drop_last();
        let o = outcomes.last();
        lemma_failures(init, bad, line);
        assert(view.drop_last() =~= outcomes_view(init));
        init.lemma_filter_push(o, bad);
        assert(init.push(o) =~= outcomes);
        if bad(o) {
            assert(outcomes.filter(bad).map_values(line) =~= init.filter(bad).map_values(line).push(line(o)));
        }
    }
}

} // verus!
