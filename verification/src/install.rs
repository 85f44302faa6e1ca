//! Getting the session daemon onto a remote host, or replacing it there.
//!
//! Each step names one thing to do, on the remote host, on the local disk or
//! with the user; whoever runs the steps does it and hands back what came of it.
use vstd::prelude::*;

use crate::init;
use crate::init::HostConfig;
use crate::session;
use crate::session::SessionEntry;
use crate::text;
use crate::upload;
use crate::upload::RemotePaths;

verus! {

// ------------------------------------------------------------------ platform
/// The operating system and the processor of a remote host, as they occur in
/// the names of the binaries.
#[derive(Debug)]
pub struct RemotePlatform {
    pub os: String,
    pub arch: String,
}

/// The field of that index, or `unknown`.
pub open spec fn field_or_unknown(output: Seq<char>, index: int) -> Seq<char> {
    if index < text::fields_of(output).len() {
        text::fields_of(output)[index]
    } else {
        "unknown"@
    }
}

/// The one name that a processor goes by.
pub open spec fn arch_name(reported: Seq<char>) -> Seq<char> {
    if reported == "amd64"@ {
        "x86_64"@
    } else if reported == "arm64"@ {
        "aarch64"@
    } else {
        reported
    }
}

/// The name of the binary for a host on which `uname -sm` printed `output`.
pub open spec fn binary_for(output: Seq<char>) -> Seq<char> {
    "shpool-"@ + text::lowercased(field_or_unknown(output, 0)) + "-"@ + arch_name(field_or_unknown(output, 1))
}

/// The platform of a host on which `uname -sm` printed `output`.
pub fn detect_remote_platform(output: &str) -> (res: RemotePlatform)
    ensures
        res.os@ == text::lowercased(field_or_unknown(output@, 0)),
        text::is_ascii_text(field_or_unknown(output@, 0)) ==> res.os@ == text::ascii_lowercased(field_or_unknown(output@, 0)),
        res.arch@ == arch_name(field_or_unknown(output@, 1)),
{
    let parts = text::fields(output);
    assert(text::texts(parts@).len() == parts@.len());
    let os = if parts.len() > 0 {
        assert(text::texts(parts@)[0] == parts@[0]@);
        text::lowercase(parts[0].as_str())
    } else {
        text::lowercase("unknown")
    };
    let arch: String = if parts.len() > 1 {
        assert(text::texts(parts@)[1] == parts@[1]@);
        parts[1].clone()
    } else {
        "unknown".to_owned()
    };
    let arch: String = if text::same_text(arch.as_str(), "amd64") {
        "x86_64".to_owned()
    } else if text::same_text(arch.as_str(), "arm64") {
        "aarch64".to_owned()
    } else {
        arch
    };
    RemotePlatform { os, arch }
}

impl RemotePlatform {
    /// The name of the binary for this platform.
    pub fn binary_name(&self) -> (res: String)
        ensures
            res@ == "shpool-"@ + self.os@ + "-"@ + self.arch@,
    {
        let mut out: String = "shpool-".to_owned();
        out.append(self.os.as_str());
        out.append("-");
        out.append(self.arch.as_str());
        out
    }
}

// ------------------------------------------------------------- local binaries
/// Where the binaries are kept, seen from a directory above the executable.
#[derive(Debug, Clone, Copy, PartialEq, Eq, Structural)]
pub enum ShpoolPlace {
    /// In a checkout of the sources.
    Checkout,
    /// In an installation.
    Installation,
}

impl ShpoolPlace {
    /// The path below the directory.
    pub fn suffix(self) -> (res: &'static str)
        ensures
            res@ == match self {
                ShpoolPlace::Checkout => "shpool/bin"@,
                ShpoolPlace::Installation => "share/resh/shpool/bin"@,
            },
    {
        match self {
            ShpoolPlace::Checkout => "shpool/bin",
            ShpoolPlace::Installation => "share/resh/shpool/bin",
        }
    }
}

/// What is next to do to find the directory of the local binaries.
#[derive(Debug)]
pub enum FindStep {
    /// See whether the directory that the environment names is one.
    ProbeConfigured,
    /// Find the executable, and count the directories above it.
    LocateExe,
    /// See whether `place` is a directory below the directory that is `up`
    /// levels above the one of the executable; there are `above` in all.
    Probe { up: usize, above: usize, place: ShpoolPlace },
    /// It is the directory that the environment names.
    FoundConfigured,
    /// It is this one.
    Found { up: usize, place: ShpoolPlace },
    /// There is none.
    NotFound,
    /// The executable could not be found, for this reason.
    Failed(String),
}

/// What came of a `FindStep`.
#[derive(Debug)]
pub enum FindReply {
    /// It is a directory, or not.
    IsDirectory(bool),
    /// There are so many directories above the executable.
    DirectoriesAbove(usize),
    /// The executable could not be found.
    ExeFailed(String),
}

/// The first thing to do to find the local binaries. `configured` says whether
/// the environment names a directory for them.
pub fn find_shpool_dir(configured: bool) -> (res: FindStep)
    ensures
        res == if configured {
            FindStep::ProbeConfigured
        } else {
            FindStep::LocateExe
        },
{
    if configured {
        FindStep::ProbeConfigured
    } else {
        FindStep::LocateExe
    }
}

impl FindStep {
    /// What to do after `self` was done and `reply` came of it. A reply that
    /// does not answer the step changes nothing.
    pub open spec fn after(self, reply: FindReply) -> FindStep {
        match (self, reply) {
            (FindStep::ProbeConfigured, FindReply::IsDirectory(yes)) => if yes {
                FindStep::FoundConfigured
            } else {
                FindStep::LocateExe
            },
            (FindStep::LocateExe, FindReply::ExeFailed(err)) => FindStep::Failed(err),
            (FindStep::LocateExe, FindReply::DirectoriesAbove(above)) => if above == 0 {
                FindStep::NotFound
            } else {
                FindStep::Probe { up: 0, above, place: ShpoolPlace::Checkout }
            },
            (FindStep::Probe { up, above, place }, FindReply::IsDirectory(yes)) => if yes {
                FindStep::Found { up, place }
            } else if place == ShpoolPlace::Checkout {
                FindStep::Probe { up, above, place: ShpoolPlace::Installation }
            } else if up + 1 < above {
                FindStep::Probe { up: (up + 1) as usize, above, place: ShpoolPlace::Checkout }
            } else {
                FindStep::NotFound
            },
            _ => self,
        }
    }

    /// What to do next.
    pub fn next(self, reply: FindReply) -> (res: FindStep)
        ensures
            res == self.after(reply),
    {
        match (self, reply) {
            (FindStep::ProbeConfigured, FindReply::IsDirectory(yes)) => if yes {
                FindStep::FoundConfigured
            } else {
                FindStep::LocateExe
            },
            (FindStep::LocateExe, FindReply::ExeFailed(err)) => FindStep::Failed(err),
            (FindStep::LocateExe, FindReply::DirectoriesAbove(above)) => if above == 0 {
                FindStep::NotFound
            } else {
                FindStep::Probe { up: 0, above, place: ShpoolPlace::Checkout }
            },
            (FindStep::Probe { up, above, place }, FindReply::IsDirectory(yes)) => if yes {
                FindStep::Found { up, place }
            } else if place == ShpoolPlace::Checkout {
                FindStep::Probe { up, above, place: ShpoolPlace::Installation }
            } else if up < above && up + 1 < above {
                FindStep::Probe { up: up + 1, above, place: ShpoolPlace::Checkout }
            } else {
                FindStep::NotFound
            },
            (step, _) => step,
        }
    }

    /// The step after the given answers to probes.
    pub open spec fn after_answers(self, answers: Seq<bool>) -> FindStep
        decreases answers.len(),
    {
        if answers.len() == 0 {
            self
        } else {
            self.after_answers(answers.drop_last()).after(FindReply::IsDirectory(answers.last()))
        }
    }
}

/// The probe of that rank: from the executable's own directory upwards, in each
/// directory a checkout before an installation.
pub open spec fn probe_of_rank(above: usize, rank: nat) -> FindStep {
    FindStep::Probe {
        up: (rank / 2) as usize,
        above,
        place: if rank % 2 == 0 {
            ShpoolPlace::Checkout
        } else {
            ShpoolPlace::Installation
        },
    }
}

/// The search goes upwards from the executable and the nearest directory wins:
/// after that many probes that found nothing, the next probe is the one of that
/// rank, and what it finds is the result. The search ends without a result only
/// when every place was probed.
pub proof fn the_nearest_directory_wins(above: usize, answers: Seq<bool>)
    requires
        answers.len() <= 2 * above,
        forall|i: int| 0 <= i < answers.len() ==> !#[trigger] answers[i],
    ensures
        FindStep::LocateExe.after(FindReply::DirectoriesAbove(above)).after_answers(answers) == if answers.len() < 2 * above {
            probe_of_rank(above, answers.len())
        } else {
            FindStep::NotFound
        },
        probe_of_rank(above, answers.len()).after(FindReply::IsDirectory(true)) == (FindStep::Found {
            up: (answers.len() / 2) as usize,
            place: if answers.len() % 2 == 0 {
                ShpoolPlace::Checkout
            } else {
                ShpoolPlace::Installation
            },
        }),
    decreases answers.len(),
{
    if answers.len() > 0 {
        let init = answers.drop_last();
        assert forall|i: int| 0 <= i < init.len() implies !#[trigger] init[i] by {
            assert(init[i] == answers[i]);
        }
        the_nearest_directory_wins(above, init);
        assert(!answers[answers.len() - 1]);
    }
}

/// What is next to do to find the local binary for a remote host.
///
/// Separate from the upload so callers can fail before doing anything
/// irreversible: an upgrade kills sessions and stops the daemon, and neither
/// may happen when there is nothing to install.
#[derive(Debug)]
pub enum ResolveStep {
    /// Run the command on the host and capture its output.
    Uname { command: String },
    /// Find the directory of the local binaries.
    FindDir { binary_name: String },
    /// See whether the directory holds the binary.
    Check { binary_name: String },
    /// It does, at this path.
    Resolved(Vec<u8>),
    /// There is no binary, with this message.
    Failed(String),
}

/// What came of a `ResolveStep`.
#[derive(Debug)]
pub enum ResolveReply {
    /// The command ran and printed this.
    Output(String),
    /// The command could not be run, or failed.
    CaptureFailed(String),
    /// There is a directory of local binaries.
    DirFound,
    /// There is none, with this message.
    DirMissing(String),
    /// The binary is at this path.
    Exists(Vec<u8>),
    /// The binary is not at this path.
    Missing(String),
}

/// The first thing to do to find the local binary for a remote host.
pub fn resolve_local_binary() -> (res: ResolveStep)
    ensures
        res matches ResolveStep::Uname { command } && command@ == "uname -sm"@,
{
    ResolveStep::Uname { command: "uname -sm".to_owned() }
}

impl ResolveStep {
    /// `next` is what to do after `self` was done and `reply` came of it. A
    /// reply that does not answer the step changes nothing.
    pub open spec fn leads_to(self, reply: ResolveReply, next: ResolveStep) -> bool {
        match (self, reply) {
            (ResolveStep::Uname { .. }, ResolveReply::Output(output)) => {
                next matches ResolveStep::FindDir { binary_name } && binary_name@ == binary_for(output@)
            },
            (ResolveStep::Uname { .. }, ResolveReply::CaptureFailed(err)) => {
                next matches ResolveStep::Failed(message) && message@ == "failed to detect remote platform: "@ + err@
            },
            (ResolveStep::FindDir { binary_name }, ResolveReply::DirFound) => next == (ResolveStep::Check { binary_name }),
            (ResolveStep::FindDir { .. }, ResolveReply::DirMissing(err)) => {
                next matches ResolveStep::Failed(message) && message@
                    == "no local shpool binaries found (set SSHR_SHPOOL_DIR): "@ + err@
            },
            (ResolveStep::Check { .. }, ResolveReply::Exists(path)) => next == ResolveStep::Resolved(path),
            (ResolveStep::Check { binary_name }, ResolveReply::Missing(path)) => {
                next matches ResolveStep::Failed(message) && message@ == "no shpool binary for "@ + binary_name@
                    + " (expected "@ + path@ + ")"@
            },
            _ => next == self,
        }
    }

    /// What to do next.
    pub fn next(self, reply: ResolveReply) -> (res: ResolveStep)
        ensures
            self.leads_to(reply, res),
    {
        match (self, reply) {
            (ResolveStep::Uname { .. }, ResolveReply::Output(output)) => {
                let platform = detect_remote_platform(output.as_str());
                ResolveStep::FindDir { binary_name: platform.binary_name() }
            },
            (ResolveStep::Uname { .. }, ResolveReply::CaptureFailed(err)) => {
                let mut message: String = "failed to detect remote platform: ".to_owned();
                message.append(err.as_str());
                ResolveStep::Failed(message)
            },
            (ResolveStep::FindDir { binary_name }, ResolveReply::DirFound) => ResolveStep::Check { binary_name },
            (ResolveStep::FindDir { .. }, ResolveReply::DirMissing(err)) => {
                let mut message: String = "no local shpool binaries found (set SSHR_SHPOOL_DIR): ".to_owned();
                message.append(err.as_str());
                ResolveStep::Failed(message)
            },
            (ResolveStep::Check { .. }, ResolveReply::Exists(path)) => ResolveStep::Resolved(path),
            (ResolveStep::Check { binary_name }, ResolveReply::Missing(path)) => {
                let mut message: String = "no shpool binary for ".to_owned();
                message.append(binary_name.as_str());
                message.append(" (expected ");
                message.append(path.as_str());
                message.append(")");
                ResolveStep::Failed(message)
            },
            (step, _) => step,
        }
    }
}

// -------------------------------------------------------------------- upload
/// What is next to do to upload the binary.
#[derive(Debug)]
pub enum UploadStep {
    /// Run the command, which makes the directory.
    MakeDir { command: String },
    /// Copy the local binary to this path, relative to the remote home
    /// directory: beside the old one, not over it.
    Copy { target: String },
    /// Run the command, which renames the copy over the old binary.
    Install { command: String },
    Done,
    /// The upload failed, with this message.
    Failed(String),
}

/// The first thing to do to upload the binary.
pub fn upload_shpool(paths: &RemotePaths) -> (res: UploadStep)
    ensures
        res matches UploadStep::MakeDir { command } && command@ == "mkdir -p "@ + upload::home_word(
            upload::below(paths@, "bin"@),
        ),
{
    let mut command: String = "mkdir -p ".to_owned();
    command.append(paths.shpool_dir().as_str());
    UploadStep::MakeDir { command }
}

impl UploadStep {
    /// `next` is what to do after `self` was done and `result` came of it.
    pub open spec fn leads_to(self, dir: Seq<char>, result: Result<(), String>, next: UploadStep) -> bool {
        match (self, result) {
            (UploadStep::Done, _) => next == self,
            (UploadStep::Failed(_), _) => next == self,
            (_, Err(err)) => next == UploadStep::Failed(err),
            (UploadStep::MakeDir { .. }, Ok(())) => {
                next matches UploadStep::Copy { target } && target@ == upload::below(dir, "bin/shpool.new"@)
            },
            (UploadStep::Copy { .. }, Ok(())) => {
                next matches UploadStep::Install { command } && command@ == upload::install_command(dir)
            },
            (UploadStep::Install { .. }, Ok(())) => next == UploadStep::Done,
        }
    }

    /// What to do next.
    pub fn next(self, paths: &RemotePaths, result: Result<(), String>) -> (res: UploadStep)
        ensures
            self.leads_to(paths@, result, res),
    {
        match (self, result) {
            (UploadStep::Done, _) => UploadStep::Done,
            (UploadStep::Failed(err), _) => UploadStep::Failed(err),
            (_, Err(err)) => UploadStep::Failed(err),
            (UploadStep::MakeDir { .. }, Ok(())) => UploadStep::Copy { target: paths.scp_path("bin/shpool.new") },
            (UploadStep::Copy { .. }, Ok(())) => UploadStep::Install { command: upload::install_uploaded_cmd(paths) },
            (UploadStep::Install { .. }, Ok(())) => UploadStep::Done,
        }
    }
}

/// The steps follow from each other by the results, from the making of the
/// directory on.
pub open spec fn is_upload_run(dir: Seq<char>, steps: Seq<UploadStep>, results: Seq<Result<(), String>>) -> bool {
    &&& steps.len() == results.len() + 1
    &&& steps[0] is MakeDir
    &&& forall|i: int| 0 <= i < results.len() ==> (#[trigger] steps[i]).leads_to(dir, results[i], steps[i + 1])
}

/// `step` copies the local binary beside the old one.
pub open spec fn is_copy_beside(dir: Seq<char>, step: UploadStep) -> bool {
    step matches UploadStep::Copy { target } && target@ == upload::below(dir, "bin/shpool.new"@)
}

/// `step` renames the copy over the old binary.
pub open spec fn is_install(dir: Seq<char>, step: UploadStep) -> bool {
    step matches UploadStep::Install { command } && command@ == upload::install_command(dir)
}

/// The binary is copied beside the old one and renamed over it: whatever is
/// copied goes there, what is renamed was copied before, and the upload is done
/// only when that has been done.
pub proof fn uploads_land_beside_the_old_binary(
    dir: Seq<char>,
    steps: Seq<UploadStep>,
    results: Seq<Result<(), String>>,
    at: int,
)
    requires
        is_upload_run(dir, steps, results),
        0 <= at < steps.len(),
    ensures
        steps[at] is Copy ==> is_copy_beside(dir, steps[at]),
        steps[at] is Install ==> is_install(dir, steps[at]) && exists|i: int|
            0 <= i < at && is_copy_beside(dir, #[trigger] steps[i]) && results[i] is Ok,
        steps[at] is Done ==> exists|i: int| 0 <= i < at && is_install(dir, #[trigger] steps[i]) && results[i] is Ok,
    decreases at,
{
    if at > 0 {
        uploads_land_beside_the_old_binary(dir, steps, results, at - 1);
        assert(steps[at - 1].leads_to(dir, results[at - 1], steps[at - 1 + 1]));
    }
}

// ------------------------------------------------------------------- upgrade
/// What is next to do to make way for a new binary.
#[derive(Debug)]
pub enum PrepareStep {
    /// List the sessions of the host.
    List,
    /// Ask the user.
    Confirm { prompt: String, names: Vec<String> },
    /// Kill these sessions.
    Kill { names: Vec<String> },
    /// Show the warnings, and run the command, which stops the daemon.
    StopDaemon { warnings: Vec<String>, command: String },
    /// The binary can be replaced.
    Ready,
    /// The user declined.
    Declined,
    /// The preparation failed, with this message.
    Failed(String),
}

/// What came of a `PrepareStep`.
#[derive(Debug)]
pub enum PrepareReply {
    /// The host has these sessions.
    Listed(Vec<SessionEntry>),
    /// The user said yes, or no.
    Answered(bool),
    /// The sessions were killed, or not, with these outcomes.
    Killed(Vec<session::Outcome>),
    /// The command ran.
    Ran,
    /// The step failed, with this message.
    Failed(String),
}

/// The question that comes before an upgrade.
pub open spec fn upgrade_prompt(host: Seq<char>, sessions: nat) -> Seq<char> {
    "Upgrade shpool on "@ + host + "? Kills "@ + text::decimal(sessions) + " session(s) and restarts the daemon"@
}

/// One warning for each session that could not be killed.
pub open spec fn kill_warnings_of(outcomes: Seq<(Seq<char>, Option<Seq<char>>)>) -> Seq<Seq<char>>
    decreases outcomes.len(),
{
    if outcomes.len() == 0 {
        Seq::empty()
    } else {
        let before = kill_warnings_of(outcomes.drop_last());
        match outcomes.last().1 {
            Some(err) => before.push("could not kill "@ + outcomes.last().0 + ": "@ + err),
            None => before,
        }
    }
}

/// One warning for each session that could not be killed.
pub fn kill_warnings(outcomes: &Vec<session::Outcome>) -> (res: Vec<String>)
    ensures
        text::texts(res@) == kill_warnings_of(session::outcomes_view(outcomes@)),
{
    let ghost all = session::outcomes_view(outcomes@);
    let mut out: Vec<String> = Vec::new();
    let mut i: usize = 0;
    assert(text::texts(out@) =~= kill_warnings_of(all.take(0)));
    while i < outcomes.len()
        invariant
            i <= outcomes@.len(),
            all == session::outcomes_view(outcomes@),
            text::texts(out@) == kill_warnings_of(all.take(i as int)),
        decreases outcomes@.len() - i,
    {
        assert(all.take(i + 1).drop_last() =~= all.take(i as int));
        assert(all.take(i + 1).last() == all[i as int]);
        let ghost before = text::texts(out@);
        if let Some(err) = &outcomes[i].1 {
            let mut line: String = "could not kill ".to_owned();
            line.append(outcomes[i].0.as_str());
            line.append(": ");
            line.append(err.as_str());
            let ghost shown = line@;
            out.push(line);
            assert(text::texts(out@) =~= before.push(shown));
        }
        i += 1;
    }
    assert(all.take(i as int) =~= all);
    out
}

impl PrepareStep {
    /// `next` is what to do after `self` was done and `reply` came of it. A
    /// reply that does not answer the step changes nothing.
    pub open spec fn leads_to(self, host: Seq<char>, reply: PrepareReply, next: PrepareStep) -> bool {
        match (self, reply) {
            (PrepareStep::List, PrepareReply::Listed(sessions)) => {
                next matches PrepareStep::Confirm { prompt, names } && prompt@ == upgrade_prompt(host, sessions@.len())
                    && text::texts(names@) == session::names(sessions@)
            },
            (PrepareStep::List, PrepareReply::Failed(err)) => next == PrepareStep::Failed(err),
            (PrepareStep::Confirm { .. }, PrepareReply::Answered(false)) => next == PrepareStep::Declined,
            (PrepareStep::Confirm { names, .. }, PrepareReply::Answered(true)) => if names@.len() == 0 {
                next matches PrepareStep::StopDaemon { warnings, command } && warnings@.len() == 0 && command@
                    == upload::stop_command()
            } else {
                next == (PrepareStep::Kill { names })
            },
            (PrepareStep::Confirm { .. }, PrepareReply::Failed(err)) => next == PrepareStep::Failed(err),
            (PrepareStep::Kill { .. }, PrepareReply::Killed(outcomes)) => {
                next matches PrepareStep::StopDaemon { warnings, command } && text::texts(warnings@) == kill_warnings_of(
                    session::outcomes_view(outcomes@),
                ) && command@ == upload::stop_command()
            },
            (PrepareStep::StopDaemon { .. }, PrepareReply::Ran) => next == PrepareStep::Ready,
            (PrepareStep::StopDaemon { .. }, PrepareReply::Failed(err)) => next == PrepareStep::Failed(err),
            _ => next == self,
        }
    }
}

/// Kill every session on the host and stop the daemon, so the binary can be
/// replaced, step by step from `PrepareStep::List` on; unless the user declines.
pub fn prepare_upgrade(step: PrepareStep, host: &str, paths: &RemotePaths, reply: PrepareReply) -> (res: PrepareStep)
    ensures
        step.leads_to(host@, reply, res),
{
    match (step, reply) {
        (PrepareStep::List, PrepareReply::Listed(sessions)) => {
            let mut prompt: String = "Upgrade shpool on ".to_owned();
            prompt.append(host);
            prompt.append("? Kills ");
            prompt.append(text::decimal_text(sessions.len() as u64).as_str());
            prompt.append(" session(s) and restarts the daemon");
            PrepareStep::Confirm { prompt, names: session::names_of(&sessions) }
        },
        (PrepareStep::List, PrepareReply::Failed(err)) => PrepareStep::Failed(err),
        (PrepareStep::Confirm { names, .. }, PrepareReply::Answered(yes)) => if !yes {
            PrepareStep::Declined
        } else if names.len() == 0 {
            PrepareStep::StopDaemon { warnings: Vec::new(), command: upload::stop_daemon_cmd(paths) }
        } else {
            PrepareStep::Kill { names }
        },
        (PrepareStep::Confirm { .. }, PrepareReply::Failed(err)) => PrepareStep::Failed(err),
        (PrepareStep::Kill { .. }, PrepareReply::Killed(outcomes)) => PrepareStep::StopDaemon {
            warnings: kill_warnings(&outcomes),
            command: upload::stop_daemon_cmd(paths),
        },
        (PrepareStep::StopDaemon { .. }, PrepareReply::Ran) => PrepareStep::Ready,
        (PrepareStep::StopDaemon { .. }, PrepareReply::Failed(err)) => PrepareStep::Failed(err),
        (step, _) => step,
    }
}

/// The steps follow from each other by the replies, from the listing on.
pub open spec fn is_prepare_run(host: Seq<char>, steps: Seq<PrepareStep>, replies: Seq<PrepareReply>) -> bool {
    &&& steps.len() == replies.len() + 1
    &&& steps[0] == PrepareStep::List
    &&& forall|i: int| 0 <= i < replies.len() ==> (#[trigger] steps[i]).leads_to(host, replies[i], steps[i + 1])
}

/// The step does something that cannot be undone, or comes after that.
pub open spec fn is_destructive(step: PrepareStep) -> bool {
    step is Kill || step is StopDaemon || step is Ready
}

/// No session is killed and the daemon is not stopped before the user was asked
/// and said yes.
pub proof fn upgrades_ask_first(host: Seq<char>, steps: Seq<PrepareStep>, replies: Seq<PrepareReply>, at: int)
    requires
        is_prepare_run(host, steps, replies),
        0 <= at < steps.len(),
        is_destructive(steps[at]),
    ensures
        exists|i: int| 0 <= i < at && (#[trigger] steps[i]) is Confirm && replies[i] == PrepareReply::Answered(true),
    decreases at,
{
    assert(at > 0);
    let prev = steps[at - 1];
    assert(prev.leads_to(host, replies[at - 1], steps[at - 1 + 1]));
    if is_destructive(prev) {
        upgrades_ask_first(host, steps, replies, at - 1);
    }
}

/// The step, if it is about sessions, is about these.
pub open spec fn is_about(step: PrepareStep, names: Seq<Seq<char>>) -> bool {
    match step {
        PrepareStep::Confirm { names: n, .. } => text::texts(n@) == names,
        PrepareStep::Kill { names: n } => text::texts(n@) == names,
        _ => false,
    }
}

/// The user is asked about, and an upgrade kills, every session of the host.
pub proof fn upgrades_kill_every_session(host: Seq<char>, steps: Seq<PrepareStep>, replies: Seq<PrepareReply>, at: int)
    requires
        is_prepare_run(host, steps, replies),
        0 <= at < steps.len(),
        steps[at] is Confirm || steps[at] is Kill,
    ensures
        exists|i: int|
            0 <= i < at && (#[trigger] steps[i]) is List && (replies[i] matches PrepareReply::Listed(sessions) && is_about(
                steps[at],
                session::names(sessions@),
            )),
    decreases at,
{
    let prev = steps[at - 1];
    assert(prev.leads_to(host, replies[at - 1], steps[at - 1 + 1]));
    if !(prev is List) {
        upgrades_kill_every_session(host, steps, replies, at - 1);
    }
}

// -------------------------------------------------------------------- ensure
/// The command that prints whether the daemon's binary is on the host.
pub open spec fn probe_command(dir: Seq<char>) -> Seq<char> {
    "test -x "@ + upload::home_word(upload::below(dir, "bin/shpool"@)) + " && echo yes || echo no"@
}

/// The command that prints whether the daemon's binary is on the host.
pub fn has_sshr_shpool_cmd(paths: &RemotePaths) -> (res: String)
    ensures
        res@ == probe_command(paths@),
{
    let mut out: String = "test -x ".to_owned();
    out.append(paths.shpool().as_str());
    out.append(" && echo yes || echo no");
    out
}

/// Whether the daemon's binary is on the host, where the command for it printed
/// `output`.
pub fn has_sshr_shpool(output: &str) -> (res: bool)
    ensures
        res == (text::trimmed(output@) == "yes"@),
{
    text::same_text(text::trim(output).as_str(), "yes")
}

/// What is next to do to get the daemon's binary and the init files onto a
/// host. `local` is the path of the local binary that was found for it.
#[derive(Debug)]
pub enum EnsureStep {
    /// Find the local binary, for an upgrade.
    ResolveUpgrade,
    /// Make way for it.
    Prepare { local: Vec<u8> },
    /// Upload it in place of the one on the host.
    Replace { local: Vec<u8> },
    /// Run the command, which prints whether the binary is on the host.
    Probe { command: String },
    /// Find the local binary, since there is none on the host.
    ResolveMissing,
    /// Upload it.
    Upload { local: Vec<u8> },
    /// Run the command, which makes the directory of the socket.
    MakeSocketDir { command: String },
    /// Run the script, which writes the init files.
    WriteInit { script: String },
    Done,
    /// It failed, with this message.
    Failed(String),
}

/// What came of an `EnsureStep`.
#[derive(Debug)]
pub enum EnsureReply {
    /// The local binary is at this path.
    Resolved(Vec<u8>),
    /// The way is clear, or the user declined.
    Prepared(bool),
    /// The upload is done.
    Uploaded,
    /// The command ran and printed this.
    Output(String),
    /// The step failed, with this message.
    Failed(String),
}

/// `step` asks the host whether it has the binary.
pub open spec fn is_probe(dir: Seq<char>, step: EnsureStep) -> bool {
    step matches EnsureStep::Probe { command } && command@ == probe_command(dir)
}

/// `step` makes the directory of the socket.
pub open spec fn is_socket_dir_step(step: EnsureStep) -> bool {
    step matches EnsureStep::MakeSocketDir { command } && command@ == "mkdir -p "@ + upload::runtime_word(Seq::empty())
}

/// `step` is the first one: an upgrade, which has to be forced, starts with the
/// local binary, anything else with a look at the host.
pub open spec fn is_first_step(dir: Seq<char>, force: bool, step: EnsureStep) -> bool {
    if force {
        step == EnsureStep::ResolveUpgrade
    } else {
        is_probe(dir, step)
    }
}

fn probe_step(paths: &RemotePaths) -> (res: EnsureStep)
    ensures
        is_probe(paths@, res),
{
    EnsureStep::Probe { command: has_sshr_shpool_cmd(paths) }
}

fn socket_dir_step(paths: &RemotePaths) -> (res: EnsureStep)
    ensures
        is_socket_dir_step(res),
{
    let mut command: String = "mkdir -p ".to_owned();
    command.append(paths.socket_dir().as_str());
    EnsureStep::MakeSocketDir { command }
}

/// Ensure that our own daemon's binary is on the remote host: upload it if
/// missing, or replace it when `force` and the user confirms. This is the first
/// step of it.
///
/// The local binary is found before sessions are killed and the daemon is
/// stopped: failing after that would leave the host worse off than before with
/// nothing installed in return.
pub fn ensure_shpool(force: bool, paths: &RemotePaths) -> (res: EnsureStep)
    ensures
        is_first_step(paths@, force, res),
{
    if force {
        EnsureStep::ResolveUpgrade
    } else {
        probe_step(paths)
    }
}

/// The script that installs the init files of a host.
pub open spec fn init_script_for(dir: Seq<char>, host_cfg: HostConfig) -> Seq<char> {
    init::init_script(dir, init::env_pairs(host_cfg.env@), host_cfg.shell_integration)
}

impl EnsureStep {
    /// Nothing is left to do.
    pub open spec fn is_end(self) -> bool {
        self is Done || self is Failed
    }

    /// `next` is what to do after `self` was done and `reply` came of it. A
    /// reply that does not answer the step changes nothing.
    pub open spec fn leads_to(self, dir: Seq<char>, host_cfg: HostConfig, reply: EnsureReply, next: EnsureStep) -> bool {
        match (self, reply) {
            (EnsureStep::ResolveUpgrade, EnsureReply::Resolved(local)) => next == (EnsureStep::Prepare { local }),
            (EnsureStep::Prepare { local }, EnsureReply::Prepared(true)) => next == (EnsureStep::Replace { local }),
            (EnsureStep::Prepare { .. }, EnsureReply::Prepared(false)) => is_probe(dir, next),
            (EnsureStep::Replace { .. }, EnsureReply::Uploaded) => is_socket_dir_step(next),
            (EnsureStep::Probe { .. }, EnsureReply::Output(output)) => if text::trimmed(output@) == "yes"@ {
                is_socket_dir_step(next)
            } else {
                next == EnsureStep::ResolveMissing
            },
            (EnsureStep::ResolveMissing, EnsureReply::Resolved(local)) => next == (EnsureStep::Upload { local }),
            (EnsureStep::Upload { .. }, EnsureReply::Uploaded) => is_socket_dir_step(next),
            (EnsureStep::MakeSocketDir { .. }, EnsureReply::Output(_)) => {
                next matches EnsureStep::WriteInit { script } && script@ == init_script_for(dir, host_cfg)
            },
            (EnsureStep::WriteInit { .. }, EnsureReply::Output(_)) => next == EnsureStep::Done,
            (_, EnsureReply::Failed(err)) => if self.is_end() {
                next == self
            } else {
                next == EnsureStep::Failed(err)
            },
            _ => next == self,
        }
    }

    /// What to do next.
    pub fn next(self, paths: &RemotePaths, host_cfg: &HostConfig, reply: EnsureReply) -> (res: EnsureStep)
        ensures
            self.leads_to(paths@, *host_cfg, reply, res),
    {
        match (self, reply) {
            (EnsureStep::ResolveUpgrade, EnsureReply::Resolved(local)) => EnsureStep::Prepare { local },
            (EnsureStep::Prepare { local }, EnsureReply::Prepared(ready)) => if ready {
                EnsureStep::Replace { local }
            } else {
                probe_step(paths)
            },
            (EnsureStep::Replace { .. }, EnsureReply::Uploaded) => socket_dir_step(paths),
            (EnsureStep::Probe { .. }, EnsureReply::Output(output)) => if has_sshr_shpool(output.as_str()) {
                socket_dir_step(paths)
            } else {
                EnsureStep::ResolveMissing
            },
            (EnsureStep::ResolveMissing, EnsureReply::Resolved(local)) => EnsureStep::Upload { local },
            (EnsureStep::Upload { .. }, EnsureReply::Uploaded) => socket_dir_step(paths),
            (EnsureStep::MakeSocketDir { .. }, EnsureReply::Output(_)) => ensure_init_files(paths, host_cfg),
            (EnsureStep::WriteInit { .. }, EnsureReply::Output(_)) => EnsureStep::Done,
            (EnsureStep::Done, _) => EnsureStep::Done,
            (EnsureStep::Failed(err), _) => EnsureStep::Failed(err),
            (_, EnsureReply::Failed(err)) => EnsureStep::Failed(err),
            (step, _) => step,
        }
    }
}

/// The step that writes the launcher and the hooks.
pub fn ensure_init_files(paths: &RemotePaths, host_cfg: &HostConfig) -> (res: EnsureStep)
    ensures
        res matches EnsureStep::WriteInit { script } && script@ == init_script_for(paths@, *host_cfg),
{
    EnsureStep::WriteInit { script: init::build_init_script(host_cfg, paths) }
}

/// The steps follow from each other by the replies.
pub open spec fn is_ensure_run(
    dir: Seq<char>,
    host_cfg: HostConfig,
    force: bool,
    steps: Seq<EnsureStep>,
    replies: Seq<EnsureReply>,
) -> bool {
    &&& steps.len() == replies.len() + 1
    &&& is_first_step(dir, force, steps[0])
    &&& forall|i: int| 0 <= i < replies.len() ==> (#[trigger] steps[i]).leads_to(dir, host_cfg, replies[i], steps[i + 1])
}

/// The local binary that the step is about.
pub open spec fn local_of(step: EnsureStep) -> Option<Vec<u8>> {
    match step {
        EnsureStep::Prepare { local } => Some(local),
        EnsureStep::Replace { local } => Some(local),
        EnsureStep::Upload { local } => Some(local),
        _ => None,
    }
}

/// Sessions are killed, the daemon is stopped and something is uploaded only
/// after the local binary was found, and what is uploaded is that binary.
pub proof fn nothing_is_touched_without_a_binary(
    dir: Seq<char>,
    host_cfg: HostConfig,
    force: bool,
    steps: Seq<EnsureStep>,
    replies: Seq<EnsureReply>,
    at: int,
)
    requires
        is_ensure_run(dir, host_cfg, force, steps, replies),
        0 <= at < steps.len(),
        local_of(steps[at]) is Some,
    ensures
        exists|i: int|
            0 <= i < at && ((#[trigger] steps[i]) is ResolveUpgrade || steps[i] is ResolveMissing) && replies[i]
                == EnsureReply::Resolved(local_of(steps[at])->0),
    decreases at,
{
    assert(at > 0);
    let prev = steps[at - 1];
    assert(prev.leads_to(dir, host_cfg, replies[at - 1], steps[at - 1 + 1]));
    if local_of(prev) is Some {
        nothing_is_touched_without_a_binary(dir, host_cfg, force, steps, replies, at - 1);
    }
}

/// A binary that is on the host is replaced only if that was asked for, and
/// only after the way was made clear for it.
pub proof fn replacing_takes_force(
    dir: Seq<char>,
    host_cfg: HostConfig,
    force: bool,
    steps: Seq<EnsureStep>,
    replies: Seq<EnsureReply>,
    at: int,
)
    requires
        is_ensure_run(dir, host_cfg, force, steps, replies),
        0 <= at < steps.len(),
        steps[at] is ResolveUpgrade || steps[at] is Prepare || steps[at] is Replace,
    ensures
        force,
        steps[at] is Replace ==> exists|i: int|
            0 <= i < at && (#[trigger] steps[i]) is Prepare && replies[i] == EnsureReply::Prepared(true),
    decreases at,
{
    if at > 0 {
        let prev = steps[at - 1];
        assert(prev.leads_to(dir, host_cfg, replies[at - 1], steps[at - 1 + 1]));
        replacing_takes_force(dir, host_cfg, force, steps, replies, at - 1);
    }
}

/// Without that, the binary is uploaded only to a host that said it has none.
pub proof fn uploads_only_where_missing(
    dir: Seq<char>,
    host_cfg: HostConfig,
    force: bool,
    steps: Seq<EnsureStep>,
    replies: Seq<EnsureReply>,
    at: int,
)
    requires
        is_ensure_run(dir, host_cfg, force, steps, replies),
        0 <= at < steps.len(),
        steps[at] is Upload || steps[at] is ResolveMissing,
    ensures
        exists|i: int|
            0 <= i < at && is_probe(dir, #[trigger] steps[i]) && (replies[i] matches EnsureReply::Output(output)
                && text::trimmed(output@) != "yes"@),
    decreases at,
{
    assert(at > 0);
    let prev = steps[at - 1];
    assert(prev.leads_to(dir, host_cfg, replies[at - 1], steps[at - 1 + 1]));
    if prev is Upload || prev is ResolveMissing {
        uploads_only_where_missing(dir, host_cfg, force, steps, replies, at - 1);
    } else {
        lemma_probes(dir, host_cfg, force, steps, replies, at - 1);
    }
}

/// Whenever the host is asked, it is asked for the binary.
proof fn lemma_probes(
    dir: Seq<char>,
    host_cfg: HostConfig,
    force: bool,
    steps: Seq<EnsureStep>,
    replies: Seq<EnsureReply>,
    at: int,
)
    requires
        is_ensure_run(dir, host_cfg, force, steps, replies),
        0 <= at < steps.len(),
        steps[at] is Probe,
    ensures
        is_probe(dir, steps[at]),
    decreases at,
{
    if at > 0 {
        let prev = steps[at - 1];
        assert(prev.leads_to(dir, host_cfg, replies[at - 1], steps[at - 1 + 1]));
        if prev is Probe {
            lemma_probes(dir, host_cfg, force, steps, replies, at - 1);
        }
    }
}

/// When it is done, the init files that the configuration asks for were written.
pub proof fn done_means_init_files_are_written(
    dir: Seq<char>,
    host_cfg: HostConfig,
    force: bool,
    steps: Seq<EnsureStep>,
    replies: Seq<EnsureReply>,
    at: int,
)
    requires
        is_ensure_run(dir, host_cfg, force, steps, replies),
        0 <= at < steps.len(),
        steps[at] is Done || steps[at] is WriteInit,
    ensures
        steps[at] is WriteInit ==> steps[at]->script@ == init_script_for(dir, host_cfg),
        steps[at] is Done ==> exists|i: int|
            0 <= i < at && (#[trigger] steps[i]) is WriteInit && steps[i]->script@ == init_script_for(dir, host_cfg)
                && replies[i] is Output,
    decreases at,
{
    assert(at > 0);
    let prev = steps[at - 1];
    assert(prev.leads_to(dir, host_cfg, replies[at - 1], steps[at - 1 + 1]));
    if prev is Done || prev is WriteInit {
        done_means_init_files_are_written(dir, host_cfg, force, steps, replies, at - 1);
    }
}

// ---------------------------------------------------------------------- laws
/// The platform is the first two fields that the host printed, with `unknown`
/// for one that is missing: the first in lower case, the second under one name.
/// A processor is renamed only if it was reported as `amd64` or `arm64`; any
/// other keeps the name it was reported under. The binary is named after both.
pub proof fn platforms_are_named_by_their_fields(
    output: &str,
    os: Seq<char>,
    arch: Seq<char>,
    platform: RemotePlatform,
    binary: String,
)
    requires
        os == if text::fields_of(output@).len() > 0 {
            text::fields_of(output@)[0]
        } else {
            "unknown"@
        },
        arch == if text::fields_of(output@).len() > 1 {
            text::fields_of(output@)[1]
        } else {
            "unknown"@
        },
        call_ensures(detect_remote_platform, (output,), platform),
        call_ensures(RemotePlatform::binary_name, (&platform,), binary),
    ensures
        platform.os@ == text::lowercased(os),
        (forall|i: int| 0 <= i < os.len() ==> (#[trigger] os[i] as u32) < 128) ==> platform.os@.len() == os.len() && forall|
            i: int,
        |
            0 <= i < os.len() ==> #[trigger] platform.os@[i] as u32 == if 'A' <= os[i] <= 'Z' {
                (os[i] as u32 + 32) as u32
            } else {
                os[i] as u32
            },
        arch == "amd64"@ ==> platform.arch@ == "x86_64"@,
        arch == "arm64"@ ==> platform.arch@ == "aarch64"@,
        arch != "amd64"@ && arch != "arm64"@ ==> platform.arch@ == arch,
        binary@ == "shpool-"@ + platform.os@ + "-"@ + platform.arch@,
{
    reveal_strlit("amd64");
    reveal_strlit("arm64");
    assert("amd64"@[1] != "arm64"@[1]);
    if forall|i: int| 0 <= i < os.len() ==> (#[trigger] os[i] as u32) < 128 {
        assert(text::is_ascii_text(os));
    }
}

/// Hosts that report the same system and two names of one processor get the
/// same binary, and the name that a processor goes by is its own: a host that
/// reports it keeps it.
pub proof fn a_processor_has_one_name(
    one: &str,
    other: &str,
    first: RemotePlatform,
    second: RemotePlatform,
    first_binary: String,
    second_binary: String,
)
    requires
        text::fields_of(one@).len() > 1,
        text::fields_of(other@).len() > 1,
        text::fields_of(one@)[0] == text::fields_of(other@)[0],
        call_ensures(detect_remote_platform, (one,), first),
        call_ensures(detect_remote_platform, (other,), second),
        call_ensures(RemotePlatform::binary_name, (&first,), first_binary),
        call_ensures(RemotePlatform::binary_name, (&second,), second_binary),
    ensures
        text::fields_of(one@)[1] == "arm64"@ && text::fields_of(other@)[1] == "aarch64"@ ==> first_binary@ == second_binary@,
        text::fields_of(one@)[1] == "amd64"@ && text::fields_of(other@)[1] == "x86_64"@ ==> first_binary@ == second_binary@,
        text::fields_of(other@)[1] == first.arch@ ==> second.arch@ == first.arch@ && first_binary@ == second_binary@,
{
    reveal_strlit("amd64");
    reveal_strlit("arm64");
    reveal_strlit("aarch64");
    reveal_strlit("x86_64");
    assert("amd64"@[1] != "arm64"@[1]);
    assert("aarch64"@.len() == 7 && "x86_64"@.len() == 6 && "amd64"@.len() == 5 && "arm64"@.len() == 5);
}

/// The search looks at the directory that the environment names first, if it
/// names one, and takes it if it is one. Only then it looks above the
/// executable: in each directory for a checkout and then for an installation,
/// and then one directory further up, as long as there is one. It takes the
/// first place that is a directory.
pub proof fn the_search_goes_from_place_to_place(
    configured: bool,
    first: FindStep,
    step: FindStep,
    reply: FindReply,
    res: FindStep,
)
    requires
        call_ensures(find_shpool_dir, (configured,), first),
        call_ensures(FindStep::next, (step, reply), res),
    ensures
        configured ==> first is ProbeConfigured,
        !configured ==> first is LocateExe,
        step is ProbeConfigured && reply == FindReply::IsDirectory(true) ==> res is FoundConfigured,
        step is ProbeConfigured && reply == FindReply::IsDirectory(false) ==> res is LocateExe,
        step is LocateExe && reply is ExeFailed ==> res == FindStep::Failed(reply->ExeFailed_0),
        step is LocateExe && reply == FindReply::DirectoriesAbove(0) ==> res is NotFound,
        step is LocateExe && reply is DirectoriesAbove && reply->DirectoriesAbove_0 > 0 ==> res == (FindStep::Probe {
            up: 0,
            above: reply->DirectoriesAbove_0,
            place: ShpoolPlace::Checkout,
        }),
        step matches FindStep::Probe { up, above, place } ==> {
            &&& reply == FindReply::IsDirectory(true) ==> res == (FindStep::Found { up, place })
            &&& reply == FindReply::IsDirectory(false) && place == ShpoolPlace::Checkout ==> res == (FindStep::Probe {
                up,
                above,
                place: ShpoolPlace::Installation,
            })
            &&& reply == FindReply::IsDirectory(false) && place == ShpoolPlace::Installation && up + 1 < above ==> (
            res matches FindStep::Probe { up: u, above: a, place: p } && u == up + 1 && a == above && p
                == ShpoolPlace::Checkout)
            &&& reply == FindReply::IsDirectory(false) && place == ShpoolPlace::Installation && up + 1 >= above ==> res is NotFound
        },
        step is FoundConfigured || step is Found || step is NotFound || step is Failed ==> res == step,
        (step is ProbeConfigured || step is Probe) && !(reply is IsDirectory) ==> res == step,
        step is LocateExe && reply is IsDirectory ==> res == step,
{
}

/// The two places are `shpool/bin` of a checkout and `share/resh/shpool/bin` of
/// an installation.
pub proof fn places_have_their_paths(place: ShpoolPlace, res: &'static str)
    requires
        call_ensures(ShpoolPlace::suffix, (place,), res),
    ensures
        place == ShpoolPlace::Checkout ==> res@ == "shpool/bin"@,
        place == ShpoolPlace::Installation ==> res@ == "share/resh/shpool/bin"@,
{
}

/// The local binary is the one for what the host printed about itself, and it is
/// resolved only if it is there. Each failure says what is missing.
pub proof fn the_binary_is_resolved_for_the_host(
    first: ResolveStep,
    step: ResolveStep,
    reply: ResolveReply,
    output: &str,
    platform: RemotePlatform,
    binary: String,
    res: ResolveStep,
)
    requires
        call_ensures(resolve_local_binary, (), first),
        call_ensures(ResolveStep::next, (step, reply), res),
        reply matches ResolveReply::Output(printed) ==> printed@ == output@,
        call_ensures(detect_remote_platform, (output,), platform),
        call_ensures(RemotePlatform::binary_name, (&platform,), binary),
    ensures
        first matches ResolveStep::Uname { command } && command@ == "uname -sm"@,
        step is Uname && reply is Output ==> (res matches ResolveStep::FindDir { binary_name } && binary_name@ == binary@),
        step is Uname && reply is CaptureFailed ==> (res matches ResolveStep::Failed(message) && message@
            == "failed to detect remote platform: "@ + reply->CaptureFailed_0@),
        step matches ResolveStep::FindDir { binary_name } ==> {
            &&& reply is DirFound ==> res == (ResolveStep::Check { binary_name })
            &&& reply is DirMissing ==> (res matches ResolveStep::Failed(message) && message@
                == "no local shpool binaries found (set SSHR_SHPOOL_DIR): "@ + reply->DirMissing_0@)
        },
        step matches ResolveStep::Check { binary_name } ==> {
            &&& reply is Exists ==> res == ResolveStep::Resolved(reply->Exists_0)
            &&& reply is Missing ==> (res matches ResolveStep::Failed(message) && message@ == "no shpool binary for "@
                + binary_name@ + " (expected "@ + reply->Missing_0@ + ")"@)
        },
        step is Resolved || step is Failed ==> res == step,
        res is Resolved && !(step is Resolved) ==> step is Check && reply is Exists,
{
}

/// The upload makes the directory, copies beside the old binary, renames the
/// copy over it, and is done; whichever of these fails ends it with that error.
pub proof fn the_upload_goes_beside_and_renames(
    paths: &RemotePaths,
    shpool_dir: String,
    install: String,
    first: UploadStep,
    step: UploadStep,
    result: Result<(), String>,
    res: UploadStep,
)
    requires
        call_ensures(RemotePaths::shpool_dir, (paths,), shpool_dir),
        call_ensures(upload::install_uploaded_cmd, (paths,), install),
        call_ensures(upload_shpool, (paths,), first),
        call_ensures(UploadStep::next, (step, paths, result), res),
    ensures
        first matches UploadStep::MakeDir { command } && command@ == "mkdir -p "@ + shpool_dir@,
        step is MakeDir && result is Ok ==> (res matches UploadStep::Copy { target } && target@ == paths@
            + "/bin/shpool.new"@),
        step is Copy && result is Ok ==> (res matches UploadStep::Install { command } && command@ == install@),
        step is Install && result is Ok ==> res is Done,
        (step is MakeDir || step is Copy || step is Install) && result is Err ==> res == UploadStep::Failed(result->Err_0),
        step is Done || step is Failed ==> res == step,
{
    reveal_strlit("bin/shpool.new");
    reveal_strlit("/bin/shpool.new");
    assert(upload::below(paths@, "bin/shpool.new"@) =~= paths@ + "/bin/shpool.new"@);
}

/// The warnings are one for each session that was not killed, in order, with the
/// session and the reason.
pub proof fn warnings_name_what_was_not_killed(outcomes: &Vec<session::Outcome>, res: Vec<String>)
    requires
        call_ensures(kill_warnings, (outcomes,), res),
    ensures
        ({
            let failed = outcomes@.filter(|o: session::Outcome| o.1 is Some);
            res@.len() == failed.len() && forall|i: int|
                0 <= i < failed.len() ==> #[trigger] res@[i]@ == "could not kill "@ + failed[i].0@ + ": "@ + failed[i].1->0@
        }),
{
    let bad = |o: session::Outcome| o.1 is Some;
    lemma_warnings(outcomes@, bad, res@);
}

proof fn lemma_warnings(outcomes: Seq<session::Outcome>, bad: spec_fn(session::Outcome) -> bool, list: Seq<String>)
    requires
        forall|o: session::Outcome| #[trigger] bad(o) == (o.1 is Some),
        text::texts(list) == kill_warnings_of(session::outcomes_view(outcomes)),
    ensures
        list.len() == outcomes.filter(bad).len(),
        forall|i: int|
            0 <= i < list.len() ==> #[trigger] list[i]@ == "could not kill "@ + outcomes.filter(bad)[i].0@ + ": "@
                + outcomes.filter(bad)[i].1->0@,
{
    let failed = outcomes.filter(bad);
    let line = |o: session::Outcome| "could not kill "@ + o.0@ + ": "@ + o.1->0@;
    lemma_warning_lines(outcomes, bad, line);
    assert(text::texts(list).len() == list.len());
    assert forall|i: int| 0 <= i < list.len() implies #[trigger] list[i]@ == "could not kill "@ + failed[i].0@ + ": "@
        + failed[i].1->0@ by {
        assert(text::texts(list)[i] == failed.map_values(line)[i]);
    }
}

proof fn lemma_warning_lines(
    outcomes: Seq<session::Outcome>,
    bad: spec_fn(session::Outcome) -> bool,
    line: spec_fn(session::Outcome) -> Seq<char>,
)
    requires
        forall|o: session::Outcome| #[trigger] bad(o) == (o.1 is Some),
        forall|o: session::Outcome| #[trigger] line(o) == "could not kill "@ + o.0@ + ": "@ + o.1->0@,
    ensures
        kill_warnings_of(session::outcomes_view(outcomes)) == outcomes.filter(bad).map_values(line),
    decreases outcomes.len(),
{
    let view = session::outcomes_view(outcomes);
    if outcomes.len() == 0 {
        reveal(Seq::filter);
        assert(outcomes.filter(bad).map_values(line) =~= Seq::empty());
    } else {
        let init = outcomes.drop_last();
        let o = outcomes.last();
        lemma_warning_lines(init, bad, line);
        assert(view.drop_last() =~= session::outcomes_view(init));
        init.lemma_filter_push(o, bad);
        assert(init.push(o) =~= outcomes);
        if bad(o) {
            assert(outcomes.filter(bad).map_values(line) =~= init.filter(bad).map_values(line).push(line(o)));
        }
    }
}

/// An upgrade lists the sessions, asks about all of them, kills all of them and
/// stops the daemon, in this order. It goes on past the question only if the
/// answer is yes; sessions that could not be killed only give warnings.
pub proof fn an_upgrade_asks_kills_and_stops(
    host: &str,
    paths: &RemotePaths,
    stop: String,
    outcomes: &Vec<session::Outcome>,
    warned: Vec<String>,
    step: PrepareStep,
    reply: PrepareReply,
    res: PrepareStep,
)
    requires
        call_ensures(upload::stop_daemon_cmd, (paths,), stop),
        reply matches PrepareReply::Killed(o) ==> o == *outcomes,
        call_ensures(kill_warnings, (outcomes,), warned),
        call_ensures(prepare_upgrade, (step, host, paths, reply), res),
    ensures
        step is List && reply is Listed ==> {
            let sessions = reply->Listed_0@;
            res matches PrepareStep::Confirm { prompt, names } && {
                &&& prompt@ == "Upgrade shpool on "@ + host@ + "? Kills "@ + text::decimal(sessions.len())
                    + " session(s) and restarts the daemon"@
                &&& names@.len() == sessions.len()
                &&& forall|i: int| 0 <= i < sessions.len() ==> #[trigger] names@[i]@ == sessions[i].name@
            }
        },
        step is Confirm && reply == PrepareReply::Answered(false) ==> res is Declined,
        step matches PrepareStep::Confirm { names, .. } ==> reply == PrepareReply::Answered(true) ==> {
            &&& names@.len() > 0 ==> res == (PrepareStep::Kill { names })
            &&& names@.len() == 0 ==> (res matches PrepareStep::StopDaemon { warnings, command } && warnings@.len() == 0
                && command@ == stop@)
        },
        step is Kill && reply is Killed ==> (res matches PrepareStep::StopDaemon { warnings, command } && command@ == stop@
            && warnings@.len() == warned@.len() && forall|i: int|
            0 <= i < warned@.len() ==> #[trigger] warnings@[i]@ == warned@[i]@),
        step is StopDaemon && reply is Ran ==> res is Ready,
        (step is List || step is Confirm || step is StopDaemon) && reply is Failed ==> res == PrepareStep::Failed(
            reply->Failed_0,
        ),
        step is Ready || step is Declined || step is Failed ==> res == step,
        res is Ready ==> step is Ready || (step is StopDaemon && reply is Ran),
        res is Kill ==> step is Kill || (step is Confirm && reply == PrepareReply::Answered(true)),
        res is StopDaemon ==> step is StopDaemon || step is Kill || (step is Confirm && reply == PrepareReply::Answered(true)),
{
    if step is List && reply is Listed {
        let sessions = reply->Listed_0@;
        let names = res->Confirm_names@;
        assert(text::texts(names).len() == names.len());
        assert forall|i: int| 0 <= i < sessions.len() implies #[trigger] names[i]@ == sessions[i].name@ by {
            assert(text::texts(names)[i] == session::names(sessions)[i]);
        }
    }
    if step is Kill && reply is Killed {
        let warnings = res->warnings@;
        assert(text::texts(warnings) == text::texts(warned@));
        assert(text::texts(warnings).len() == warnings.len());
        assert(text::texts(warned@).len() == warned@.len());
        assert forall|i: int| 0 <= i < warned@.len() implies #[trigger] warnings[i]@ == warned@[i]@ by {
            assert(text::texts(warnings)[i] == text::texts(warned@)[i]);
        }
    }
}

/// The host has the binary if and only if it answers `yes`, white space aside.
pub proof fn the_host_answers_yes(paths: &RemotePaths, shpool: String, asked: String, output: &str, res: bool)
    requires
        call_ensures(RemotePaths::shpool, (paths,), shpool),
        call_ensures(has_sshr_shpool_cmd, (paths,), asked),
        call_ensures(has_sshr_shpool, (output,), res),
    ensures
        asked@ == "test -x "@ + shpool@ + " && echo yes || echo no"@,
        res <==> text::trimmed(output@) == "yes"@,
{
}

/// Without force the host is asked first. A host that has the binary gets no
/// other; one that has none gets the local one.
pub proof fn a_missing_binary_is_uploaded(
    force: bool,
    paths: &RemotePaths,
    host_cfg: &HostConfig,
    asked: String,
    output: &str,
    present: bool,
    first: EnsureStep,
    step: EnsureStep,
    reply: EnsureReply,
    res: EnsureStep,
)
    requires
        call_ensures(has_sshr_shpool_cmd, (paths,), asked),
        call_ensures(ensure_shpool, (force, paths), first),
        reply matches EnsureReply::Output(printed) ==> printed@ == output@,
        call_ensures(has_sshr_shpool, (output,), present),
        call_ensures(EnsureStep::next, (step, paths, host_cfg, reply), res),
    ensures
        !force ==> (first matches EnsureStep::Probe { command } && command@ == asked@),
        step is Probe && reply is Output && present ==> res is MakeSocketDir,
        step is Probe && reply is Output && !present ==> res is ResolveMissing,
        step is ResolveMissing && reply is Resolved ==> res == (EnsureStep::Upload { local: reply->Resolved_0 }),
        step is Upload && reply is Uploaded ==> res is MakeSocketDir,
        res is Upload ==> step == res || (step is ResolveMissing && reply == EnsureReply::Resolved(res->Upload_local)),
        res is ResolveMissing ==> step == res || (step is Probe && reply is Output && !present),
{
}

/// With force the local binary comes first, then the sessions and the daemon,
/// and only then the upload; a user who declines is asked for nothing more, and
/// the host is treated as without force.
pub proof fn a_forced_upgrade_replaces_the_binary(
    force: bool,
    paths: &RemotePaths,
    host_cfg: &HostConfig,
    asked: String,
    first: EnsureStep,
    step: EnsureStep,
    reply: EnsureReply,
    res: EnsureStep,
)
    requires
        call_ensures(has_sshr_shpool_cmd, (paths,), asked),
        call_ensures(ensure_shpool, (force, paths), first),
        call_ensures(EnsureStep::next, (step, paths, host_cfg, reply), res),
    ensures
        force ==> first is ResolveUpgrade,
        step is ResolveUpgrade && reply is Resolved ==> res == (EnsureStep::Prepare { local: reply->Resolved_0 }),
        step matches EnsureStep::Prepare { local } ==> {
            &&& reply == EnsureReply::Prepared(true) ==> res == (EnsureStep::Replace { local })
            &&& reply == EnsureReply::Prepared(false) ==> (res matches EnsureStep::Probe { command } && command@ == asked@)
        },
        step is Replace && reply is Uploaded ==> res is MakeSocketDir,
        res is Prepare ==> step == res || (step is ResolveUpgrade && reply == EnsureReply::Resolved(res->Prepare_local)),
        res is Replace ==> step == res || (step == (EnsureStep::Prepare { local: res->Replace_local }) && reply
            == EnsureReply::Prepared(true)),
{
}

/// Whatever was done about the binary, the directory of the socket is made and
/// the init files of the host are written, and only then it is done. Whatever
/// fails ends it with that error.
pub proof fn the_init_files_are_written_last(
    paths: &RemotePaths,
    host_cfg: &HostConfig,
    socket_dir: String,
    script: String,
    step: EnsureStep,
    reply: EnsureReply,
    res: EnsureStep,
)
    requires
        call_ensures(RemotePaths::socket_dir, (paths,), socket_dir),
        call_ensures(init::build_init_script, (host_cfg, paths), script),
        call_ensures(EnsureStep::next, (step, paths, host_cfg, reply), res),
    ensures
        res is MakeSocketDir && !(step is MakeSocketDir) ==> res->MakeSocketDir_command@ == "mkdir -p "@ + socket_dir@,
        step is MakeSocketDir && reply is Output ==> (res matches EnsureStep::WriteInit { script: s } && s@ == script@),
        step is WriteInit && reply is Output ==> res is Done,
        res is Done ==> step is Done || (step is WriteInit && reply is Output),
        reply is Failed && !(step is Done) && !(step is Failed) ==> res == EnsureStep::Failed(reply->Failed_0),
        step is Done || step is Failed ==> res == step,
{
}

/// The step that writes the init files runs the script of the host.
pub proof fn init_files_come_from_the_script(paths: &RemotePaths, host_cfg: &HostConfig, script: String, res: EnsureStep)
    requires
        call_ensures(init::build_init_script, (host_cfg, paths), script),
        call_ensures(ensure_init_files, (paths, host_cfg), res),
    ensures
        res matches EnsureStep::WriteInit { script: s } && s@ == script@,
{
}

/// An answer to another question changes nothing.
pub proof fn stray_answers_change_nothing(
    resolve: ResolveStep,
    answer: ResolveReply,
    resolved: ResolveStep,
    prepare: PrepareStep,
    host: &str,
    paths: &RemotePaths,
    said: PrepareReply,
    prepared: PrepareStep,
    ensure: EnsureStep,
    host_cfg: &HostConfig,
    reply: EnsureReply,
    ensured: EnsureStep,
)
    requires
        call_ensures(ResolveStep::next, (resolve, answer), resolved),
        call_ensures(prepare_upgrade, (prepare, host, paths, said), prepared),
        call_ensures(EnsureStep::next, (ensure, paths, host_cfg, reply), ensured),
    ensures
        resolve is Uname && !(answer is Output) && !(answer is CaptureFailed) ==> resolved == resolve,
        resolve is FindDir && !(answer is DirFound) && !(answer is DirMissing) ==> resolved == resolve,
        resolve is Check && !(answer is Exists) && !(answer is Missing) ==> resolved == resolve,
        prepare is List && !(said is Listed) && !(said is Failed) ==> prepared == prepare,
        prepare is Confirm && !(said is Answered) && !(said is Failed) ==> prepared == prepare,
        prepare is Kill && !(said is Killed) ==> prepared == prepare,
        prepare is StopDaemon && !(said is Ran) && !(said is Failed) ==> prepared == prepare,
        (ensure is ResolveUpgrade || ensure is ResolveMissing) && !(reply is Resolved) && !(reply is Failed) ==> ensured
            == ensure,
        ensure is Prepare && !(reply is Prepared) && !(reply is Failed) ==> ensured == ensure,
        (ensure is Replace || ensure is Upload) && !(reply is Uploaded) && !(reply is Failed) ==> ensured == ensure,
        (ensure is Probe || ensure is MakeSocketDir || ensure is WriteInit) && !(reply is Output) && !(reply is Failed)
            ==> ensured == ensure,
{
}

} // verus!
