use resh::init::{build_init_script, HostConfig};
use resh::install;
use resh::install::{
    EnsureReply, EnsureStep, FindReply, FindStep, PrepareReply, PrepareStep, ResolveReply, ResolveStep, ShpoolPlace,
    UploadStep,
};
use resh::session::{SessionEntry, SessionStatus};
use resh::upload::{install_uploaded_cmd, stop_daemon_cmd, RemotePaths};

fn paths() -> RemotePaths {
    RemotePaths::new(None).unwrap()
}

fn binary_for(output: &str) -> String {
    install::detect_remote_platform(output).binary_name()
}

#[test]
fn the_binary_is_named_after_the_platform() {
    assert_eq!(binary_for("Linux x86_64\n"), "shpool-linux-x86_64");
    assert_eq!(binary_for("Darwin arm64\n"), "shpool-darwin-aarch64");
    assert_eq!(binary_for(" FreeBSD\tamd64 more"), "shpool-freebsd-x86_64");
    assert_eq!(binary_for("Linux"), "shpool-linux-unknown");
    assert_eq!(binary_for(" \n"), "shpool-unknown-unknown");
    assert_eq!(binary_for("Linux ARM64"), "shpool-linux-ARM64");
}

/// Walk up from the executable; `present` says which probes find a directory.
fn find(configured: bool, above: usize, present: &[(usize, ShpoolPlace)]) -> (FindStep, Vec<(usize, ShpoolPlace)>) {
    let mut probed = Vec::new();
    let mut step = install::find_shpool_dir(configured);
    loop {
        let reply = match &step {
            FindStep::ProbeConfigured => FindReply::IsDirectory(false),
            FindStep::LocateExe => FindReply::DirectoriesAbove(above),
            FindStep::Probe { up, place, .. } => {
                probed.push((*up, *place));
                FindReply::IsDirectory(present.contains(&(*up, *place)))
            }
            _ => return (step, probed),
        };
        step = step.next(reply);
    }
}

#[test]
fn the_nearest_directory_is_found() {
    let near = (1, ShpoolPlace::Installation);
    let far = (2, ShpoolPlace::Checkout);
    let (step, probed) = find(true, 4, &[far, near]);
    assert!(matches!(
        step,
        FindStep::Found {
            up: 1,
            place: ShpoolPlace::Installation
        }
    ));
    assert_eq!(
        probed,
        vec![
            (0, ShpoolPlace::Checkout),
            (0, ShpoolPlace::Installation),
            (1, ShpoolPlace::Checkout),
            (1, ShpoolPlace::Installation),
        ]
    );
    assert_eq!(ShpoolPlace::Checkout.suffix(), "shpool/bin");
    assert_eq!(ShpoolPlace::Installation.suffix(), "share/resh/shpool/bin");
}

#[test]
fn every_directory_is_probed_before_giving_up() {
    let (step, probed) = find(false, 3, &[]);
    assert!(matches!(step, FindStep::NotFound));
    assert_eq!(probed.len(), 6);
    let (step, probed) = find(false, 0, &[]);
    assert!(matches!(step, FindStep::NotFound));
    assert!(probed.is_empty());
}

#[test]
fn the_configured_directory_comes_first() {
    let step = install::find_shpool_dir(true).next(FindReply::IsDirectory(true));
    assert!(matches!(step, FindStep::FoundConfigured));
    let step = install::find_shpool_dir(false);
    assert!(matches!(step, FindStep::LocateExe));
    match step.next(FindReply::ExeFailed("gone".to_string())) {
        FindStep::Failed(err) => assert_eq!(err, "gone"),
        other => panic!("got: {other:?}"),
    }
}

fn resolve_failure(step: ResolveStep) -> String {
    match step {
        ResolveStep::Failed(message) => message,
        other => panic!("got: {other:?}"),
    }
}

#[test]
fn the_local_binary_is_resolved_for_the_platform() {
    let step = install::resolve_local_binary();
    match &step {
        ResolveStep::Uname { command } => assert_eq!(command, "uname -sm"),
        other => panic!("got: {other:?}"),
    }
    let step = step.next(ResolveReply::Output("Linux x86_64\n".to_string()));
    match &step {
        ResolveStep::FindDir { binary_name } => assert_eq!(binary_name, "shpool-linux-x86_64"),
        other => panic!("got: {other:?}"),
    }
    let step = step.next(ResolveReply::DirFound);
    match &step {
        ResolveStep::Check { binary_name } => assert_eq!(binary_name, "shpool-linux-x86_64"),
        other => panic!("got: {other:?}"),
    }
    match step.next(ResolveReply::Exists(b"/b/shpool-linux-x86_64".to_vec())) {
        ResolveStep::Resolved(path) => assert_eq!(path, b"/b/shpool-linux-x86_64".to_vec()),
        other => panic!("got: {other:?}"),
    }
}

#[test]
fn each_way_to_have_no_binary_has_its_message() {
    let unreachable = install::resolve_local_binary().next(ResolveReply::CaptureFailed("no route".to_string()));
    assert_eq!(
        resolve_failure(unreachable),
        "failed to detect remote platform: no route"
    );
    let find_dir = || install::resolve_local_binary().next(ResolveReply::Output("Linux arm64".to_string()));
    let nowhere = find_dir().next(ResolveReply::DirMissing("no shpool binary directory found".to_string()));
    assert_eq!(
        resolve_failure(nowhere),
        "no local shpool binaries found (set SSHR_SHPOOL_DIR): no shpool binary directory found"
    );
    let missing = find_dir()
        .next(ResolveReply::DirFound)
        .next(ResolveReply::Missing("/b/shpool-linux-aarch64".to_string()));
    assert_eq!(
        resolve_failure(missing),
        "no shpool binary for shpool-linux-aarch64 (expected /b/shpool-linux-aarch64)"
    );
}

#[test]
fn a_reply_to_another_question_changes_nothing() {
    let step = install::resolve_local_binary().next(ResolveReply::DirFound);
    assert!(matches!(step, ResolveStep::Uname { .. }));
    let step = FindStep::LocateExe.next(FindReply::IsDirectory(true));
    assert!(matches!(step, FindStep::LocateExe));
    let step = install::ensure_shpool(true, &paths()).next(&paths(), &HostConfig::default(), EnsureReply::Uploaded);
    assert!(matches!(step, EnsureStep::ResolveUpgrade));
}

#[test]
fn an_upload_lands_beside_the_binary_and_is_renamed() {
    let paths = paths();
    let step = install::upload_shpool(&paths);
    match &step {
        UploadStep::MakeDir { command } => assert_eq!(command, r#"mkdir -p "$HOME/.local/share/sshr/bin""#),
        other => panic!("got: {other:?}"),
    }
    let step = step.next(&paths, Ok(()));
    match &step {
        UploadStep::Copy { target } => assert_eq!(target, ".local/share/sshr/bin/shpool.new"),
        other => panic!("got: {other:?}"),
    }
    let step = step.next(&paths, Ok(()));
    match &step {
        UploadStep::Install { command } => assert_eq!(command, &install_uploaded_cmd(&paths)),
        other => panic!("got: {other:?}"),
    }
    let step = step.next(&paths, Ok(()));
    assert!(matches!(step, UploadStep::Done));
    assert!(matches!(step.next(&paths, Err("late".to_string())), UploadStep::Done));
}

#[test]
fn an_upload_stops_at_the_first_failure() {
    let paths = paths();
    let step = install::upload_shpool(&paths).next(&paths, Ok(())).next(&paths, Err("disk full".to_string()));
    match step.next(&paths, Ok(())) {
        UploadStep::Failed(message) => assert_eq!(message, "disk full"),
        other => panic!("got: {other:?}"),
    }
}

fn entry(name: &str) -> SessionEntry {
    SessionEntry {
        name: name.to_string(),
        status: SessionStatus::Attached,
        started_at_unix_ms: None,
    }
}

#[test]
fn an_upgrade_asks_and_then_kills_every_session() {
    let paths = paths();
    let listed = PrepareReply::Listed(vec![entry("alpha"), entry("beta")]);
    let step = install::prepare_upgrade(PrepareStep::List, "fermat", &paths, listed);
    match &step {
        PrepareStep::Confirm { prompt, names } => {
            assert_eq!(
                prompt,
                "Upgrade shpool on fermat? Kills 2 session(s) and restarts the daemon"
            );
            assert_eq!(names, &vec!["alpha", "beta"]);
        }
        other => panic!("got: {other:?}"),
    }
    let step = install::prepare_upgrade(step, "fermat", &paths, PrepareReply::Answered(true));
    match &step {
        PrepareStep::Kill { names } => assert_eq!(names, &vec!["alpha", "beta"]),
        other => panic!("got: {other:?}"),
    }
    let killed = PrepareReply::Killed(vec![
        ("alpha".to_string(), None),
        ("beta".to_string(), Some("boom".to_string())),
    ]);
    let step = install::prepare_upgrade(step, "fermat", &paths, killed);
    match &step {
        PrepareStep::StopDaemon { warnings, command } => {
            assert_eq!(warnings, &vec!["could not kill beta: boom"]);
            assert_eq!(command, &stop_daemon_cmd(&paths));
        }
        other => panic!("got: {other:?}"),
    }
    let step = install::prepare_upgrade(step, "fermat", &paths, PrepareReply::Ran);
    assert!(matches!(step, PrepareStep::Ready));
}

#[test]
fn an_upgrade_without_sessions_only_stops_the_daemon() {
    let paths = paths();
    let step = install::prepare_upgrade(PrepareStep::List, "fermat", &paths, PrepareReply::Listed(Vec::new()));
    let step = install::prepare_upgrade(step, "fermat", &paths, PrepareReply::Answered(true));
    match &step {
        PrepareStep::StopDaemon { warnings, .. } => assert!(warnings.is_empty()),
        other => panic!("got: {other:?}"),
    }
    match install::prepare_upgrade(step, "fermat", &paths, PrepareReply::Failed("lost".to_string())) {
        PrepareStep::Failed(message) => assert_eq!(message, "lost"),
        other => panic!("got: {other:?}"),
    }
}

#[test]
fn a_declined_upgrade_kills_nothing() {
    let paths = paths();
    let listed = PrepareReply::Listed(vec![entry("alpha")]);
    let step = install::prepare_upgrade(PrepareStep::List, "fermat", &paths, listed);
    let step = install::prepare_upgrade(step, "fermat", &paths, PrepareReply::Answered(false));
    assert!(matches!(step, PrepareStep::Declined));
}

#[test]
fn the_host_is_asked_for_the_binary() {
    assert_eq!(
        install::has_sshr_shpool_cmd(&paths()),
        r#"test -x "$HOME/.local/share/sshr/bin/shpool" && echo yes || echo no"#
    );
    assert!(install::has_sshr_shpool(" yes\r\n"));
    assert!(!install::has_sshr_shpool("no\n"));
    assert!(!install::has_sshr_shpool("yes yes"));
    assert!(!install::has_sshr_shpool(""));
}

fn kind(step: &EnsureStep) -> &'static str {
    match step {
        EnsureStep::ResolveUpgrade => "resolve upgrade",
        EnsureStep::Prepare { .. } => "prepare",
        EnsureStep::Replace { .. } => "replace",
        EnsureStep::Probe { .. } => "probe",
        EnsureStep::ResolveMissing => "resolve missing",
        EnsureStep::Upload { .. } => "upload",
        EnsureStep::MakeSocketDir { .. } => "socket dir",
        EnsureStep::WriteInit { .. } => "init",
        EnsureStep::Done => "done",
        EnsureStep::Failed(_) => "failed",
    }
}

/// Runs the steps on a host that has the binary or not, with a local binary or
/// not, and a user who says yes or no.
fn ensure(force: bool, present: bool, local: bool, confirm: bool) -> (EnsureStep, Vec<&'static str>) {
    let paths = paths();
    let config = HostConfig::default();
    let mut seen = Vec::new();
    let mut step = install::ensure_shpool(force, &paths);
    loop {
        seen.push(kind(&step));
        let reply = match &step {
            EnsureStep::ResolveUpgrade | EnsureStep::ResolveMissing => {
                if local {
                    EnsureReply::Resolved(b"/b".to_vec())
                } else {
                    EnsureReply::Failed("no shpool binary for shpool-linux-x86_64".to_string())
                }
            }
            EnsureStep::Prepare { local } => {
                assert_eq!(local, b"/b");
                EnsureReply::Prepared(confirm)
            }
            EnsureStep::Replace { local } | EnsureStep::Upload { local } => {
                assert_eq!(local, b"/b");
                EnsureReply::Uploaded
            }
            EnsureStep::Probe { .. } => EnsureReply::Output(if present { "yes\n" } else { "no\n" }.to_string()),
            EnsureStep::MakeSocketDir { command } => {
                assert_eq!(command, r#"mkdir -p "$HOME/.local/run/sshr""#);
                EnsureReply::Output(String::new())
            }
            EnsureStep::WriteInit { script } => {
                assert_eq!(script, &build_init_script(&config, &paths));
                EnsureReply::Output(String::new())
            }
            EnsureStep::Done | EnsureStep::Failed(_) => return (step, seen),
        };
        step = step.next(&paths, &config, reply);
    }
}

/// An upgrade kills sessions and stops the daemon, which cannot be undone. None
/// of that may happen before there is known to be a binary to install.
#[test]
fn an_upgrade_without_a_binary_ends_before_it_starts() {
    let (step, seen) = ensure(true, true, false, true);
    assert_eq!(seen, vec!["resolve upgrade", "failed"]);
    match step {
        EnsureStep::Failed(message) => assert!(message.contains("no shpool binary for")),
        other => panic!("got: {other:?}"),
    }
}

#[test]
fn a_forced_upgrade_replaces_the_binary() {
    let (_, seen) = ensure(true, true, true, true);
    assert_eq!(
        seen,
        vec!["resolve upgrade", "prepare", "replace", "socket dir", "init", "done"]
    );
}

#[test]
fn a_declined_upgrade_uploads_only_where_missing() {
    let (_, seen) = ensure(true, true, true, false);
    assert_eq!(
        seen,
        vec!["resolve upgrade", "prepare", "probe", "socket dir", "init", "done"]
    );
    let (_, seen) = ensure(true, false, true, false);
    assert_eq!(
        seen,
        vec![
            "resolve upgrade",
            "prepare",
            "probe",
            "resolve missing",
            "upload",
            "socket dir",
            "init",
            "done"
        ]
    );
}

#[test]
fn without_force_the_binary_is_uploaded_only_where_missing() {
    let (_, seen) = ensure(false, true, false, false);
    assert_eq!(seen, vec!["probe", "socket dir", "init", "done"]);
    let (_, seen) = ensure(false, false, true, false);
    assert_eq!(
        seen,
        vec!["probe", "resolve missing", "upload", "socket dir", "init", "done"]
    );
    let (_, seen) = ensure(false, false, false, false);
    assert_eq!(seen, vec!["probe", "resolve missing", "failed"]);
}
