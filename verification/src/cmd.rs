//! The command that attaches to a session on the remote host, and the one that
//! the session runs.
use vstd::prelude::*;

use crate::posix;
use crate::shell;
use crate::text;
use crate::upload;
use crate::upload::RemotePaths;

verus! {

/// shpool execs its `-c` command directly via shell-word splitting, without a
/// shell, so `$HOME` in the value is never expanded. Run the launcher through an
/// explicit `/bin/sh -c` so the shell expands `$HOME/<relative launcher>`.
pub const LAUNCH_COMMAND_SCRIPT: &'static str = "launcher=$1; shift; exec \"$HOME/$launcher\" \"$@\"";

/// A command made of the given words, with a blank between neighbours.
pub open spec fn command(parts: Seq<Seq<char>>) -> Seq<char> {
    text::joined(parts, seq![' '])
}

/// The words of the command that shpool runs for a session, each as it is
/// written in the command.
pub open spec fn launch_parts(dir: Seq<char>, shell: Option<Seq<char>>) -> Seq<Seq<char>> {
    let launcher = upload::below(dir, "init/launch.sh"@);
    let fixed = seq![
        "/bin/sh"@,
        "-c"@,
        posix::quoted(LAUNCH_COMMAND_SCRIPT@),
        "sshr-launch"@,
        posix::quoted(launcher),
    ];
    match shell {
        Some(shell) => fixed.push(posix::quoted(shell)),
        None => fixed,
    }
}

/// The words of the command that attaches to a session, each as it is written
/// in the command.
pub open spec fn attach_parts(
    dir: Seq<char>,
    session: Seq<char>,
    shell: Option<Seq<char>>,
    remote_cwd: Option<Seq<char>>,
) -> Seq<Seq<char>> {
    let fixed = seq![
        upload::home_word(upload::below(dir, "bin/shpool"@)),
        "--socket"@,
        upload::runtime_word("/shpool.socket"@),
        "attach"@,
        "-f"@,
        "-c"@,
        posix::quoted(command(launch_parts(dir, shell))),
    ];
    let with_cwd = match remote_cwd {
        Some(cwd) => fixed.push("-d"@).push(posix::quoted_remote_path(cwd)),
        None => fixed,
    };
    with_cwd.push("--"@).push(posix::quoted(session))
}

/// The view of an optional text.
pub open spec fn opt_text(s: Option<&str>) -> Option<Seq<char>> {
    match s {
        Some(s) => Some(s@),
        None => None,
    }
}

/// The words of a command, written out.
pub fn spaced(parts: &Vec<String>) -> (res: String)
    ensures
        res@ == command(text::texts(parts@)),
{
    proof {
        reveal_strlit(" ");
        assert(" "@ =~= seq![' ']);
    }
    text::join(parts, " ")
}

/// The command that attaches to a session, and creates it if it does not exist.
pub fn build_shpool_cmd(paths: &RemotePaths, session: &str, shell: Option<&str>, remote_cwd: Option<&str>) -> (res: String)
    ensures
        res@ == command(attach_parts(paths@, session@, opt_text(shell), opt_text(remote_cwd))),
{
    let launch_command = build_launch_command(paths, shell);
    let mut parts: Vec<String> = Vec::new();
    parts.push(paths.shpool());
    parts.push("--socket".to_owned());
    parts.push(paths.socket());
    parts.push("attach".to_owned());
    parts.push("-f".to_owned());
    parts.push("-c".to_owned());
    parts.push(posix::quote(launch_command.as_str()));
    if let Some(cwd) = remote_cwd {
        parts.push("-d".to_owned());
        parts.push(posix::quote_remote_path(cwd));
    }
    // `--` terminates option parsing, so a session name beginning with `-` is
    // never treated as a flag.
    parts.push("--".to_owned());
    parts.push(posix::quote(session));
    assert(text::texts(parts@) =~= attach_parts(paths@, session@, opt_text(shell), opt_text(remote_cwd)));
    spaced(&parts)
}

/// The command that shpool runs for a session: the launcher, through a shell
/// that knows the remote home directory.
pub fn build_launch_command(paths: &RemotePaths, shell: Option<&str>) -> (res: String)
    ensures
        res@ == command(launch_parts(paths@, opt_text(shell))),
{
    let mut parts: Vec<String> = Vec::new();
    parts.push("/bin/sh".to_owned());
    parts.push("-c".to_owned());
    parts.push(posix::quote(LAUNCH_COMMAND_SCRIPT));
    parts.push("sshr-launch".to_owned());
    parts.push(posix::quote(paths.launch_home_relative().as_str()));
    if let Some(shell) = shell {
        parts.push(posix::quote(shell));
    }
    assert(text::texts(parts@) =~= launch_parts(paths@, opt_text(shell)));
    spaced(&parts)
}

/// The words that the launch command splits into: the launcher's path and the
/// shell arrive as they are, whatever characters they hold.
pub proof fn launch_command_words(env: spec_fn(Seq<char>) -> Seq<char>, dir: Seq<char>, shell: Option<Seq<char>>)
    ensures
        shell::shell_words(env, command(launch_parts(dir, shell))) == Some(
            ({
                let fixed = seq![
                    "/bin/sh"@,
                    "-c"@,
                    LAUNCH_COMMAND_SCRIPT@,
                    "sshr-launch"@,
                    upload::below(dir, "init/launch.sh"@),
                ];
                match shell {
                    Some(shell) => fixed.push(shell),
                    None => fixed,
                }
            }),
        ),
{
    let launcher = upload::below(dir, "init/launch.sh"@);
    let fixed = seq!["/bin/sh"@, "-c"@, LAUNCH_COMMAND_SCRIPT@, "sshr-launch"@, launcher];
    let words = match shell {
        Some(shell) => fixed.push(shell),
        None => fixed,
    };
    reveal_strlit("/bin/sh");
    reveal_strlit("-c");
    reveal_strlit("sshr-launch");
    shell::lemma_bare_word(env, "/bin/sh"@);
    shell::lemma_bare_word(env, "-c"@);
    shell::lemma_bare_word(env, "sshr-launch"@);
    posix::quoting_keeps_the_value(env, LAUNCH_COMMAND_SCRIPT@);
    posix::quoting_keeps_the_value(env, launcher);
    if let Some(s) = shell {
        posix::quoting_keeps_the_value(env, s);
    }
    shell::lemma_joined_words(env, launch_parts(dir, shell), words);
}

/// The words that the attach command splits into on a host with the home
/// directory `home`. The launch command is one word of it, the working
/// directory has its leading `~/` resolved, and the session name is the one
/// word behind `--`, whatever characters it holds.
pub open spec fn attach_words(
    home: Seq<char>,
    dir: Seq<char>,
    session: Seq<char>,
    shell: Option<Seq<char>>,
    remote_cwd: Option<Seq<char>>,
) -> Seq<Seq<char>> {
    let fixed = seq![
        home + seq!['/'] + upload::below(dir, "bin/shpool"@),
        "--socket"@,
        home + seq!['/'] + upload::REMOTE_SOCKET_DIR@ + "/shpool.socket"@,
        "attach"@,
        "-f"@,
        "-c"@,
        command(launch_parts(dir, shell)),
    ];
    let with_cwd = match remote_cwd {
        Some(cwd) => fixed.push("-d"@).push(posix::remote_path(home, cwd)),
        None => fixed,
    };
    with_cwd.push("--"@).push(session)
}

/// The attach command splits into exactly the words of `attach_words`.
pub proof fn attach_command_words(
    env: spec_fn(Seq<char>) -> Seq<char>,
    dir: Seq<char>,
    session: Seq<char>,
    shell: Option<Seq<char>>,
    remote_cwd: Option<Seq<char>>,
)
    ensures
        shell::shell_words(env, command(attach_parts(dir, session, shell, remote_cwd))) == Some(
            attach_words(env("HOME"@), dir, session, shell, remote_cwd),
        ),
{
    lemma_shpool_words(env, dir);
    reveal_strlit("attach");
    reveal_strlit("-f");
    reveal_strlit("-c");
    reveal_strlit("-d");
    reveal_strlit("--");
    shell::lemma_bare_word(env, "attach"@);
    shell::lemma_bare_word(env, "-f"@);
    shell::lemma_bare_word(env, "-c"@);
    shell::lemma_bare_word(env, "-d"@);
    shell::lemma_bare_word(env, "--"@);
    posix::quoting_keeps_the_value(env, command(launch_parts(dir, shell)));
    posix::quoting_keeps_the_value(env, session);
    if let Some(cwd) = remote_cwd {
        posix::quoting_a_remote_path_resolves_home(env, cwd);
    }
    let parts = attach_parts(dir, session, shell, remote_cwd);
    let words = attach_words(env("HOME"@), dir, session, shell, remote_cwd);
    assert forall|i: int| 0 <= i < parts.len() implies shell::is_shell_word(env, #[trigger] parts[i], words[i]) by {
        if remote_cwd is Some {
            assert(parts.len() == 11);
        } else {
            assert(parts.len() == 9);
        }
    }
    shell::lemma_joined_words(env, parts, words);
}

/// What every command to shpool starts with.
pub proof fn lemma_shpool_words(env: spec_fn(Seq<char>) -> Seq<char>, dir: Seq<char>)
    ensures
        shell::is_shell_word(
            env,
            upload::home_word(upload::below(dir, "bin/shpool"@)),
            env("HOME"@) + seq!['/'] + upload::below(dir, "bin/shpool"@),
        ),
        shell::is_shell_word(env, "--socket"@, "--socket"@),
        shell::is_shell_word(
            env,
            upload::runtime_word("/shpool.socket"@),
            env("HOME"@) + seq!['/'] + upload::REMOTE_SOCKET_DIR@ + "/shpool.socket"@,
        ),
{
    reveal_strlit("--socket");
    reveal_strlit("/shpool.socket");
    upload::home_word_resolves_home(env, upload::below(dir, "bin/shpool"@));
    shell::lemma_bare_word(env, "--socket"@);
    upload::runtime_word_resolves_home(env, "/shpool.socket"@);
}

/// The launch command runs the launcher of the remote directory through a shell
/// that expands `$HOME`, and hands it the shell that was asked for, if any, as
/// its only argument.
pub proof fn the_launch_command_runs_the_launcher(
    env: spec_fn(Seq<char>) -> Seq<char>,
    paths: &RemotePaths,
    shell: Option<&str>,
    res: String,
)
    requires
        call_ensures(build_launch_command, (paths, shell), res),
    ensures
        shell::shell_words(env, res@) == Some(
            seq![
                "/bin/sh"@,
                "-c"@,
                "launcher=$1; shift; exec \"$HOME/$launcher\" \"$@\""@,
                "sshr-launch"@,
                paths@ + "/init/launch.sh"@,
            ] + match shell {
                Some(shell) => seq![shell@],
                None => Seq::empty(),
            },
        ),
{
    lemma_launch_words(env, paths@, opt_text(shell));
}

/// The words of the launch command.
proof fn lemma_launch_words(env: spec_fn(Seq<char>) -> Seq<char>, dir: Seq<char>, shell: Option<Seq<char>>)
    ensures
        shell::shell_words(env, command(launch_parts(dir, shell))) == Some(
            seq![
                "/bin/sh"@,
                "-c"@,
                "launcher=$1; shift; exec \"$HOME/$launcher\" \"$@\""@,
                "sshr-launch"@,
                dir + "/init/launch.sh"@,
            ] + match shell {
                Some(shell) => seq![shell],
                None => Seq::empty(),
            },
        ),
{
    launch_command_words(env, dir, shell);
    reveal_strlit("init/launch.sh");
    reveal_strlit("/init/launch.sh");
    let launcher = upload::below(dir, "init/launch.sh"@);
    assert(launcher =~= dir + "/init/launch.sh"@);
    let fixed = seq!["/bin/sh"@, "-c"@, LAUNCH_COMMAND_SCRIPT@, "sshr-launch"@, launcher];
    match shell {
        Some(s) => {
            assert(fixed.push(s) =~= fixed + seq![s]);
        },
        None => {
            assert(fixed + Seq::<Seq<char>>::empty() =~= fixed);
        },
    }
}

/// The attach command runs the binary of the remote directory against our own
/// socket and attaches, by force, to exactly the session that was named. What it
/// runs there is the launch command, as one argument; the working directory is
/// passed on if and only if one was asked for.
pub proof fn the_attach_command_attaches_to_the_session(
    env: spec_fn(Seq<char>) -> Seq<char>,
    paths: &RemotePaths,
    session: &str,
    shell: Option<&str>,
    remote_cwd: Option<&str>,
    launch: String,
    quoted_cwd: String,
    cwd: Seq<char>,
    res: String,
)
    requires
        call_ensures(build_shpool_cmd, (paths, session, shell, remote_cwd), res),
        call_ensures(build_launch_command, (paths, shell), launch),
        remote_cwd matches Some(path) ==> call_ensures(posix::quote_remote_path, (path,), quoted_cwd) && shell::shell_words(
            env,
            quoted_cwd@,
        ) == Some(seq![cwd]),
    ensures
        shell::shell_words(env, res@) == Some(
            seq![
                env("HOME"@) + seq!['/'] + paths@ + "/bin/shpool"@,
                "--socket"@,
                env("HOME"@) + "/.local/run/sshr/shpool.socket"@,
                "attach"@,
                "-f"@,
                "-c"@,
                launch@,
            ] + match remote_cwd {
                Some(_) => seq!["-d"@, cwd],
                None => Seq::empty(),
            } + seq!["--"@, session@],
        ),
{
    let dir = paths@;
    let home = env("HOME"@);
    attach_command_words(env, dir, session@, opt_text(shell), opt_text(remote_cwd));
    reveal_strlit("bin/shpool");
    reveal_strlit("/bin/shpool");
    reveal_strlit(".local/run/sshr");
    reveal_strlit("/shpool.socket");
    reveal_strlit("/.local/run/sshr/shpool.socket");
    assert(home + seq!['/'] + upload::below(dir, "bin/shpool"@) =~= home + seq!['/'] + dir + "/bin/shpool"@);
    assert(home + seq!['/'] + upload::REMOTE_SOCKET_DIR@ + "/shpool.socket"@ =~= home + "/.local/run/sshr/shpool.socket"@);
    if let Some(path) = remote_cwd {
        posix::quoting_a_remote_path_resolves_home(env, path@);
        shell::lemma_joined_words(env, seq![quoted_cwd@], seq![posix::remote_path(home, path@)]);
        assert(seq![cwd][0] == seq![posix::remote_path(home, path@)][0]);
    }
    let words = seq![
        home + seq!['/'] + dir + "/bin/shpool"@,
        "--socket"@,
        home + "/.local/run/sshr/shpool.socket"@,
        "attach"@,
        "-f"@,
        "-c"@,
        launch@,
    ] + match remote_cwd {
        Some(_) => seq!["-d"@, cwd],
        None => Seq::empty(),
    } + seq!["--"@, session@];
    assert(attach_words(home, dir, session@, opt_text(shell), opt_text(remote_cwd)) =~= words);
}

/// The words of a command stand in it in order, with one blank between
/// neighbours.
pub proof fn commands_are_spaced(parts: &Vec<String>, led: spec_fn(Seq<char>) -> Seq<char>, res: String)
    requires
        call_ensures(spaced, (parts,), res),
        forall|p: Seq<char>| #[trigger] led(p) == seq![' '] + p,
    ensures
        parts@.len() == 0 ==> res@.len() == 0,
        parts@.len() > 0 ==> res@ == parts@[0]@ + parts@.skip(1).map_values(|p: String| led(p@)).flatten(),
{
    let all = text::texts(parts@);
    text::joining_puts_the_separator_between(all, seq![' '], led);
    if parts@.len() > 0 {
        assert(all.skip(1).map_values(led) =~= parts@.skip(1).map_values(|p: String| led(p@)));
    }
}

} // verus!
