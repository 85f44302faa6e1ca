use resh::init::{build_env_exports, build_init_script, EnvDirective, HostConfig};
use resh::upload::{escape_double_quoted, install_uploaded_cmd, stop_daemon_cmd, RemoteDirError, RemotePaths};

#[test]
fn remote_paths_default_to_sshr_data_dir() {
    let paths = RemotePaths::new(None).unwrap();
    assert_eq!(paths.shpool(), r#""$HOME/.local/share/sshr/bin/shpool""#);
    assert_eq!(paths.socket(), r#""$HOME/.local/run/sshr/shpool.socket""#);
}

/// Anything still executing the old binary (an attach client, or a daemon from
/// an older layout on a different socket) makes writing over it fail with
/// ETXTBSY. Uploading beside it and renaming replaces the directory entry while
/// the running copy keeps the old inode.
#[test]
fn the_binary_is_replaced_by_rename_not_overwritten() {
    let paths = RemotePaths::new(None).unwrap();
    assert_eq!(
        paths.scp_path("bin/shpool.new"),
        ".local/share/sshr/bin/shpool.new"
    );

    let cmd = install_uploaded_cmd(&paths);
    assert!(
        cmd.contains(
            r#"mv -f "$HOME/.local/share/sshr/bin/shpool.new" "$HOME/.local/share/sshr/bin/shpool""#
        ),
        "got: {cmd}"
    );
    assert!(cmd.contains("chmod +x"), "got: {cmd}");
}

/// The daemon holds the binary open, and Linux refuses to overwrite a running
/// executable (ETXTBSY), so an upgrade has to stop it first. The socket goes
/// with it: a stale one makes the next attach dial a daemon that is no longer
/// there.
#[test]
fn stopping_the_daemon_matches_only_our_daemon_and_clears_the_socket() {
    let cmd = stop_daemon_cmd(&RemotePaths::new(None).unwrap());
    assert!(
        cmd.contains(r#"pkill -f "$HOME/.local/run/sshr/shpool.socket daemon""#),
        "got: {cmd}"
    );
    assert!(
        cmd.contains(r#"rm -f "$HOME/.local/run/sshr/shpool.socket""#),
        "got: {cmd}"
    );
}

#[test]
fn remote_paths_support_custom_home_relative_dir() {
    let paths = RemotePaths::new(Some("~/opt/sshr")).unwrap();
    assert_eq!(paths.launch(), r#""$HOME/opt/sshr/init/launch.sh""#);
    assert!(RemotePaths::new(Some("../outside-home")).is_err());
}

#[test]
fn shell_integration_is_enabled_by_default() {
    let paths = RemotePaths::new(None).unwrap();
    let script = build_init_script(&HostConfig::default(), &paths);
    assert!(script.contains("__sshr_osc7"));
    assert!(script.contains("PROMPT_COMMAND="));
    assert!(script.contains("XDG_DATA_DIRS="));
}

#[test]
fn shell_integration_can_be_disabled() {
    let paths = RemotePaths::new(Some("custom/sshr")).unwrap();
    let config = HostConfig {
        shell_integration: Some(false),
        ..HostConfig::default()
    };
    let script = build_init_script(&config, &paths);

    assert!(!script.contains("__sshr_osc7"));
    assert!(!script.contains("PROMPT_COMMAND="));
    assert!(!script.contains("XDG_DATA_DIRS="));
    assert!(script.contains(r#"init_dir="$HOME/custom/sshr/init""#));
    assert!(script.contains(r#"exec "$login_shell""#));
}

fn dir_of(configured: &str) -> String {
    RemotePaths::new(Some(configured)).unwrap().scp_path("x")
}

#[test]
fn a_directory_is_relative_to_home_however_it_is_written() {
    for configured in ["opt/sshr", "~/opt/sshr", "/opt/sshr", "~//opt/sshr//", "///opt/sshr/"] {
        assert_eq!(dir_of(configured), "opt/sshr/x");
    }
    assert_eq!(dir_of("~"), "~/x");
    assert_eq!(dir_of("~/~/a"), "~/a/x");
    assert_eq!(dir_of("a/..b/c.."), "a/..b/c../x");
}

#[test]
fn each_bad_directory_has_its_error() {
    for (configured, error) in [
        ("", RemoteDirError::Empty),
        ("~/", RemoteDirError::Empty),
        ("//", RemoteDirError::Empty),
        ("..", RemoteDirError::OutsideHome),
        ("~/a/../b", RemoteDirError::OutsideHome),
        ("a/..\n/../b", RemoteDirError::OutsideHome),
        ("a\nb", RemoteDirError::InvalidCharacters),
        ("a\rb", RemoteDirError::InvalidCharacters),
        ("a\0b", RemoteDirError::InvalidCharacters),
    ] {
        assert_eq!(RemotePaths::new(Some(configured)).unwrap_err(), error);
    }
    assert_eq!(RemoteDirError::Empty.message(), "remote_dir must not be empty");
    assert_eq!(
        RemoteDirError::OutsideHome.message(),
        "remote_dir must stay within the remote home directory"
    );
    assert_eq!(
        RemoteDirError::InvalidCharacters.message(),
        "remote_dir contains invalid characters"
    );
}

#[test]
fn paths_are_quoted_below_home() {
    let paths = RemotePaths::new(Some("a b/$c\"`\\")).unwrap();
    assert_eq!(paths.home_path(""), r#""$HOME/a b/\$c\"\`\\""#);
    assert_eq!(paths.shpool_dir(), r#""$HOME/a b/\$c\"\`\\/bin""#);
    assert_eq!(paths.init_dir(), r#""$HOME/a b/\$c\"\`\\/init""#);
    assert_eq!(paths.launch_home_relative(), "a b/$c\"`\\/init/launch.sh");
    assert_eq!(paths.clone().socket_dir(), r#""$HOME/.local/run/sshr""#);
    assert_eq!(
        paths.daemon_pattern(),
        r#""$HOME/.local/run/sshr/shpool.socket daemon""#
    );
    assert_eq!(escape_double_quoted("'é\n"), "'é\n");
}

#[test]
fn the_upload_commands_are_written_out_in_full() {
    let paths = RemotePaths::new(Some("d")).unwrap();
    assert_eq!(
        install_uploaded_cmd(&paths),
        r#"chmod +x "$HOME/d/bin/shpool.new" && mv -f "$HOME/d/bin/shpool.new" "$HOME/d/bin/shpool""#
    );
    assert_eq!(
        stop_daemon_cmd(&paths),
        r#"pkill -f "$HOME/.local/run/sshr/shpool.socket daemon" >/dev/null 2>&1; rm -f "$HOME/.local/run/sshr/shpool.socket"; true"#
    );
}

fn export(name: &str, value: &str) -> EnvDirective {
    EnvDirective::Export(name.to_string(), value.to_string())
}

#[test]
fn exports_keep_variables_and_escape_quotes() {
    assert_eq!(build_env_exports(&Vec::new()), "");
    assert_eq!(
        build_env_exports(&vec![
            export("PATH", "$PATH:${HOME}/.nix-profile/bin"),
            export("SAY", "a \"b\" \\c `d`"),
        ]),
        "export PATH=\"$PATH:${HOME}/.nix-profile/bin\"\nexport SAY=\"a \\\"b\\\" \\\\c `d`\""
    );
}

#[test]
fn the_plain_launcher_is_written_out_in_full() {
    let config = HostConfig {
        env: vec![export("EDITOR", "vim")],
        shell_integration: Some(false),
    };
    let script = build_init_script(&config, &RemotePaths::new(Some("d")).unwrap());
    let expected = r#"mkdir -p "$HOME/d/init" "$HOME/d/init/zsh" "$HOME/d/init/fish/vendor_conf.d"
cat > "$HOME/d/init/launch.sh" << 'SSHR_EOF'
#!/bin/sh
# Re-exec through a login shell to inherit the full environment
# (PATH from nix, homebrew, mise, etc.) — same as a normal SSH session.
if [ -z "$_SSHR_LOGIN" ]; then
    export _SSHR_LOGIN=1
    exec /bin/sh -l "$0" "$@"
fi
export SSH_CONNECTION="${SSH_CONNECTION:-sshr}"
export EDITOR="vim"
login_shell="${1:-$SHELL}"
if [ "${login_shell#/}" = "$login_shell" ]; then
    login_shell=$(command -v "$login_shell" 2>/dev/null || echo "$login_shell")
fi
if ! command -v "$login_shell" >/dev/null 2>&1; then
    echo "sshr: shell '$login_shell' not found, falling back to $SHELL" >&2
    login_shell="$SHELL"
fi
init_dir="$HOME/d/init"
exec "$login_shell"
SSHR_EOF
chmod +x "$HOME/d/init/launch.sh"
"#;
    assert_eq!(script, expected);
}

#[test]
fn the_integrated_launcher_adds_the_hooks() {
    let paths = RemotePaths::new(Some("d")).unwrap();
    let plain = HostConfig {
        env: Vec::new(),
        shell_integration: Some(false),
    };
    let start = r#"shell_name=$(basename "$login_shell")
case "$shell_name" in
    bash) exec env ENV="$init_dir/bash_init.sh" "$login_shell" --posix ;;
    zsh)  exec env ZDOTDIR="$init_dir/zsh" "$login_shell" ;;
    fish) exec env XDG_DATA_DIRS="$init_dir:${XDG_DATA_DIRS:-/usr/local/share:/usr/share}" "$login_shell" ;;
    *)    exec "$login_shell" ;;
esac
SSHR_EOF"#;
    let hooks = r#"cat > "$HOME/d/init/bash_init.sh" << 'SSHR_EOF'
set +o posix
unset ENV
[ -f ~/.bashrc ] && . ~/.bashrc
__sshr_uri_path() { printf %s "$1" | sed -e 's/%/%25/g' -e 's/ /%20/g' -e 's/#/%23/g' -e 's/?/%3F/g'; }
__sshr_osc7() { printf '\033]7;file://%s' "$(hostname)"; __sshr_uri_path "$PWD"; printf '\a'; }
PROMPT_COMMAND="${PROMPT_COMMAND:+$PROMPT_COMMAND; }__sshr_osc7"
SSHR_EOF
cat > "$HOME/d/init/zsh/.zshenv" << 'SSHR_EOF'
ZDOTDIR="$HOME"
[ -f "$ZDOTDIR/.zshenv" ] && . "$ZDOTDIR/.zshenv"
__sshr_uri_path() { printf %s "$1" | sed -e 's/%/%25/g' -e 's/ /%20/g' -e 's/#/%23/g' -e 's/?/%3F/g'; }
__sshr_osc7() { printf '\033]7;file://%s' "$(hostname)"; __sshr_uri_path "$PWD"; printf '\a' }
precmd_functions+=(__sshr_osc7)
SSHR_EOF
cat > "$HOME/d/init/fish/vendor_conf.d/sshr.fish" << 'SSHR_EOF'
function __sshr_uri_path
    printf %s "$argv[1]" | sed -e 's/%/%25/g' -e 's/ /%20/g' -e 's/#/%23/g' -e 's/?/%3F/g'
end
function __sshr_osc7 --on-event fish_prompt
    printf '\e]7;file://%s' (hostname)
    __sshr_uri_path "$PWD"
    printf '\a'
end
SSHR_EOF
"#;
    let expected = build_init_script(&plain, &paths).replace("exec \"$login_shell\"\nSSHR_EOF", start) + hooks;
    for shell_integration in [None, Some(true)] {
        let config = HostConfig {
            env: Vec::new(),
            shell_integration,
        };
        assert_eq!(build_init_script(&config, &paths), expected);
    }
}

#[test]
fn integration_leaves_the_rest_of_the_launcher_alone() {
    let paths = RemotePaths::new(Some("d")).unwrap();
    let script = |shell_integration| {
        let config = HostConfig {
            env: vec![export("EDITOR", "vim")],
            shell_integration,
        };
        build_init_script(&config, &paths)
    };
    let off = script(Some(false));
    let opening = off
        .strip_suffix("exec \"$login_shell\"\nSSHR_EOF\nchmod +x \"$HOME/d/init/launch.sh\"\n")
        .unwrap();
    for on in [script(None), script(Some(true))] {
        let rest = on.strip_prefix(opening).unwrap();
        assert!(rest.starts_with("shell_name=$(basename \"$login_shell\")\n"));
        assert!(rest.contains("chmod +x \"$HOME/d/init/launch.sh\"\ncat > \"$HOME/d/init/bash_init.sh\""));
    }
}
