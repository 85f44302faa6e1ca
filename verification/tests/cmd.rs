use resh::cmd::{build_launch_command, build_shpool_cmd};
use resh::upload::RemotePaths;

#[test]
fn test_default_shell() {
    let paths = RemotePaths::new(None).unwrap();
    let cmd = build_shpool_cmd(&paths, "s0", None, None);
    assert!(cmd.contains("attach -f -c "));
    assert!(cmd.contains("/bin/sh -c "));
    assert!(cmd.contains("sshr-launch"));
    assert!(cmd.contains(".local/share/sshr/init/launch.sh"));
    assert!(cmd.trim_end().ends_with("-- 's0'"));
    assert!(!cmd.contains(" -d "));
}

#[test]
fn test_shell_override_with_cwd() {
    let paths = RemotePaths::new(Some("custom/sshr")).unwrap();
    let cmd = build_shpool_cmd(&paths, "s0", Some("/bin/zsh"), Some("~/projects"));
    assert!(cmd.contains("custom/sshr/init/launch.sh"));
    assert!(cmd.contains("'/bin/zsh'"));
    assert!(cmd.contains(r#"-d "$HOME"/'projects'"#));
    assert!(cmd.trim_end().ends_with("-- 's0'"));
}

#[test]
fn the_launcher_is_run_through_a_shell() {
    let paths = RemotePaths::new(None).unwrap();
    assert_eq!(
        build_launch_command(&paths, Some("theshell")),
        "/bin/sh -c 'launcher=$1; shift; exec \"$HOME/$launcher\" \"$@\"' sshr-launch '.local/share/sshr/init/launch.sh' 'theshell'"
    );
    assert_eq!(
        build_launch_command(&paths, None),
        "/bin/sh -c 'launcher=$1; shift; exec \"$HOME/$launcher\" \"$@\"' sshr-launch '.local/share/sshr/init/launch.sh'"
    );
}

#[test]
fn the_attach_command_is_written_out_in_full() {
    let paths = RemotePaths::new(Some("d")).unwrap();
    assert_eq!(
        build_shpool_cmd(&paths, "-s", None, Some("/srv")),
        "\"$HOME/d/bin/shpool\" --socket \"$HOME/.local/run/sshr/shpool.socket\" attach -f -c \
         '/bin/sh -c '\\''launcher=$1; shift; exec \"$HOME/$launcher\" \"$@\"'\\'' sshr-launch '\\''d/init/launch.sh'\\''' \
         -d '/srv' -- '-s'"
    );
}
