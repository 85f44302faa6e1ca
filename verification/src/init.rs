//! The shell-init files on the remote host: the launcher that starts a
//! session's login shell, and the hooks that make the shell report its working
//! directory.
use vstd::prelude::*;

use crate::shell;
use crate::text;
use crate::upload;
use crate::upload::RemotePaths;

verus! {

/// One change to the environment of the remote shell.
#[derive(Debug)]
pub enum EnvDirective {
    /// Export the variable of that name with that value.
    Export(String, String),
}

/// What the configuration says about a host, as far as the launcher depends on
/// it.
#[derive(Debug)]
pub struct HostConfig {
    pub env: Vec<EnvDirective>,
    /// Whether the shell reports its working directory; on if not said.
    pub shell_integration: Option<bool>,
}

impl Default for HostConfig {
    fn default() -> (res: HostConfig)
        ensures
            res.env@.len() == 0,
            res.shell_integration is None,
    {
        HostConfig { env: Vec::new(), shell_integration: None }
    }
}

/// Finds out which shell the remote shell is.
pub const LAUNCH_SHELL_NAME: &'static str = r#"shell_name=$(basename "$login_shell")
"#;

/// Starts the remote shell so that it reports its working directory.
pub const LAUNCH_BY_NAME: &'static str = r#"case "$shell_name" in
    bash) exec env ENV="$init_dir/bash_init.sh" "$login_shell" --posix ;;
    zsh)  exec env ZDOTDIR="$init_dir/zsh" "$login_shell" ;;
    fish) exec env XDG_DATA_DIRS="$init_dir:${XDG_DATA_DIRS:-/usr/local/share:/usr/share}" "$login_shell" ;;
    *)    exec "$login_shell" ;;
esac"#;

/// Starts the remote shell as it is.
pub const LAUNCH_PLAIN: &'static str = r#"exec "$login_shell""#;

/// The launcher, up to the exported variables.
pub const LAUNCHER_HEAD: &'static str = r#" << 'SSHR_EOF'
#!/bin/sh
# Re-exec through a login shell to inherit the full environment
# (PATH from nix, homebrew, mise, etc.) — same as a normal SSH session.
if [ -z "$_SSHR_LOGIN" ]; then
    export _SSHR_LOGIN=1
    exec /bin/sh -l "$0" "$@"
fi
export SSH_CONNECTION="${SSH_CONNECTION:-sshr}"
"#;

/// The launcher's choice of a shell, up to its own directory.
pub const LAUNCHER_SHELL: &'static str = r#"login_shell="${1:-$SHELL}"
if [ "${login_shell#/}" = "$login_shell" ]; then
    login_shell=$(command -v "$login_shell" 2>/dev/null || echo "$login_shell")
fi
if ! command -v "$login_shell" >/dev/null 2>&1; then
    echo "sshr: shell '$login_shell' not found, falling back to $SHELL" >&2
    login_shell="$SHELL"
fi
init_dir="#;

/// The end of the launcher.
pub const LAUNCHER_TAIL: &'static str = r#"
SSHR_EOF
chmod +x "#;

/// The hook for bash.
pub const BASH_INIT: &'static str = r#" << 'SSHR_EOF'
set +o posix
unset ENV
[ -f ~/.bashrc ] && . ~/.bashrc
__sshr_uri_path() { printf %s "$1" | sed -e 's/%/%25/g' -e 's/ /%20/g' -e 's/#/%23/g' -e 's/?/%3F/g'; }
__sshr_osc7() { printf '\033]7;file://%s' "$(hostname)"; __sshr_uri_path "$PWD"; printf '\a'; }
PROMPT_COMMAND="${PROMPT_COMMAND:+$PROMPT_COMMAND; }__sshr_osc7"
SSHR_EOF
"#;

/// The hook for zsh.
pub const ZSH_INIT: &'static str = r#" << 'SSHR_EOF'
ZDOTDIR="$HOME"
[ -f "$ZDOTDIR/.zshenv" ] && . "$ZDOTDIR/.zshenv"
__sshr_uri_path() { printf %s "$1" | sed -e 's/%/%25/g' -e 's/ /%20/g' -e 's/#/%23/g' -e 's/?/%3F/g'; }
__sshr_osc7() { printf '\033]7;file://%s' "$(hostname)"; __sshr_uri_path "$PWD"; printf '\a' }
precmd_functions+=(__sshr_osc7)
SSHR_EOF
"#;

/// The hook for fish.
pub const FISH_INIT: &'static str = r#" << 'SSHR_EOF'
function __sshr_uri_path
    printf %s "$argv[1]" | sed -e 's/%/%25/g' -e 's/ /%20/g' -e 's/#/%23/g' -e 's/?/%3F/g'
end
function __sshr_osc7 --on-event fish_prompt
    printf '\e]7;file://%s' (hostname)
    __sshr_uri_path "$PWD"
    printf '\a'
end
SSHR_EOF
"#;

/// The names and values that are exported.
pub open spec fn env_pairs(env: Seq<EnvDirective>) -> Seq<(Seq<char>, Seq<char>)> {
    Seq::new(
        env.len(),
        |i: int|
            match env[i] {
                EnvDirective::Export(name, value) => (name@, value@),
            },
    )
}

/// The line that exports one variable. Backslashes and double quotes of the
/// value are escaped; dollar signs and backquotes keep their meaning.
pub open spec fn export_line(name: Seq<char>, value: Seq<char>) -> Seq<char> {
    "export "@ + name + "=\""@ + text::escaped(value, "\\\""@) + "\""@
}

/// The lines that export all variables, in order.
pub open spec fn export_lines(pairs: Seq<(Seq<char>, Seq<char>)>) -> Seq<Seq<char>> {
    Seq::new(pairs.len(), |i: int| export_line(pairs[i].0, pairs[i].1))
}

/// The exports as a section of the launcher.
pub open spec fn env_section(pairs: Seq<(Seq<char>, Seq<char>)>) -> Seq<char> {
    if pairs.len() == 0 {
        Seq::empty()
    } else {
        text::joined(export_lines(pairs), "\n"@) + "\n"@
    }
}

/// A path below the remote directory as a shell word.
pub open spec fn path_word(dir: Seq<char>, suffix: Seq<char>) -> Seq<char> {
    upload::home_word(upload::below(dir, suffix))
}

/// The part of the script that writes the hooks.
pub open spec fn hook_files(dir: Seq<char>) -> Seq<char> {
    "cat > "@ + path_word(dir, "init/bash_init.sh"@) + BASH_INIT@ + "cat > "@ + path_word(dir, "init/zsh/.zshenv"@) + ZSH_INIT@
        + "cat > "@ + path_word(dir, "init/fish/vendor_conf.d/sshr.fish"@) + FISH_INIT@
}

/// The way to start the shell through the hooks.
pub open spec fn integrated_start() -> Seq<char> {
    LAUNCH_SHELL_NAME@ + LAUNCH_BY_NAME@
}

/// The script up to the line of the launcher that starts the shell: it makes
/// the directories and opens the launcher.
pub open spec fn launcher_opening(dir: Seq<char>, pairs: Seq<(Seq<char>, Seq<char>)>) -> Seq<char> {
    "mkdir -p "@ + path_word(dir, "init"@) + " "@ + path_word(dir, "init/zsh"@) + " "@ + path_word(
        dir,
        "init/fish/vendor_conf.d"@,
    ) + "\ncat > "@ + path_word(dir, "init/launch.sh"@) + LAUNCHER_HEAD@ + env_section(pairs) + LAUNCHER_SHELL@ + path_word(
        dir,
        "init"@,
    ) + "\n"@
}

/// The script that makes the directories and writes the launcher, with the
/// given way to start the shell.
pub open spec fn launcher_script(dir: Seq<char>, pairs: Seq<(Seq<char>, Seq<char>)>, start: Seq<char>) -> Seq<char> {
    launcher_opening(dir, pairs) + start + LAUNCHER_TAIL@ + path_word(dir, "init/launch.sh"@) + "\n"@
}

/// The whole script. With shell integration it also writes the hooks and starts
/// the shell through them; without it there are no hooks and the shell is
/// started as it is.
pub open spec fn init_script(dir: Seq<char>, pairs: Seq<(Seq<char>, Seq<char>)>, shell_integration: Option<bool>) -> Seq<char> {
    if shell_integration == Some(false) {
        launcher_script(dir, pairs, LAUNCH_PLAIN@)
    } else {
        launcher_script(dir, pairs, integrated_start()) + hook_files(dir)
    }
}

/// The lines that export the configured variables, without a final newline.
pub fn build_env_exports(env: &Vec<EnvDirective>) -> (res: String)
    ensures
        res@ == text::joined(export_lines(env_pairs(env@)), "\n"@),
{
    let mut out: Vec<String> = Vec::new();
    let mut i: usize = 0;
    let ghost all = export_lines(env_pairs(env@));
    while i < env.len()
        invariant
            i <= env@.len(),
            all == export_lines(env_pairs(env@)),
            text::texts(out@) =~= all.take(i as int),
        decreases env@.len() - i,
    {
        let ghost before = text::texts(out@);
        let EnvDirective::Export(name, value) = &env[i];
        let mut line: String = "export ".to_owned();
        line.append(name.as_str());
        line.append("=\"");
        line.append(text::escape(value.as_str(), "\\\"").as_str());
        line.append("\"");
        assert(line@ == all[i as int]);
        out.push(line);
        assert(text::texts(out@) =~= before.push(all[i as int]));
        i += 1;
        assert(all.take(i as int) =~= all.take(i - 1).push(all[i - 1]));
    }
    assert(all.take(i as int) =~= all);
    text::join(&out, "\n")
}

/// The script that installs the launcher and, with shell integration, the
/// hooks.
pub fn build_init_script(host_cfg: &HostConfig, paths: &RemotePaths) -> (res: String)
    ensures
        res@ == init_script(paths@, env_pairs(host_cfg.env@), host_cfg.shell_integration),
{
    proof {
        reveal_strlit("init/zsh");
        reveal_strlit("init/fish/vendor_conf.d");
        reveal_strlit("init/bash_init.sh");
        reveal_strlit("init/zsh/.zshenv");
        reveal_strlit("init/fish/vendor_conf.d/sshr.fish");
    }
    let integration_enabled: bool = match host_cfg.shell_integration {
        Some(on) => on,
        None => true,
    };
    let ghost pairs = env_pairs(host_cfg.env@);
    let mut out: String = "mkdir -p ".to_owned();
    out.append(paths.init_dir().as_str());
    out.append(" ");
    out.append(paths.home_path("init/zsh").as_str());
    out.append(" ");
    out.append(paths.home_path("init/fish/vendor_conf.d").as_str());
    out.append("\ncat > ");
    out.append(paths.launch().as_str());
    out.append(LAUNCHER_HEAD);
    let ghost before = out@;
    if host_cfg.env.len() > 0 {
        out.append(build_env_exports(&host_cfg.env).as_str());
        out.append("\n");
    }
    assert(out@ =~= before + env_section(pairs));
    out.append(LAUNCHER_SHELL);
    out.append(paths.init_dir().as_str());
    out.append("\n");
    assert(out@ == launcher_opening(paths@, pairs));
    if integration_enabled {
        out.append(LAUNCH_SHELL_NAME);
        out.append(LAUNCH_BY_NAME);
    } else {
        out.append(LAUNCH_PLAIN);
    }
    let ghost start = if integration_enabled {
        integrated_start()
    } else {
        LAUNCH_PLAIN@
    };
    assert(out@ =~= launcher_opening(paths@, pairs) + start);
    out.append(LAUNCHER_TAIL);
    out.append(paths.launch().as_str());
    out.append("\n");
    assert(out@ == launcher_script(paths@, pairs, start));
    if integration_enabled {
        let ghost before = out@;
        out.append("cat > ");
        out.append(paths.home_path("init/bash_init.sh").as_str());
        out.append(BASH_INIT);
        out.append("cat > ");
        out.append(paths.home_path("init/zsh/.zshenv").as_str());
        out.append(ZSH_INIT);
        out.append("cat > ");
        out.append(paths.home_path("init/fish/vendor_conf.d/sshr.fish").as_str());
        out.append(FISH_INIT);
        assert(out@ =~= before + hook_files(paths@));
    }
    out
}

/// Shell integration changes the shell hooks alone. With it or without it the
/// script is the same up to the start of the shell. Without it only the plain
/// start and the `chmod` follow; with it the start through the hooks, the same
/// `chmod`, and the files of the hooks.
pub proof fn integration_changes_only_the_hooks(dir: Seq<char>, pairs: Seq<(Seq<char>, Seq<char>)>, on: Option<bool>)
    requires
        on != Some(false),
    ensures
        ({
            let opening = launcher_opening(dir, pairs);
            let launch = path_word(dir, "init/launch.sh"@);
            let with = init_script(dir, pairs, on);
            &&& init_script(dir, pairs, Some(false)) == opening + "exec \"$login_shell\"\nSSHR_EOF\nchmod +x "@ + launch
                + "\n"@
            &&& with == opening + integrated_start() + "\nSSHR_EOF\nchmod +x "@ + launch + "\n"@ + hook_files(dir)
            &&& (opening + "shell_name=$(basename \"$login_shell\")\n"@).is_prefix_of(with)
            &&& ("chmod +x "@ + launch + "\ncat > "@ + path_word(dir, "init/bash_init.sh"@)).is_prefix_of(
                with.skip((opening + integrated_start() + "\nSSHR_EOF\n"@).len() as int),
            )
        }),
{
    let opening = launcher_opening(dir, pairs);
    let launch = path_word(dir, "init/launch.sh"@);
    let bash = path_word(dir, "init/bash_init.sh"@);
    let with = init_script(dir, pairs, on);
    reveal_strlit("exec \"$login_shell\"");
    reveal_strlit("\nSSHR_EOF\nchmod +x ");
    reveal_strlit("exec \"$login_shell\"\nSSHR_EOF\nchmod +x ");
    assert(LAUNCH_PLAIN@ + LAUNCHER_TAIL@ =~= "exec \"$login_shell\"\nSSHR_EOF\nchmod +x "@);
    assert(init_script(dir, pairs, Some(false)) =~= opening + (LAUNCH_PLAIN@ + LAUNCHER_TAIL@) + launch + "\n"@);
    assert(with =~= opening + integrated_start() + "\nSSHR_EOF\nchmod +x "@ + launch + "\n"@ + hook_files(dir));

    let head = opening + "shell_name=$(basename \"$login_shell\")\n"@;
    assert(with.subrange(0, head.len() as int) =~= head);

    reveal_strlit("\nSSHR_EOF\n");
    reveal_strlit("chmod +x ");
    reveal_strlit("\n");
    reveal_strlit("cat > ");
    reveal_strlit("\ncat > ");
    let before = opening + integrated_start() + "\nSSHR_EOF\n"@;
    let part = "chmod +x "@ + launch + "\ncat > "@ + bash;
    assert("\nSSHR_EOF\nchmod +x "@ =~= "\nSSHR_EOF\n"@ + "chmod +x "@);
    assert("\ncat > "@ =~= "\n"@ + "cat > "@);
    let rest = BASH_INIT@ + "cat > "@ + path_word(dir, "init/zsh/.zshenv"@) + ZSH_INIT@ + "cat > "@ + path_word(
        dir,
        "init/fish/vendor_conf.d/sshr.fish"@,
    ) + FISH_INIT@;
    assert(hook_files(dir) =~= "cat > "@ + bash + rest);
    assert(with =~= before + (part + rest));
    assert(with.skip(before.len() as int) =~= part + rest);
    assert((part + rest).subrange(0, part.len() as int) =~= part);
}

/// What of a value is still to be read to its end.
pub enum Pending {
    /// Nothing.
    Nothing,
    /// The name of a variable behind a dollar sign.
    Name(Seq<char>),
    /// The name of a variable in braces behind a dollar sign.
    Braced(Seq<char>),
}

/// A value on its way through the remote shell: the text so far, and what is
/// being read.
pub struct Expansion {
    pub text: Seq<char>,
    pub pending: Pending,
}

impl Expansion {
    /// One character that belongs to no variable's name. A backquote starts a
    /// command, of which nothing is said here.
    pub open spec fn plain(text: Seq<char>, c: char) -> Option<Expansion> {
        if c == '`' {
            None
        } else if c == '$' {
            Some(Expansion { text, pending: Pending::Name(Seq::empty()) })
        } else {
            Some(Expansion { text: text.push(c), pending: Pending::Nothing })
        }
    }

    /// One more character. A dollar sign that no name and no other expansion
    /// follows stands for itself.
    pub open spec fn step(self, env: spec_fn(Seq<char>) -> Seq<char>, c: char) -> Option<Expansion> {
        match self.pending {
            Pending::Nothing => Expansion::plain(self.text, c),
            Pending::Name(name) => if name.len() == 0 {
                if shell::is_name_start(c) {
                    Some(Expansion { text: self.text, pending: Pending::Name(seq![c]) })
                } else if c == '{' {
                    Some(Expansion { text: self.text, pending: Pending::Braced(Seq::empty()) })
                } else if shell::is_other_expansion(c) {
                    None
                } else {
                    Expansion::plain(self.text.push('$'), c)
                }
            } else if shell::is_name_start(c) || '0' <= c <= '9' {
                Some(Expansion { text: self.text, pending: Pending::Name(name.push(c)) })
            } else {
                Expansion::plain(self.text + env(name), c)
            },
            Pending::Braced(name) => if shell::is_name_start(c) || (name.len() > 0 && '0' <= c <= '9') {
                Some(Expansion { text: self.text, pending: Pending::Braced(name.push(c)) })
            } else if name.len() > 0 && c == '}' {
                Some(Expansion { text: self.text + env(name), pending: Pending::Nothing })
            } else {
                None
            },
        }
    }

    pub open spec fn after(env: spec_fn(Seq<char>) -> Seq<char>, value: Seq<char>) -> Option<Expansion>
        decreases value.len(),
    {
        if value.len() == 0 {
            Some(Expansion { text: Seq::empty(), pending: Pending::Nothing })
        } else {
            match Expansion::after(env, value.drop_last()) {
                Some(e) => e.step(env, value.last()),
                None => None,
            }
        }
    }
}

/// A configured value with the variables it names, as `$NAME` or `${NAME}`,
/// replaced by their values on the remote host. `None` if it uses a command or
/// another kind of expansion.
pub open spec fn expanded(env: spec_fn(Seq<char>) -> Seq<char>, value: Seq<char>) -> Option<Seq<char>> {
    match Expansion::after(env, value) {
        None => None,
        Some(e) => match e.pending {
            Pending::Nothing => Some(e.text),
            Pending::Name(name) => if name.len() == 0 {
                Some(e.text.push('$'))
            } else {
                Some(e.text + env(name))
            },
            Pending::Braced(_) => None,
        },
    }
}

/// Where the remote shell stands in a quoted value.
spec fn inside_value(r: shell::Reading, e: Expansion) -> shell::Reading {
    shell::Reading {
        words: r.words,
        word: r.word + e.text,
        mode: match e.pending {
            Pending::Nothing => shell::Mode::Double,
            Pending::Name(name) => shell::Mode::DoubleName(name),
            Pending::Braced(name) => shell::Mode::DoubleBrace(name),
        },
    }
}

proof fn lemma_read_value(r: shell::Reading, env: spec_fn(Seq<char>) -> Seq<char>, value: Seq<char>)
    requires
        r.mode is Double,
        Expansion::after(env, value) is Some,
    ensures
        r.read(env, text::escaped(value, "\\\""@)) == inside_value(r, Expansion::after(env, value)->0),
    decreases value.len(),
{
    reveal_strlit("\\\"");
    let special = "\\\""@;
    if value.len() == 0 {
        assert(r.word + Seq::<char>::empty() =~= r.word);
    } else {
        let init = value.drop_last();
        let c = value.last();
        let before = text::escaped(init, special);
        lemma_read_value(r, env, init);
        let e = Expansion::after(env, init)->0;
        let mid = inside_value(r, e);
        let next = Expansion::after(env, value)->0;
        assert(special[0] == '\\' && special[1] == '"');
        assert(r.word + e.text.push(c) =~= (r.word + e.text).push(c));
        assert(r.word + e.text.push('$') =~= (r.word + e.text).push('$'));
        assert(r.word + e.text.push('$').push(c) =~= (r.word + e.text).push('$').push(c));
        if let Pending::Name(name) = e.pending {
            assert(r.word + (e.text + env(name)) =~= r.word + e.text + env(name));
            assert(r.word + (e.text + env(name)).push(c) =~= (r.word + e.text + env(name)).push(c));
        }
        if let Pending::Braced(name) = e.pending {
            assert(r.word + (e.text + env(name)) =~= r.word + e.text + env(name));
        }
        if special.contains(c) {
            assert(c == '\\' || c == '"');
            shell::lemma_read_push(r, env, before, '\\');
            shell::lemma_read_push(r, env, before.push('\\'), c);
            assert(mid.step(env, '\\').step(env, c) == inside_value(r, next));
        } else {
            assert(c != '\\' && c != '"');
            shell::lemma_read_push(r, env, before, c);
            assert(mid.step(env, c) == inside_value(r, next));
        }
    }
}

/// The line that exports a variable gives it exactly the configured value, with
/// the variables that the value names replaced by their values on the remote
/// host.
pub proof fn export_sets_the_value(env: spec_fn(Seq<char>) -> Seq<char>, name: Seq<char>, value: Seq<char>)
    requires
        name.len() > 0,
        forall|i: int| 0 <= i < name.len() ==> shell::is_plain(#[trigger] name[i]),
        expanded(env, value) is Some,
    ensures
        shell::shell_words(env, export_line(name, value)) == Some(
            seq!["export"@, name + seq!['='] + expanded(env, value)->0],
        ),
{
    reveal_strlit("export ");
    reveal_strlit("export");
    reveal_strlit("=\"");
    reveal_strlit("\"");
    let v = expanded(env, value)->0;
    let word = name + seq!['='] + v;
    let assignment = name.push('=');
    let inner = text::escaped(value, "\\\""@);
    let part = assignment.push('"') + inner + seq!['"'];
    assert(part =~= (assignment.push('"') + inner).push('"'));
    assert forall|i: int| 0 <= i < assignment.len() implies shell::is_plain(#[trigger] assignment[i]) by {
        if i < name.len() {
            assert(assignment[i] == name[i]);
        }
    }
    shell::lemma_bare_word(env, assignment);
    shell::lemma_bare_word(env, "export"@);
    assert forall|words: Seq<Seq<char>>|
        (#[trigger] (shell::Reading { words, word: Seq::empty(), mode: shell::Mode::Blank }).read(env, part)) == (shell::Reading {
            words,
            word,
            mode: shell::Mode::Bare,
        }) by {
        let r = shell::Reading { words, word: Seq::empty(), mode: shell::Mode::Blank };
        assert(r.read(env, assignment) == (shell::Reading { words, word: assignment, mode: shell::Mode::Bare }));
        shell::lemma_read_push(r, env, assignment, '"');
        let open = shell::Reading { words, word: assignment, mode: shell::Mode::Double };
        shell::lemma_read_add(r, env, assignment.push('"'), inner);
        lemma_read_value(open, env, value);
        shell::lemma_read_push(r, env, assignment.push('"') + inner, '"');
        let e = Expansion::after(env, value)->0;
        assert(assignment + v =~= word);
        assert((assignment + e.text).push('$') =~= assignment + e.text.push('$'));
        if let Pending::Name(n) = e.pending {
            assert(assignment + e.text + env(n) =~= assignment + (e.text + env(n)));
        }
    }
    let parts = seq!["export"@, part];
    let words = seq!["export"@, word];
    shell::lemma_joined_words(env, parts, words);
    assert(parts.drop_last() =~= seq!["export"@]);
    assert(text::joined(parts.drop_last(), seq![' ']) == "export"@);
    assert("export"@ + seq![' '] + part =~= export_line(name, value));
}

/// The line that exports the variable of one directive: its name, and its value
/// in double quotes with a backslash in front of every backslash and every
/// double quote.
pub open spec fn is_export_of(directive: EnvDirective, line: Seq<char>) -> bool {
    let EnvDirective::Export(name, value) = directive;
    line == "export "@ + name@ + "=\""@ + value@.map_values(
        |c: char|
            if c == '\\' || c == '"' {
                seq!['\\', c]
            } else {
                seq![c]
            },
    ).flatten() + "\""@
}

proof fn lemma_export_of(directive: EnvDirective)
    ensures
        ({
            let EnvDirective::Export(name, value) = directive;
            is_export_of(directive, export_line(name@, value@))
        }),
{
    let EnvDirective::Export(name, value) = directive;
    let each = |c: char|
        if c == '\\' || c == '"' {
            seq!['\\', c]
        } else {
            seq![c]
        };
    reveal_strlit("\\\"");
    let special = "\\\""@;
    assert(special[0] == '\\' && special[1] == '"');
    assert forall|c: char| special.contains(c) implies #[trigger] each(c) == seq!['\\', c] by {}
    assert forall|c: char| !special.contains(c) implies #[trigger] each(c) == seq![c] by {}
    text::escaping_is_character_by_character(value@, special, each);
}

/// The section of the exports is the lines, each ended by a newline.
proof fn lemma_section_lines(pairs: Seq<(Seq<char>, Seq<char>)>, ended: spec_fn(Seq<char>) -> Seq<char>)
    requires
        forall|l: Seq<char>| #[trigger] ended(l) == l + seq!['\n'],
    ensures
        env_section(pairs) == export_lines(pairs).map_values(ended).flatten(),
    decreases pairs.len(),
{
    reveal_strlit("\n");
    assert("\n"@ =~= seq!['\n']);
    let lines = export_lines(pairs);
    if pairs.len() == 0 {
        assert(lines.map_values(ended) =~= Seq::empty());
    } else {
        let init = pairs.drop_last();
        lemma_section_lines(init, ended);
        assert(lines.drop_last() =~= export_lines(init));
        assert(lines.map_values(ended) =~= export_lines(init).map_values(ended).push(ended(lines.last())));
        export_lines(init).map_values(ended).lemma_flatten_push(ended(lines.last()));
        if init.len() == 0 {
            assert(env_section(pairs) =~= env_section(init) + ended(lines.last()));
        } else {
            assert(text::joined(lines, "\n"@) == text::joined(export_lines(init), "\n"@) + "\n"@ + lines.last());
            assert(env_section(pairs) =~= env_section(init) + ended(lines.last()));
        }
    }
}

/// The lines of the section are the exports, for texts without a newline.
proof fn lemma_lines_of_section(pairs: Seq<(Seq<char>, Seq<char>)>)
    requires
        forall|i: int| 0 <= i < pairs.len() ==> !(#[trigger] pairs[i]).0.contains('\n') && !pairs[i].1.contains('\n'),
    ensures
        text::lines_of(env_section(pairs)) == export_lines(pairs),
        env_section(pairs).len() > 0 ==> env_section(pairs).last() == '\n',
    decreases pairs.len(),
{
    let ended = |l: Seq<char>| l + seq!['\n'];
    let lines = export_lines(pairs);
    lemma_section_lines(pairs, ended);
    text::a_newline_ends_a_line(Seq::empty(), Seq::empty());
    if pairs.len() == 0 {
        assert(text::lines_of(env_section(pairs)) =~= lines);
    } else {
        let init = pairs.drop_last();
        let line = lines.last();
        assert forall|i: int| 0 <= i < init.len() implies !(#[trigger] init[i]).0.contains('\n') && !init[i].1.contains('\n') by {
            assert(init[i] == pairs[i]);
        }
        lemma_lines_of_section(init);
        lemma_section_lines(init, ended);
        assert(lines.drop_last() =~= export_lines(init));
        assert(lines.map_values(ended) =~= export_lines(init).map_values(ended).push(ended(line)));
        export_lines(init).map_values(ended).lemma_flatten_push(ended(line));
        assert(env_section(pairs) =~= env_section(init) + line + seq!['\n']);
        assert(!pairs[pairs.len() - 1].0.contains('\n'));
        lemma_export_without_newline(pairs.last().0, pairs.last().1);
        text::a_newline_ends_a_line(env_section(init), line);
        assert(lines =~= export_lines(init).push(line));
    }
}

proof fn lemma_export_without_newline(name: Seq<char>, value: Seq<char>)
    requires
        !name.contains('\n'),
        !value.contains('\n'),
    ensures
        !export_line(name, value).contains('\n'),
        export_line(name, value).last() == '"',
{
    reveal_strlit("export ");
    reveal_strlit("=\"");
    reveal_strlit("\"");
    let inner = text::escaped(value, "\\\""@);
    lemma_escaped_without_newline(value, "\\\""@);
    let line = export_line(name, value);
    let a = "export "@.len() as int;
    let b = a + name.len();
    let c = b + "=\""@.len();
    let d = c + inner.len();
    assert forall|i: int| 0 <= i < line.len() implies line[i] != '\n' by {
        if i < a {
            assert(line[i] == "export "@[i]);
        } else if i < b {
            assert(line[i] == name[i - a]);
        } else if i < c {
            assert(line[i] == "=\""@[i - b]);
        } else if i < d {
            assert(line[i] == inner[i - c]);
        } else {
            assert(line[i] == "\""@[i - d]);
        }
    }
}

proof fn lemma_escaped_without_newline(s: Seq<char>, special: Seq<char>)
    requires
        !s.contains('\n'),
    ensures
        !text::escaped(s, special).contains('\n'),
    decreases s.len(),
{
    if s.len() > 0 {
        let init = s.drop_last();
        assert forall|i: int| 0 <= i < init.len() implies init[i] != '\n' by {
            assert(init[i] == s[i]);
        }
        lemma_escaped_without_newline(init, special);
        let before = text::escaped(init, special);
        let out = text::escaped(s, special);
        assert(s[s.len() - 1] != '\n');
        assert forall|i: int| 0 <= i < out.len() implies out[i] != '\n' by {
            if i < before.len() {
                assert(out[i] == before[i]);
            }
        }
    }
}

/// The launcher exports every configured variable, in order and each in a line
/// of its own, between its head and its choice of the shell; and nothing else
/// stands there. `lines` is the lines of that section.
pub proof fn the_launcher_exports_every_variable(
    host_cfg: &HostConfig,
    paths: &RemotePaths,
    init_dir: String,
    zsh: &str,
    zsh_dir: String,
    fish: &str,
    fish_dir: String,
    launch: String,
    script: String,
)
    requires
        zsh@ == "init/zsh"@,
        fish@ == "init/fish/vendor_conf.d"@,
        call_ensures(RemotePaths::init_dir, (paths,), init_dir),
        call_ensures(RemotePaths::home_path, (paths, zsh), zsh_dir),
        call_ensures(RemotePaths::home_path, (paths, fish), fish_dir),
        call_ensures(RemotePaths::launch, (paths,), launch),
        call_ensures(build_init_script, (host_cfg, paths), script),
    ensures
        exists|lines: Seq<Seq<char>>, section: Seq<char>|
            {
                &&& #[trigger] ends_lines(lines, section)
                &&& lines.len() == host_cfg.env@.len()
                &&& forall|i: int| 0 <= i < lines.len() ==> is_export_of(host_cfg.env@[i], #[trigger] lines[i])
                &&& ("mkdir -p "@ + init_dir@ + " "@ + zsh_dir@ + " "@ + fish_dir@ + "\ncat > "@ + launch@ + LAUNCHER_HEAD@
                    + section + LAUNCHER_SHELL@ + init_dir@ + "\n"@).is_prefix_of(script@)
                &&& (forall|i: int|
                    0 <= i < host_cfg.env@.len() ==> !(#[trigger] host_cfg.env@[i])->Export_0@.contains('\n')
                        && !host_cfg.env@[i]->Export_1@.contains('\n')) ==> text::lines_of(section) == lines
            },
{
    let env = host_cfg.env@;
    let pairs = env_pairs(env);
    let lines = export_lines(pairs);
    let section = env_section(pairs);
    let opening = launcher_opening(paths@, pairs);
    reveal_strlit("init/zsh");
    reveal_strlit("init/fish/vendor_conf.d");
    let ended = |l: Seq<char>| l + seq!['\n'];
    lemma_section_lines(pairs, ended);
    assert(ends_lines(lines, section));
    assert forall|i: int| 0 <= i < lines.len() implies is_export_of(env[i], #[trigger] lines[i]) by {
        lemma_export_of(env[i]);
    }
    assert(script@.subrange(0, opening.len() as int) =~= opening);
    if forall|i: int|
        0 <= i < env.len() ==> !(#[trigger] env[i])->Export_0@.contains('\n') && !env[i]->Export_1@.contains('\n') {
        assert forall|i: int| 0 <= i < pairs.len() implies !(#[trigger] pairs[i]).0.contains('\n') && !pairs[i].1.contains(
            '\n',
        ) by {
            assert(!env[i]->Export_0@.contains('\n'));
        }
        lemma_lines_of_section(pairs);
    }
}

/// The text is the lines, each ended by a newline.
pub open spec fn ends_lines(lines: Seq<Seq<char>>, section: Seq<char>) -> bool {
    section == lines.map_values(|l: Seq<char>| l + seq!['\n']).flatten()
}

/// The exports on their own are the lines of all variables, in order, with a
/// newline between neighbours.
pub proof fn exports_are_the_lines_of_all_variables(env: &Vec<EnvDirective>, res: String)
    requires
        call_ensures(build_env_exports, (env,), res),
    ensures
        exists|lines: Seq<Seq<char>>|
            #[trigger] lines.len() == env@.len() && (forall|i: int|
                0 <= i < lines.len() ==> is_export_of(env@[i], #[trigger] lines[i])) && res@ == text::joined(lines, "\n"@),
{
    let lines = export_lines(env_pairs(env@));
    assert forall|i: int| 0 <= i < lines.len() implies is_export_of(env@[i], #[trigger] lines[i]) by {
        lemma_export_of(env@[i]);
    }
    assert(lines.len() == env@.len());
}

/// The script is complete: behind the exports it finds the shell and starts it,
/// makes the launcher executable and, with shell integration, writes the hook of
/// each shell to its own file.
pub proof fn the_script_starts_the_shell_and_writes_the_hooks(
    host_cfg: &HostConfig,
    paths: &RemotePaths,
    launch: String,
    bash: &str,
    bash_file: String,
    zsh: &str,
    zsh_file: String,
    fish: &str,
    fish_file: String,
    script: String,
)
    requires
        bash@ == "init/bash_init.sh"@,
        zsh@ == "init/zsh/.zshenv"@,
        fish@ == "init/fish/vendor_conf.d/sshr.fish"@,
        call_ensures(RemotePaths::launch, (paths,), launch),
        call_ensures(RemotePaths::home_path, (paths, bash), bash_file),
        call_ensures(RemotePaths::home_path, (paths, zsh), zsh_file),
        call_ensures(RemotePaths::home_path, (paths, fish), fish_file),
        call_ensures(build_init_script, (host_cfg, paths), script),
    ensures
        ({
            let opening = launcher_opening(paths@, env_pairs(host_cfg.env@));
            script@ == if host_cfg.shell_integration == Some(false) {
                opening + "exec \"$login_shell\"\nSSHR_EOF\nchmod +x "@ + launch@ + "\n"@
            } else {
                opening + LAUNCH_SHELL_NAME@ + LAUNCH_BY_NAME@ + LAUNCHER_TAIL@ + launch@ + "\ncat > "@ + bash_file@ + BASH_INIT@
                    + "cat > "@ + zsh_file@ + ZSH_INIT@ + "cat > "@ + fish_file@ + FISH_INIT@
            }
        }),
{
    reveal_strlit("init/bash_init.sh");
    reveal_strlit("init/zsh/.zshenv");
    reveal_strlit("init/fish/vendor_conf.d/sshr.fish");
    reveal_strlit("\n");
    reveal_strlit("cat > ");
    reveal_strlit("\ncat > ");
    let pairs = env_pairs(host_cfg.env@);
    let opening = launcher_opening(paths@, pairs);
    if host_cfg.shell_integration == Some(false) {
        integration_changes_only_the_hooks(paths@, pairs, None);
    } else {
        assert("\ncat > "@ =~= "\n"@ + "cat > "@);
        assert(script@ =~= opening + LAUNCH_SHELL_NAME@ + LAUNCH_BY_NAME@ + LAUNCHER_TAIL@ + launch@ + "\ncat > "@ + bash_file@
            + BASH_INIT@ + "cat > "@ + zsh_file@ + ZSH_INIT@ + "cat > "@ + fish_file@ + FISH_INIT@);
    }
}

} // verus!
