//! Where the files live on the remote host, and the commands that put the
//! session daemon there.
use vstd::prelude::*;

use crate::shell;
use crate::text;

verus! {

pub const DEFAULT_REMOTE_DIR: &'static str = ".local/share/sshr";

pub const REMOTE_SOCKET_DIR: &'static str = ".local/run/sshr";

/// The characters that stay special inside double quotes.
pub const DOUBLE_QUOTE_SPECIAL: &'static str = "\\\"$`";

/// Why a configured `remote_dir` is not accepted.
#[derive(Debug, Clone, Copy, PartialEq, Eq, Structural)]
pub enum RemoteDirError {
    /// Nothing is left of it below the home directory.
    Empty,
    /// One of its components is `..`.
    OutsideHome,
    /// It holds a newline, a carriage return or a NUL.
    InvalidCharacters,
}

impl RemoteDirError {
    pub open spec fn text(self) -> Seq<char> {
        match self {
            RemoteDirError::Empty => "remote_dir must not be empty"@,
            RemoteDirError::OutsideHome => "remote_dir must stay within the remote home directory"@,
            RemoteDirError::InvalidCharacters => "remote_dir contains invalid characters"@,
        }
    }

    /// The message shown to the user.
    pub fn message(self) -> (res: &'static str)
        ensures
            res@ == self.text(),
    {
        match self {
            RemoteDirError::Empty => "remote_dir must not be empty",
            RemoteDirError::OutsideHome => "remote_dir must stay within the remote home directory",
            RemoteDirError::InvalidCharacters => "remote_dir contains invalid characters",
        }
    }
}

/// A configured directory relative to the remote home directory: without a
/// leading `~/` and without slashes at either end.
pub open spec fn relative_dir(configured: Seq<char>) -> Seq<char> {
    let below_home = if "~/"@.is_prefix_of(configured) {
        configured.skip(2)
    } else {
        configured
    };
    text::without_trailing(text::without_leading(below_home, '/'), '/')
}

/// The directory has `..` as a component.
pub open spec fn climbs(dir: Seq<char>) -> bool {
    text::pieces(dir, '/').contains(".."@)
}

/// The directory holds a character that no remote directory may hold.
pub open spec fn has_invalid_chars(dir: Seq<char>) -> bool {
    dir.contains('\n') || dir.contains('\r') || dir.contains('\0')
}

/// A relative path that stays below the directory it is taken from.
pub open spec fn inside_home(dir: Seq<char>) -> bool {
    &&& dir.len() > 0
    &&& dir.first() != '/'
    &&& dir.last() != '/'
    &&& !climbs(dir)
    &&& !has_invalid_chars(dir)
}

/// The text below the remote directory `dir` that `suffix` names.
pub open spec fn below(dir: Seq<char>, suffix: Seq<char>) -> Seq<char> {
    dir + seq!['/'] + suffix
}

/// A path below the remote home directory as one double-quoted shell word.
pub open spec fn home_word(relative: Seq<char>) -> Seq<char> {
    "\"$HOME/"@ + text::escaped(relative, DOUBLE_QUOTE_SPECIAL@) + seq!['"']
}

/// A path below the runtime directory as one double-quoted shell word.
pub open spec fn runtime_word(rest: Seq<char>) -> Seq<char> {
    "\"$HOME/"@ + REMOTE_SOCKET_DIR@ + rest + seq!['"']
}

/// Paths used on the remote host. Installed files can be relocated with
/// `remote_dir`; runtime state deliberately remains under ~/.local/run.
#[derive(Debug)]
pub struct RemotePaths {
    remote_dir: String,
}

impl Clone for RemotePaths {
    fn clone(&self) -> (res: RemotePaths)
        ensures
            res@ == self@,
    {
        proof {
            use_type_invariant(self);
        }
        RemotePaths { remote_dir: self.remote_dir.clone() }
    }
}

impl View for RemotePaths {
    type V = Seq<char>;

    /// The remote directory, relative to the remote home directory.
    closed spec fn view(&self) -> Seq<char> {
        self.remote_dir@
    }
}

impl RemotePaths {
    /// The remote directory never leaves the remote home directory.
    #[verifier::type_invariant]
    spec fn stays_inside_home(self) -> bool {
        inside_home(self.remote_dir@)
    }

    /// The paths for a configured remote directory, or for the default one.
    pub fn new(remote_dir: Option<&str>) -> (res: Result<RemotePaths, RemoteDirError>)
        ensures
            ({
                let dir = relative_dir(
                    match remote_dir {
                        Some(d) => d@,
                        None => DEFAULT_REMOTE_DIR@,
                    },
                );
                match res {
                    Ok(paths) => paths@ == dir && inside_home(dir),
                    Err(RemoteDirError::Empty) => dir.len() == 0,
                    Err(RemoteDirError::OutsideHome) => dir.len() > 0 && climbs(dir),
                    Err(RemoteDirError::InvalidCharacters) => dir.len() > 0 && !climbs(dir) && has_invalid_chars(dir),
                }
            }),
    {
        let configured = match remote_dir {
            Some(d) => d,
            None => DEFAULT_REMOTE_DIR,
        };
        proof {
            reveal_strlit("~/");
        }
        let relative = match text::strip_prefix(configured, "~/") {
            Some(rest) => text::trim_char(rest.as_str(), '/'),
            None => text::trim_char(configured, '/'),
        };
        assert(relative@ == relative_dir(configured@));
        if relative.as_str().is_empty() {
            return Err(RemoteDirError::Empty);
        }
        let parts = text::split_char(relative.as_str(), '/');
        if text::contains_text(&parts, "..") {
            return Err(RemoteDirError::OutsideHome);
        }
        if text::has_char(relative.as_str(), '\n') || text::has_char(relative.as_str(), '\r') || text::has_char(
            relative.as_str(),
            '\0',
        ) {
            return Err(RemoteDirError::InvalidCharacters);
        }
        proof {
            lemma_trimmed_ends(configured@, '/');
            lemma_trimmed_ends(configured@.skip(2), '/');
        }
        Ok(RemotePaths { remote_dir: relative })
    }

    /// The remote directory, or a path below it, as a double-quoted shell word.
    pub fn home_path(&self, suffix: &str) -> (res: String)
        ensures
            res@ == home_word(
                if suffix@.len() == 0 {
                    self@
                } else {
                    below(self@, suffix@)
                },
            ),
            inside_home(self@),
    {
        proof {
            use_type_invariant(self);
        }
        let relative: String = if suffix.is_empty() {
            self.remote_dir.clone()
        } else {
            self.scp_path(suffix)
        };
        let mut out: String = "\"$HOME/".to_owned();
        out.append(escape_double_quoted(relative.as_str()).as_str());
        out.push('"');
        proof {
            assert(out@ =~= home_word(relative@));
        }
        out
    }

    /// A path below the remote directory, relative to the remote home
    /// directory, as a copy target.
    pub fn scp_path(&self, suffix: &str) -> (res: String)
        ensures
            res@ == below(self@, suffix@),
            inside_home(self@),
    {
        proof {
            use_type_invariant(self);
        }
        let mut out: String = self.remote_dir.clone();
        out.push('/');
        out.append(suffix);
        assert(out@ =~= below(self@, suffix@));
        out
    }

    /// The directory of the session daemon's binary.
    pub fn shpool_dir(&self) -> (res: String)
        ensures
            res@ == home_word(below(self@, "bin"@)),
    {
        proof {
            reveal_strlit("bin");
        }
        self.home_path("bin")
    }

    /// The session daemon's binary.
    pub fn shpool(&self) -> (res: String)
        ensures
            res@ == home_word(below(self@, "bin/shpool"@)),
    {
        proof {
            reveal_strlit("bin/shpool");
        }
        self.home_path("bin/shpool")
    }

    /// The script that starts the login shell of a session.
    pub fn launch(&self) -> (res: String)
        ensures
            res@ == home_word(below(self@, "init/launch.sh"@)),
    {
        proof {
            reveal_strlit("init/launch.sh");
        }
        self.home_path("init/launch.sh")
    }

    /// The launcher path relative to the remote HOME (no `$HOME` prefix). Used
    /// where the value is expanded by a shell we invoke ourselves rather than by
    /// shpool, which execs its `-c` command directly without a shell.
    pub fn launch_home_relative(&self) -> (res: String)
        ensures
            res@ == below(self@, "init/launch.sh"@),
    {
        self.scp_path("init/launch.sh")
    }

    /// The directory of the shell-init files.
    pub fn init_dir(&self) -> (res: String)
        ensures
            res@ == home_word(below(self@, "init"@)),
    {
        proof {
            reveal_strlit("init");
        }
        self.home_path("init")
    }

    /// The directory of the daemon's socket.
    pub fn socket_dir(&self) -> (res: String)
        ensures
            res@ == runtime_word(Seq::empty()),
    {
        proof {
            reveal_strlit("");
            assert(""@ =~= Seq::empty());
        }
        runtime_path("")
    }

    /// The daemon's socket.
    pub fn socket(&self) -> (res: String)
        ensures
            res@ == runtime_word("/shpool.socket"@),
    {
        runtime_path("/shpool.socket")
    }

    /// Matches our daemon's command line for `pkill -f`.
    pub fn daemon_pattern(&self) -> (res: String)
        ensures
            res@ == runtime_word("/shpool.socket daemon"@),
    {
        runtime_path("/shpool.socket daemon")
    }
}

/// A path below the runtime directory as one double-quoted shell word.
/// Nothing the configuration says moves it.
fn runtime_path(rest: &str) -> (res: String)
    ensures
        res@ == runtime_word(rest@),
{
    let mut out: String = "\"$HOME/".to_owned();
    out.append(REMOTE_SOCKET_DIR);
    out.append(rest);
    out.push('"');
    assert(out@ =~= runtime_word(rest@));
    out
}

/// The value with a backslash in front of what stays special inside double
/// quotes.
pub fn escape_double_quoted(value: &str) -> (res: String)
    ensures
        res@ == text::escaped(value@, DOUBLE_QUOTE_SPECIAL@),
{
    text::escape(value, DOUBLE_QUOTE_SPECIAL)
}

/// The commands that put the freshly uploaded binary in place of the old one: it
/// is renamed over it, not written over it.
pub open spec fn install_command(dir: Seq<char>) -> Seq<char> {
    let new = home_word(below(dir, "bin/shpool.new"@));
    let target = home_word(below(dir, "bin/shpool"@));
    "chmod +x "@ + new + " && mv -f "@ + new + " "@ + target
}

/// The commands that stop our daemon and clear its socket.
pub open spec fn stop_command() -> Seq<char> {
    "pkill -f "@ + runtime_word("/shpool.socket daemon"@) + " >/dev/null 2>&1; rm -f "@ + runtime_word("/shpool.socket"@)
        + "; true"@
}

/// Put the freshly uploaded binary in place of the old one.
///
/// Anything still executing the old binary makes a direct write fail, while a
/// rename only swaps the directory entry and leaves the running copy on its old
/// inode.
pub fn install_uploaded_cmd(paths: &RemotePaths) -> (res: String)
    ensures
        res@ == install_command(paths@),
{
    proof {
        reveal_strlit("bin/shpool.new");
    }
    let new = paths.home_path("bin/shpool.new");
    let mut out: String = "chmod +x ".to_owned();
    out.append(new.as_str());
    out.append(" && mv -f ");
    out.append(new.as_str());
    out.append(" ");
    out.append(paths.shpool().as_str());
    out
}

/// Stop our shpool daemon and clear its socket.
///
/// The running daemon keeps the binary open, and Linux refuses to write over a
/// running executable, so an upgrade cannot replace it while the daemon lives.
/// The pattern matches on the socket path so only our own daemon is hit, not
/// another shpool the user runs.
pub fn stop_daemon_cmd(paths: &RemotePaths) -> (res: String)
    ensures
        res@ == stop_command(),
{
    let mut out: String = "pkill -f ".to_owned();
    out.append(paths.daemon_pattern().as_str());
    out.append(" >/dev/null 2>&1; rm -f ");
    out.append(paths.socket().as_str());
    out.append("; true");
    out
}

/// What is left between the slashes starts and ends without one.
proof fn lemma_trimmed_ends(s: Seq<char>, c: char)
    ensures
        ({
            let t = text::without_trailing(text::without_leading(s, c), c);
            t.len() > 0 ==> t.first() != c && t.last() != c
        }),
{
    lemma_without_leading(s, c);
    lemma_without_trailing(text::without_leading(s, c), c);
}

proof fn lemma_without_leading(s: Seq<char>, c: char)
    ensures
        text::without_leading(s, c).len() > 0 ==> text::without_leading(s, c).first() != c,
    decreases s.len(),
{
    if s.len() > 0 && s.first() == c {
        lemma_without_leading(s.drop_first(), c);
    }
}

proof fn lemma_without_trailing(s: Seq<char>, c: char)
    ensures
        ({
            let t = text::without_trailing(s, c);
            t.len() > 0 ==> t.last() != c && t.first() == s.first()
        }),
    decreases s.len(),
{
    if s.len() > 0 && s.last() == c {
        lemma_without_trailing(s.drop_last(), c);
    }
}

/// A double-quoted path below the home directory is exactly one shell word:
/// the path below the value of `HOME`, whatever characters it holds.
pub proof fn home_word_resolves_home(env: spec_fn(Seq<char>) -> Seq<char>, relative: Seq<char>)
    ensures
        shell::is_shell_word(env, home_word(relative), env("HOME"@) + seq!['/'] + relative),
{
    lemma_special_chars();
    lemma_double_quoted_word(env, text::escaped(relative, DOUBLE_QUOTE_SPECIAL@), relative);
}

/// A path below the runtime directory is exactly one shell word.
pub proof fn runtime_word_resolves_home(env: spec_fn(Seq<char>) -> Seq<char>, rest: Seq<char>)
    requires
        forall|i: int| 0 <= i < rest.len() ==> !shell::is_double_special(#[trigger] rest[i]),
    ensures
        shell::is_shell_word(env, runtime_word(rest), env("HOME"@) + seq!['/'] + REMOTE_SOCKET_DIR@ + rest),
{
    lemma_special_chars();
    reveal_strlit(".local/run/sshr");
    let path = REMOTE_SOCKET_DIR@ + rest;
    assert forall|i: int| 0 <= i < path.len() implies !shell::is_double_special(#[trigger] path[i]) by {
        if i >= REMOTE_SOCKET_DIR@.len() {
            assert(path[i] == rest[i - REMOTE_SOCKET_DIR@.len()]);
        } else {
            assert(path[i] == REMOTE_SOCKET_DIR@[i]);
        }
    }
    lemma_nothing_to_escape(path);
    lemma_double_quoted_word(env, text::escaped(path, DOUBLE_QUOTE_SPECIAL@), path);
    assert(runtime_word(rest) =~= home_word(path));
    assert(env("HOME"@) + seq!['/'] + path =~= env("HOME"@) + seq!['/'] + REMOTE_SOCKET_DIR@ + rest);
}

proof fn lemma_special_chars()
    ensures
        forall|c: char| DOUBLE_QUOTE_SPECIAL@.contains(c) <==> shell::is_double_special(c),
{
    reveal_strlit("\\\"$`");
    let s = DOUBLE_QUOTE_SPECIAL@;
    assert(s[0] == '\\' && s[1] == '"' && s[2] == '$' && s[3] == '`');
}

proof fn lemma_nothing_to_escape(s: Seq<char>)
    requires
        forall|i: int| 0 <= i < s.len() ==> !shell::is_double_special(#[trigger] s[i]),
    ensures
        text::escaped(s, DOUBLE_QUOTE_SPECIAL@) == s,
    decreases s.len(),
{
    lemma_special_chars();
    if s.len() > 0 {
        assert(!shell::is_double_special(s[s.len() - 1]));
        lemma_nothing_to_escape(s.drop_last());
        assert(s.drop_last().push(s.last()) =~= s);
    }
}

/// A path below the home directory in double quotes, its special characters
/// escaped, is one shell word.
proof fn lemma_double_quoted_word(env: spec_fn(Seq<char>) -> Seq<char>, inner: Seq<char>, path: Seq<char>)
    requires
        inner == text::escaped(path, DOUBLE_QUOTE_SPECIAL@),
    ensures
        shell::is_shell_word(env, "\"$HOME/"@ + inner + seq!['"'], env("HOME"@) + seq!['/'] + path),
{
    let home = env("HOME"@);
    let s = "\"$HOME/"@ + inner + seq!['"'];
    let word = home + seq!['/'] + path;
    lemma_special_chars();
    reveal_strlit("HOME");
    reveal_strlit("\"$HOME");
    reveal_strlit("\"$HOME/");
    assert("\"$HOME/"@ =~= "\"$HOME"@.push('/'));
    assert(s =~= ("\"$HOME/"@ + inner).push('"'));
    assert forall|words: Seq<Seq<char>>|
        (#[trigger] (shell::Reading { words, word: Seq::empty(), mode: shell::Mode::Blank }).read(env, s)) == (shell::Reading {
            words,
            word,
            mode: shell::Mode::Bare,
        }) by {
        let r = shell::Reading { words, word: Seq::empty(), mode: shell::Mode::Blank };
        shell::lemma_read_home(words, env);
        shell::lemma_read_push(r, env, "\"$HOME"@, '/');
        let open = shell::Reading { words, word: home.push('/'), mode: shell::Mode::Double };
        assert((Seq::<char>::empty() + home).push('/') =~= home.push('/'));
        assert(r.read(env, "\"$HOME/"@) == open);
        shell::lemma_read_add(r, env, "\"$HOME/"@, inner);
        shell::lemma_read_escaped(open, env, path, DOUBLE_QUOTE_SPECIAL@);
        shell::lemma_read_push(r, env, "\"$HOME/"@ + inner, '"');
        assert(home.push('/') + path =~= word);
    }
}

/// A directory is taken relative to the remote home directory, whether it is
/// written with a leading `~/`, with a leading slash or with neither.
pub proof fn directories_are_relative_to_home(dir: Seq<char>)
    requires
        !"~/"@.is_prefix_of(dir),
    ensures
        relative_dir("~/"@ + dir) == relative_dir(dir),
        relative_dir(seq!['/'] + dir) == relative_dir(dir),
{
    reveal_strlit("~/");
    assert("~/"@.is_prefix_of("~/"@ + dir)) by {
        assert(("~/"@ + dir).subrange(0, 2) =~= "~/"@);
    }
    assert(("~/"@ + dir).skip(2) =~= dir);
    let slashed = seq!['/'] + dir;
    assert(!"~/"@.is_prefix_of(slashed)) by {
        if "~/"@.is_prefix_of(slashed) {
            assert(slashed.subrange(0, 2)[0] == "~/"@[0]);
        }
    }
    assert(slashed.drop_first() =~= dir);
}

/// A path below an accepted remote directory stays below the remote home
/// directory too, as long as the part that is added does.
pub proof fn paths_stay_inside_home(dir: Seq<char>, suffix: Seq<char>)
    requires
        inside_home(dir),
        !climbs(suffix),
    ensures
        !climbs(below(dir, suffix)),
        below(dir, suffix).first() != '/',
{
    text::lemma_pieces_join(dir, suffix, '/');
    assert(below(dir, suffix) =~= dir.push('/') + suffix);
    let a = text::pieces(dir, '/');
    let b = text::pieces(suffix, '/');
    assert forall|i: int| 0 <= i < (a + b).len() implies (a + b)[i] != ".."@ by {
        if i < a.len() {
            assert((a + b)[i] == a[i]);
        } else {
            assert((a + b)[i] == b[i - a.len()]);
        }
    }
}

/// Two dots stand alone between slashes or ends.
pub open spec fn names_parent(dir: Seq<char>) -> bool {
    exists|i: int|
        0 <= i <= dir.len() - 2 && #[trigger] dir[i] == '.' && dir[i + 1] == '.' && (i == 0 || dir[i - 1] == '/') && (i + 2
            == dir.len() || dir[i + 2] == '/')
}

/// A directory is accepted if and only if something is left of it without its
/// leading `~/` and without the slashes at its ends, none of its components is
/// `..`, and it holds no newline, no carriage return and no NUL. What is left is
/// then the remote directory; otherwise the first of the three that fails is the
/// error.
pub proof fn only_directories_below_home_are_accepted(
    remote_dir: Option<&str>,
    configured: Seq<char>,
    below_home: Seq<char>,
    res: Result<RemotePaths, RemoteDirError>,
)
    requires
        call_ensures(RemotePaths::new, (remote_dir,), res),
        match remote_dir {
            Some(d) => configured == d@,
            None => configured == ".local/share/sshr"@,
        },
        if "~/"@.is_prefix_of(configured) {
            configured == "~/"@ + below_home
        } else {
            configured == below_home
        },
    ensures
        exists|from: int, to: int|
            #[trigger] text::trims_to(below_home, text::only('/'), from, to) && ({
                let dir = below_home.subrange(from, to);
                let invalid = dir.contains('\n') || dir.contains('\r') || dir.contains('\0');
                match res {
                    Ok(paths) => paths@ == dir && from < to && !names_parent(dir) && !invalid,
                    Err(RemoteDirError::Empty) => from == to,
                    Err(RemoteDirError::OutsideHome) => from < to && names_parent(dir),
                    Err(RemoteDirError::InvalidCharacters) => from < to && !names_parent(dir) && invalid,
                }
            }),
{
    reveal_strlit("~/");
    text::trimming_takes_the_character_at_the_ends(below_home, '/');
    let (from, to) = choose|from: int, to: int|
        #[trigger] text::trims_to(below_home, text::only('/'), from, to) && text::without_trailing(
            text::without_leading(below_home, '/'),
            '/',
        ) == below_home.subrange(from, to);
    let dir = below_home.subrange(from, to);
    if "~/"@.is_prefix_of(configured) {
        assert(configured.skip(2) =~= below_home);
    }
    assert(dir == relative_dir(configured));
    lemma_climbs(dir);
    assert(text::trims_to(below_home, text::only('/'), from, to));
}

/// A directory climbs if and only if two dots stand alone in it.
proof fn lemma_climbs(dir: Seq<char>)
    ensures
        climbs(dir) <==> names_parent(dir),
{
    reveal_strlit("..");
    let dots = ".."@;
    assert(!dots.contains('/'));
    text::pieces_stand_between_separators(dir, '/', dots);
    if climbs(dir) {
        let at = choose|at: int|
            0 <= at <= dir.len() - dots.len() && #[trigger] dir.subrange(at, at + dots.len()) == dots && (at == 0 || dir[at
                - 1] == '/') && (at + dots.len() == dir.len() || dir[at + dots.len()] == '/');
        assert(dir.subrange(at, at + 2)[0] == dots[0]);
        assert(dir.subrange(at, at + 2)[1] == dots[1]);
        assert(dir[at] == '.');
    }
    if names_parent(dir) {
        let i = choose|i: int|
            0 <= i <= dir.len() - 2 && #[trigger] dir[i] == '.' && dir[i + 1] == '.' && (i == 0 || dir[i - 1] == '/') && (i
                + 2 == dir.len() || dir[i + 2] == '/');
        assert(dir.subrange(i, i + dots.len()) =~= dots);
    }
}

/// A path of the remote host is written in double quotes below `$HOME`: the
/// remote directory, then a slash and the suffix if there is one, with a
/// backslash in front of every backslash, double quote, dollar sign and
/// backquote. The shell reads it as that path below the value of `HOME`.
pub proof fn home_paths_are_written_below_home(
    env: spec_fn(Seq<char>) -> Seq<char>,
    paths: &RemotePaths,
    suffix: &str,
    target: String,
    res: String,
)
    requires
        call_ensures(RemotePaths::home_path, (paths, suffix), res),
        call_ensures(RemotePaths::scp_path, (paths, suffix), target),
    ensures
        target@ == paths@ + seq!['/'] + suffix@,
        ({
            let path = if suffix@.len() == 0 {
                paths@
            } else {
                paths@ + seq!['/'] + suffix@
            };
            &&& res@ == "\"$HOME/"@ + path.map_values(
                |c: char|
                    if c == '\\' || c == '"' || c == '$' || c == '`' {
                        seq!['\\', c]
                    } else {
                        seq![c]
                    },
            ).flatten() + seq!['"']
            &&& shell::shell_words(env, res@) == Some(seq![env("HOME"@) + seq!['/'] + path])
        }),
{
    let path = if suffix@.len() == 0 {
        paths@
    } else {
        paths@ + seq!['/'] + suffix@
    };
    let each = |c: char|
        if c == '\\' || c == '"' || c == '$' || c == '`' {
            seq!['\\', c]
        } else {
            seq![c]
        };
    lemma_special_chars();
    assert forall|c: char| DOUBLE_QUOTE_SPECIAL@.contains(c) implies #[trigger] each(c) == seq!['\\', c] by {
        assert(shell::is_double_special(c));
    }
    assert forall|c: char| !DOUBLE_QUOTE_SPECIAL@.contains(c) implies #[trigger] each(c) == seq![c] by {
        assert(!shell::is_double_special(c));
    }
    text::escaping_is_character_by_character(path, DOUBLE_QUOTE_SPECIAL@, each);
    home_word_resolves_home(env, path);
    shell::lemma_joined_words(env, seq![res@], seq![env("HOME"@) + seq!['/'] + path]);
}

/// Inside double quotes a backslash stands in front of every backslash, double
/// quote, dollar sign and backquote, and in front of nothing else.
pub proof fn double_quoted_text_is_escaped(value: &str, res: String)
    requires
        call_ensures(escape_double_quoted, (value,), res),
    ensures
        res@ == value@.map_values(
            |c: char|
                if c == '\\' || c == '"' || c == '$' || c == '`' {
                    seq!['\\', c]
                } else {
                    seq![c]
                },
        ).flatten(),
{
    let each = |c: char|
        if c == '\\' || c == '"' || c == '$' || c == '`' {
            seq!['\\', c]
        } else {
            seq![c]
        };
    lemma_special_chars();
    assert forall|c: char| DOUBLE_QUOTE_SPECIAL@.contains(c) implies #[trigger] each(c) == seq!['\\', c] by {
        assert(shell::is_double_special(c));
    }
    assert forall|c: char| !DOUBLE_QUOTE_SPECIAL@.contains(c) implies #[trigger] each(c) == seq![c] by {
        assert(!shell::is_double_special(c));
    }
    text::escaping_is_character_by_character(value@, DOUBLE_QUOTE_SPECIAL@, each);
}

/// The files below the remote directory are where they are expected: the binary
/// in `bin`, the launcher in `init`.
pub proof fn files_are_below_the_remote_directory(
    env: spec_fn(Seq<char>) -> Seq<char>,
    paths: &RemotePaths,
    shpool_dir: String,
    shpool: String,
    launch: String,
    launch_relative: String,
    init_dir: String,
)
    requires
        call_ensures(RemotePaths::shpool_dir, (paths,), shpool_dir),
        call_ensures(RemotePaths::shpool, (paths,), shpool),
        call_ensures(RemotePaths::launch, (paths,), launch),
        call_ensures(RemotePaths::launch_home_relative, (paths,), launch_relative),
        call_ensures(RemotePaths::init_dir, (paths,), init_dir),
    ensures
        ({
            let dir = env("HOME"@) + seq!['/'] + paths@;
            &&& shell::shell_words(env, shpool_dir@) == Some(seq![dir + "/bin"@])
            &&& shell::shell_words(env, shpool@) == Some(seq![dir + "/bin/shpool"@])
            &&& shell::shell_words(env, launch@) == Some(seq![dir + "/init/launch.sh"@])
            &&& shell::shell_words(env, init_dir@) == Some(seq![dir + "/init"@])
            &&& launch_relative@ == paths@ + "/init/launch.sh"@
        }),
{
    reveal_strlit("bin");
    reveal_strlit("/bin");
    reveal_strlit("bin/shpool");
    reveal_strlit("/bin/shpool");
    reveal_strlit("init/launch.sh");
    reveal_strlit("/init/launch.sh");
    reveal_strlit("init");
    reveal_strlit("/init");
    lemma_file_word(env, paths@, "bin"@, "/bin"@, shpool_dir@);
    lemma_file_word(env, paths@, "bin/shpool"@, "/bin/shpool"@, shpool@);
    lemma_file_word(env, paths@, "init/launch.sh"@, "/init/launch.sh"@, launch@);
    lemma_file_word(env, paths@, "init"@, "/init"@, init_dir@);
    assert(launch_relative@ =~= paths@ + "/init/launch.sh"@);
}

proof fn lemma_file_word(
    env: spec_fn(Seq<char>) -> Seq<char>,
    dir: Seq<char>,
    suffix: Seq<char>,
    rest: Seq<char>,
    written: Seq<char>,
)
    requires
        rest =~= seq!['/'] + suffix,
        written == home_word(below(dir, suffix)),
    ensures
        shell::shell_words(env, written) == Some(seq![env("HOME"@) + seq!['/'] + dir + rest]),
{
    let word = env("HOME"@) + seq!['/'] + below(dir, suffix);
    home_word_resolves_home(env, below(dir, suffix));
    shell::lemma_joined_words(env, seq![written], seq![word]);
    assert(word =~= env("HOME"@) + seq!['/'] + dir + rest);
}

/// Runtime state stays where it is, whatever remote directory is configured.
pub proof fn runtime_state_stays_in_place(paths: &RemotePaths, dir: String, socket: String, pattern: String)
    requires
        call_ensures(RemotePaths::socket_dir, (paths,), dir),
        call_ensures(RemotePaths::socket, (paths,), socket),
        call_ensures(RemotePaths::daemon_pattern, (paths,), pattern),
    ensures
        dir@ == "\"$HOME/.local/run/sshr\""@,
        socket@ == "\"$HOME/.local/run/sshr/shpool.socket\""@,
        pattern@ == "\"$HOME/.local/run/sshr/shpool.socket daemon\""@,
{
    reveal_strlit("\"$HOME/");
    reveal_strlit(".local/run/sshr");
    reveal_strlit("/shpool.socket");
    reveal_strlit("/shpool.socket daemon");
    reveal_strlit("\"$HOME/.local/run/sshr\"");
    reveal_strlit("\"$HOME/.local/run/sshr/shpool.socket\"");
    reveal_strlit("\"$HOME/.local/run/sshr/shpool.socket daemon\"");
    assert(dir@ =~= "\"$HOME/.local/run/sshr\""@);
    assert(socket@ =~= "\"$HOME/.local/run/sshr/shpool.socket\""@);
    assert(pattern@ =~= "\"$HOME/.local/run/sshr/shpool.socket daemon\""@);
}

/// The uploaded file is made executable and then renamed over the binary; the
/// daemon of our own socket is stopped and that socket removed.
pub proof fn upload_commands_name_their_files(
    paths: &RemotePaths,
    suffix: &str,
    new: String,
    shpool: String,
    socket: String,
    pattern: String,
    install: String,
    stop: String,
)
    requires
        suffix@ == "bin/shpool.new"@,
        call_ensures(RemotePaths::home_path, (paths, suffix), new),
        call_ensures(RemotePaths::shpool, (paths,), shpool),
        call_ensures(RemotePaths::socket, (paths,), socket),
        call_ensures(RemotePaths::daemon_pattern, (paths,), pattern),
        call_ensures(install_uploaded_cmd, (paths,), install),
        call_ensures(stop_daemon_cmd, (paths,), stop),
    ensures
        install@ == "chmod +x "@ + new@ + " && mv -f "@ + new@ + " "@ + shpool@,
        stop@ == "pkill -f "@ + pattern@ + " >/dev/null 2>&1; rm -f "@ + socket@ + "; true"@,
{
    reveal_strlit("bin/shpool.new");
}

/// Each reason to reject a directory has its own message.
pub proof fn rejections_say_why(error: RemoteDirError, res: &'static str)
    requires
        call_ensures(RemoteDirError::message, (error,), res),
    ensures
        error == RemoteDirError::Empty <==> res@ == "remote_dir must not be empty"@,
        error == RemoteDirError::OutsideHome <==> res@ == "remote_dir must stay within the remote home directory"@,
        error == RemoteDirError::InvalidCharacters <==> res@ == "remote_dir contains invalid characters"@,
{
    reveal_strlit("remote_dir must not be empty");
    reveal_strlit("remote_dir must stay within the remote home directory");
    reveal_strlit("remote_dir contains invalid characters");
    assert("remote_dir must not be empty"@.len() == 28);
    assert("remote_dir must stay within the remote home directory"@.len() == 53);
    assert("remote_dir contains invalid characters"@.len() == 38);
}

} // verus!
