//! Correct POSIX shell quoting for values interpolated into remote commands.
//!
//! Session names, shells, and working directories can contain spaces, quotes,
//! and shell metacharacters. Single-quoting with `'\''` escaping turns any
//! value into exactly one shell word, so the remote shell never re-interprets
//! it.
use vstd::prelude::*;

use crate::shell;
use crate::text;

verus! {

/// `value` in single quotes, each single quote of its own written `'\''`.
pub open spec fn quoted(value: Seq<char>) -> Seq<char> {
    seq!['\''] + text::replaced(value, '\'', seq!['\'', '\\', '\'', '\'']) + seq!['\'']
}

/// A path on the remote host as one shell word, its leading `~` or `~/` written
/// as the remote home directory.
pub open spec fn quoted_remote_path(value: Seq<char>) -> Seq<char> {
    if value == "~"@ || value == "~/"@ {
        "\"$HOME\""@
    } else if "~/"@.is_prefix_of(value) {
        "\"$HOME\"/"@ + quoted(value.skip(2))
    } else {
        quoted(value)
    }
}

/// The path that `value` names on a host whose home directory is `home`.
pub open spec fn remote_path(home: Seq<char>, value: Seq<char>) -> Seq<char> {
    if value == "~"@ || value == "~/"@ {
        home
    } else if "~/"@.is_prefix_of(value) {
        home + seq!['/'] + value.skip(2)
    } else {
        value
    }
}

/// Quote one arbitrary value as a single POSIX shell word.
pub fn quote(value: &str) -> (res: String)
    ensures
        res@ == quoted(value@),
{
    proof {
        reveal_strlit("'");
        reveal_strlit("'\\''");
        assert("'\\''"@ =~= seq!['\'', '\\', '\'', '\'']);
        assert("'"@ =~= seq!['\'']);
    }
    let mut out: String = "'".to_owned();
    out.append(text::replace_char(value, '\'', "'\\''").as_str());
    out.append("'");
    out
}

/// Quote a remote path as one shell word, giving a leading `~/` explicit
/// remote-HOME semantics without relying on shell-specific tilde expansion.
/// A bare `~` becomes `"$HOME"`, `~/foo` becomes `"$HOME"/'foo'`, and any other
/// value is quoted literally.
pub fn quote_remote_path(value: &str) -> (res: String)
    ensures
        res@ == quoted_remote_path(value@),
{
    proof {
        reveal_strlit("~");
        reveal_strlit("~/");
    }
    if text::same_text(value, "~") {
        return "\"$HOME\"".to_owned();
    }
    match text::strip_prefix(value, "~/") {
        Some(relative) => {
            if relative.as_str().is_empty() {
                assert(value@ =~= "~/"@);
                "\"$HOME\"".to_owned()
            } else {
                let mut out: String = "\"$HOME\"/".to_owned();
                out.append(quote(relative.as_str()).as_str());
                out
            }
        },
        None => quote(value),
    }
}

/// Quoting turns any value into exactly one shell word, which is that value.
pub proof fn quoting_keeps_the_value(env: spec_fn(Seq<char>) -> Seq<char>, value: Seq<char>)
    ensures
        shell::is_shell_word(env, quoted(value), value),
        shell::shell_words(env, quoted(value)) == Some(seq![value]),
{
    assert forall|words: Seq<Seq<char>>|
        (#[trigger] (shell::Reading { words, word: Seq::empty(), mode: shell::Mode::Blank }).read(env, quoted(value)))
            == (shell::Reading { words, word: value, mode: shell::Mode::Bare }) by {
        let r = shell::Reading { words, word: Seq::empty(), mode: shell::Mode::Blank };
        lemma_read_quoted(r, env, value);
        assert(r.word + value =~= value);
    }
    assert(seq![value].drop_last() =~= Seq::empty());
    shell::lemma_joined_words(env, seq![quoted(value)], seq![value]);
}

/// A quoted value adds itself to the word it stands in.
pub proof fn lemma_read_quoted(r: shell::Reading, env: spec_fn(Seq<char>) -> Seq<char>, value: Seq<char>)
    requires
        r.mode is Blank || r.mode is Bare,
    ensures
        r.read(env, quoted(value)) == r.add_all(value).enter(shell::Mode::Bare),
{
    let body = text::replaced(value, '\'', seq!['\'', '\\', '\'', '\'']);
    assert(quoted(value) =~= (seq!['\''] + body).push('\''));
    assert(seq!['\''] =~= Seq::<char>::empty().push('\''));
    shell::lemma_read_push(r, env, seq!['\''] + body, '\'');
    shell::lemma_read_add(r, env, seq!['\''], body);
    shell::lemma_read_push(r, env, Seq::empty(), '\'');
    shell::lemma_read_single(r.enter(shell::Mode::Single), env, value);
}

/// A quoted remote path is exactly one shell word: the path, with a leading
/// `~` or `~/` taken relative to the remote home directory.
pub proof fn quoting_a_remote_path_resolves_home(env: spec_fn(Seq<char>) -> Seq<char>, value: Seq<char>)
    ensures
        shell::is_shell_word(env, quoted_remote_path(value), remote_path(env("HOME"@), value)),
{
    reveal_strlit("~");
    reveal_strlit("~/");
    reveal_strlit("HOME");
    let home = env("HOME"@);
    let s = quoted_remote_path(value);
    let word = remote_path(home, value);
    assert forall|words: Seq<Seq<char>>|
        (#[trigger] (shell::Reading { words, word: Seq::empty(), mode: shell::Mode::Blank }).read(env, s)) == (shell::Reading {
            words,
            word,
            mode: shell::Mode::Bare,
        }) by {
        let r = shell::Reading { words, word: Seq::empty(), mode: shell::Mode::Blank };
        shell::lemma_read_home(words, env);
        reveal_strlit("\"$HOME");
        reveal_strlit("\"$HOME\"");
        reveal_strlit("\"$HOME\"/");
        assert("\"$HOME\""@ =~= "\"$HOME"@.push('"'));
        shell::lemma_read_push(r, env, "\"$HOME"@, '"');
        assert(Seq::<char>::empty() + home =~= home);
        if value == "~"@ || value == "~/"@ {
        } else if "~/"@.is_prefix_of(value) {
            let rest = value.skip(2);
            assert("\"$HOME\"/"@ =~= "\"$HOME\""@.push('/'));
            shell::lemma_read_push(r, env, "\"$HOME\""@, '/');
            shell::lemma_read_add(r, env, "\"$HOME\"/"@, quoted(rest));
            let at_rest = shell::Reading { words, word: home.push('/'), mode: shell::Mode::Bare };
            lemma_read_quoted(at_rest, env, rest);
            assert(home.push('/') + rest =~= word);
        } else {
            lemma_read_quoted(r, env, value);
            assert(r.word + value =~= value);
        }
    }
}

/// A quoted value is the value in single quotes, with every single quote of its
/// own left as `'\''` and every other character as it is; and the shell reads
/// it as exactly the value.
pub proof fn quoting_is_literal(env: spec_fn(Seq<char>) -> Seq<char>, value: &str, res: String)
    requires
        call_ensures(quote, (value,), res),
    ensures
        res@ == seq!['\''] + value@.map_values(
            |c: char|
                if c == '\'' {
                    seq!['\'', '\\', '\'', '\'']
                } else {
                    seq![c]
                },
        ).flatten() + seq!['\''],
        shell::shell_words(env, res@) == Some(seq![value@]),
{
    let each = |c: char|
        if c == '\'' {
            seq!['\'', '\\', '\'', '\'']
        } else {
            seq![c]
        };
    text::replacing_is_character_by_character(value@, '\'', seq!['\'', '\\', '\'', '\''], each);
    quoting_keeps_the_value(env, value@);
}

/// A quoted remote path is what stands behind a leading `~/`, quoted, below the
/// remote home directory; `~` and `~/` are the home directory; and any other
/// path is quoted as it is.
pub proof fn quoted_remote_paths_are_below_home(
    env: spec_fn(Seq<char>) -> Seq<char>,
    value: &str,
    rest: &str,
    quoted_value: String,
    quoted_rest: String,
    res: String,
)
    requires
        call_ensures(quote_remote_path, (value,), res),
        call_ensures(quote, (value,), quoted_value),
        call_ensures(quote, (rest,), quoted_rest),
    ensures
        value@ == "~"@ || value@ == "~/"@ ==> res@ == "\"$HOME\""@ && shell::shell_words(env, res@) == Some(seq![env("HOME"@)]),
        value@ == "~/"@ + rest@ && rest@.len() > 0 ==> res@ == "\"$HOME\"/"@ + quoted_rest@ && shell::shell_words(env, res@)
            == Some(seq![env("HOME"@) + seq!['/'] + rest@]),
        value@ != "~"@ && !"~/"@.is_prefix_of(value@) ==> res@ == quoted_value@ && shell::shell_words(env, res@) == Some(
            seq![value@],
        ),
{
    reveal_strlit("~");
    reveal_strlit("~/");
    quoting_a_remote_path_resolves_home(env, value@);
    let word = remote_path(env("HOME"@), value@);
    shell::lemma_joined_words(env, seq![res@], seq![word]);
    if value@ == "~/"@ + rest@ {
        assert(value@.subrange(0, 2) =~= "~/"@);
        assert(value@.skip(2) =~= rest@);
        assert(value@.len() == 2 + rest@.len());
    }
}

} // verus!
