//! What a POSIX shell makes of one simple command: quoting, parameter
//! expansion inside double quotes, and the split into words.
//!
//! This is a model for stating what the commands of this library mean to the
//! shell that runs them. A text that uses anything else the shell gives a
//! meaning to (operators, patterns, command substitution, unquoted expansion)
//! is outside of it, and has no words here.
use vstd::prelude::*;

use crate::text;

verus! {

/// Where in a command the shell stands.
pub enum Mode {
    /// Between two words.
    Blank,
    /// In a word, outside of quotes.
    Bare,
    /// In a word, after an unquoted backslash.
    BareEscape,
    /// Inside single quotes.
    Single,
    /// Inside double quotes.
    Double,
    /// Inside double quotes, after a backslash.
    DoubleEscape,
    /// Inside double quotes, in the name of a parameter.
    DoubleName(Seq<char>),
    /// Inside double quotes, in the name of a parameter in braces.
    DoubleBrace(Seq<char>),
    /// Past something that is not modelled.
    Outside,
}

/// How far the shell has read a command.
pub struct Reading {
    /// The words that are complete.
    pub words: Seq<Seq<char>>,
    /// The word being read.
    pub word: Seq<char>,
    pub mode: Mode,
}

/// Characters that stand for themselves outside of quotes.
pub open spec fn is_plain(c: char) -> bool {
    ||| 'a' <= c <= 'z'
    ||| 'A' <= c <= 'Z'
    ||| '0' <= c <= '9'
    ||| c == '/' || c == '-' || c == '_' || c == '.' || c == ',' || c == ':' || c == '+' || c == '@' || c == '='
}

/// Characters a parameter name can start with.
pub open spec fn is_name_start(c: char) -> bool {
    ||| 'a' <= c <= 'z'
    ||| 'A' <= c <= 'Z'
    ||| c == '_'
}

/// Characters that make a dollar sign inside double quotes mean something
/// other than itself or a parameter's name.
pub open spec fn is_other_expansion(c: char) -> bool {
    ||| '0' <= c <= '9'
    ||| c == '(' || c == '@' || c == '*' || c == '#' || c == '?' || c == '-' || c == '$' || c == '!'
}

impl Reading {
    pub open spec fn start() -> Reading {
        Reading { words: Seq::empty(), word: Seq::empty(), mode: Mode::Blank }
    }

    pub open spec fn enter(self, mode: Mode) -> Reading {
        Reading { words: self.words, word: self.word, mode }
    }

    pub open spec fn add(self, c: char) -> Reading {
        Reading { words: self.words, word: self.word.push(c), mode: self.mode }
    }

    pub open spec fn add_all(self, s: Seq<char>) -> Reading {
        Reading { words: self.words, word: self.word + s, mode: self.mode }
    }

    pub open spec fn close(self) -> Reading {
        Reading { words: self.words.push(self.word), word: Seq::empty(), mode: Mode::Blank }
    }

    /// One character between words or in a word outside of quotes.
    pub open spec fn outside_quotes(self, c: char) -> Reading {
        if c == '\'' {
            self.enter(Mode::Single)
        } else if c == '"' {
            self.enter(Mode::Double)
        } else if c == '\\' {
            self.enter(Mode::BareEscape)
        } else if is_plain(c) || c as u32 >= 128 {
            self.add(c).enter(Mode::Bare)
        } else {
            self.enter(Mode::Outside)
        }
    }

    /// One character inside double quotes.
    pub open spec fn inside_double(self, c: char) -> Reading {
        if c == '"' {
            self.enter(Mode::Bare)
        } else if c == '\\' {
            self.enter(Mode::DoubleEscape)
        } else if c == '$' {
            self.enter(Mode::DoubleName(Seq::empty()))
        } else if c == '`' {
            self.enter(Mode::Outside)
        } else {
            self.add(c).enter(Mode::Double)
        }
    }

    /// One more character. `env` gives the value of each parameter.
    pub open spec fn step(self, env: spec_fn(Seq<char>) -> Seq<char>, c: char) -> Reading {
        match self.mode {
            Mode::Blank => if c == ' ' || c == '\t' {
                self
            } else {
                self.outside_quotes(c)
            },
            Mode::Bare => if c == ' ' || c == '\t' {
                self.close()
            } else {
                self.outside_quotes(c)
            },
            Mode::BareEscape => if c == '\n' {
                self.enter(Mode::Outside)
            } else {
                self.add(c).enter(Mode::Bare)
            },
            Mode::Single => if c == '\'' {
                self.enter(Mode::Bare)
            } else {
                self.add(c)
            },
            Mode::Double => self.inside_double(c),
            Mode::DoubleEscape => if c == '$' || c == '`' || c == '"' || c == '\\' {
                self.add(c).enter(Mode::Double)
            } else if c == '\n' {
                self.enter(Mode::Double)
            } else {
                self.add('\\').add(c).enter(Mode::Double)
            },
            Mode::DoubleName(name) => if name.len() == 0 {
                if is_name_start(c) {
                    self.enter(Mode::DoubleName(seq![c]))
                } else if c == '{' {
                    self.enter(Mode::DoubleBrace(Seq::empty()))
                } else if is_other_expansion(c) {
                    self.enter(Mode::Outside)
                } else {
                    self.add('$').inside_double(c)
                }
            } else if is_name_start(c) || '0' <= c <= '9' {
                self.enter(Mode::DoubleName(name.push(c)))
            } else {
                self.add_all(env(name)).inside_double(c)
            },
            Mode::DoubleBrace(name) => if is_name_start(c) || (name.len() > 0 && '0' <= c <= '9') {
                self.enter(Mode::DoubleBrace(name.push(c)))
            } else if name.len() > 0 && c == '}' {
                self.add_all(env(name)).enter(Mode::Double)
            } else {
                self.enter(Mode::Outside)
            },
            Mode::Outside => self,
        }
    }

    /// The characters of `s`, one after the other.
    pub open spec fn read(self, env: spec_fn(Seq<char>) -> Seq<char>, s: Seq<char>) -> Reading
        decreases s.len(),
    {
        if s.len() == 0 {
            self
        } else {
            self.read(env, s.drop_last()).step(env, s.last())
        }
    }
}

/// The words a shell splits the command `s` into, with the values of `env` for
/// its parameters.
pub open spec fn shell_words(env: spec_fn(Seq<char>) -> Seq<char>, s: Seq<char>) -> Option<Seq<Seq<char>>> {
    let r = Reading::start().read(env, s);
    match r.mode {
        Mode::Blank => Some(r.words),
        Mode::Bare => Some(r.words.push(r.word)),
        _ => None,
    }
}

/// `s` stands for exactly the word `word`, wherever in a command it stands
/// between blanks.
pub open spec fn is_shell_word(env: spec_fn(Seq<char>) -> Seq<char>, s: Seq<char>, word: Seq<char>) -> bool {
    forall|words: Seq<Seq<char>>|
        (#[trigger] Reading { words, word: Seq::empty(), mode: Mode::Blank }.read(env, s)) == (Reading {
            words,
            word,
            mode: Mode::Bare,
        })
}

/// Reading a text is reading its parts in turn.
pub proof fn lemma_read_add(r: Reading, env: spec_fn(Seq<char>) -> Seq<char>, a: Seq<char>, b: Seq<char>)
    ensures
        r.read(env, a + b) == r.read(env, a).read(env, b),
    decreases b.len(),
{
    if b.len() == 0 {
        assert(a + b =~= a);
    } else {
        lemma_read_add(r, env, a, b.drop_last());
        assert((a + b).drop_last() =~= a + b.drop_last());
    }
}

pub proof fn lemma_read_push(r: Reading, env: spec_fn(Seq<char>) -> Seq<char>, a: Seq<char>, c: char)
    ensures
        r.read(env, a.push(c)) == r.read(env, a).step(env, c),
{
    assert(a.push(c).drop_last() =~= a);
}

/// Inside single quotes, the quotes of `s` are left and entered again.
pub proof fn lemma_read_single(r: Reading, env: spec_fn(Seq<char>) -> Seq<char>, s: Seq<char>)
    requires
        r.mode is Single,
    ensures
        r.read(env, text::replaced(s, '\'', seq!['\'', '\\', '\'', '\''])) == r.add_all(s),
    decreases s.len(),
{
    let q = seq!['\'', '\\', '\'', '\''];
    if s.len() == 0 {
        assert(r.word + s =~= r.word);
    } else {
        let init = s.drop_last();
        let before = text::replaced(init, '\'', q);
        lemma_read_single(r, env, init);
        let mid = r.add_all(init);
        assert(mid.word.push(s.last()) =~= r.word + s);
        if s.last() == '\'' {
            lemma_read_add(r, env, before, q);
            assert(q =~= Seq::<char>::empty().push('\'').push('\\').push('\'').push('\''));
            lemma_read_push(mid, env, Seq::empty(), '\'');
            lemma_read_push(mid, env, Seq::<char>::empty().push('\''), '\\');
            lemma_read_push(mid, env, Seq::<char>::empty().push('\'').push('\\'), '\'');
            lemma_read_push(mid, env, Seq::<char>::empty().push('\'').push('\\').push('\''), '\'');
        } else {
            lemma_read_push(r, env, before, s.last());
        }
    }
}

/// The characters that stay special inside double quotes.
pub open spec fn is_double_special(c: char) -> bool {
    c == '\\' || c == '"' || c == '$' || c == '`'
}

/// Inside double quotes, text whose special characters are escaped stands for
/// itself.
pub proof fn lemma_read_escaped(r: Reading, env: spec_fn(Seq<char>) -> Seq<char>, s: Seq<char>, special: Seq<char>)
    requires
        r.mode is Double,
        forall|c: char| special.contains(c) ==> is_double_special(c),
        forall|i: int| 0 <= i < s.len() && is_double_special(#[trigger] s[i]) ==> special.contains(s[i]),
    ensures
        r.read(env, text::escaped(s, special)) == r.add_all(s),
    decreases s.len(),
{
    if s.len() == 0 {
        assert(r.word + s =~= r.word);
    } else {
        let init = s.drop_last();
        let c = s.last();
        let before = text::escaped(init, special);
        assert forall|i: int| 0 <= i < init.len() && is_double_special(#[trigger] init[i]) implies special.contains(init[i]) by {
            assert(init[i] == s[i]);
        }
        lemma_read_escaped(r, env, init, special);
        let mid = r.add_all(init);
        assert(mid.word.push(c) =~= r.word + s);
        assert(c == s[s.len() - 1]);
        if special.contains(c) {
            lemma_read_push(r, env, before, '\\');
            lemma_read_push(r, env, before.push('\\'), c);
            assert(is_double_special(c));
            assert(mid.step(env, '\\').step(env, c) == r.add_all(s));
            assert(text::escaped(s, special) == before.push('\\').push(c));
        } else {
            lemma_read_push(r, env, before, c);
            assert(!is_double_special(c));
            assert(mid.step(env, c) == r.add_all(s));
        }
    }
}

/// A text of plain characters stands for itself.
pub proof fn lemma_bare_word(env: spec_fn(Seq<char>) -> Seq<char>, s: Seq<char>)
    requires
        s.len() > 0,
        forall|i: int| 0 <= i < s.len() ==> is_plain(#[trigger] s[i]),
    ensures
        is_shell_word(env, s, s),
{
    assert forall|words: Seq<Seq<char>>|
        (#[trigger] Reading { words, word: Seq::empty(), mode: Mode::Blank }.read(env, s)) == (Reading {
            words,
            word: s,
            mode: Mode::Bare,
        }) by {
        lemma_read_plain(words, env, s);
    }
}

proof fn lemma_read_plain(words: Seq<Seq<char>>, env: spec_fn(Seq<char>) -> Seq<char>, s: Seq<char>)
    requires
        s.len() > 0,
        forall|i: int| 0 <= i < s.len() ==> is_plain(#[trigger] s[i]),
    ensures
        (Reading { words, word: Seq::empty(), mode: Mode::Blank }).read(env, s) == (Reading {
            words,
            word: s,
            mode: Mode::Bare,
        }),
    decreases s.len(),
{
    let r = Reading { words, word: Seq::empty(), mode: Mode::Blank };
    let init = s.drop_last();
    assert(init.push(s.last()) =~= s);
    assert(is_plain(s[s.len() - 1]));
    if init.len() == 0 {
        assert(r.read(env, init) == r);
        assert(r.word.push(s.last()) =~= s);
    } else {
        assert forall|i: int| 0 <= i < init.len() implies is_plain(#[trigger] init[i]) by {
            assert(init[i] == s[i]);
        }
        lemma_read_plain(words, env, init);
    }
}

/// Texts that stand for one word each, with a blank between neighbours, split
/// into those words.
pub proof fn lemma_joined_words(env: spec_fn(Seq<char>) -> Seq<char>, parts: Seq<Seq<char>>, words: Seq<Seq<char>>)
    requires
        parts.len() == words.len(),
        forall|i: int| 0 <= i < parts.len() ==> is_shell_word(env, #[trigger] parts[i], words[i]),
    ensures
        shell_words(env, text::joined(parts, seq![' '])) == Some(words),
{
    if parts.len() == 0 {
        assert(words =~= Seq::empty());
    } else {
        lemma_read_joined(env, parts, words);
        assert(words.drop_last().push(words.last()) =~= words);
    }
}

proof fn lemma_read_joined(env: spec_fn(Seq<char>) -> Seq<char>, parts: Seq<Seq<char>>, words: Seq<Seq<char>>)
    requires
        parts.len() == words.len() > 0,
        forall|i: int| 0 <= i < parts.len() ==> is_shell_word(env, #[trigger] parts[i], words[i]),
    ensures
        Reading::start().read(env, text::joined(parts, seq![' '])) == (Reading {
            words: words.drop_last(),
            word: words.last(),
            mode: Mode::Bare,
        }),
    decreases parts.len(),
{
    let last = parts.len() - 1;
    assert(is_shell_word(env, parts[last], words[last]));
    if parts.len() == 1 {
        assert(words.drop_last() =~= Seq::empty());
        assert((Reading { words: Seq::empty(), word: Seq::empty(), mode: Mode::Blank }).read(env, parts[0]) == (Reading {
            words: Seq::empty(),
            word: words[0],
            mode: Mode::Bare,
        }));
    } else {
        let init = parts.drop_last();
        let before = text::joined(init, seq![' ']);
        assert forall|i: int| 0 <= i < init.len() implies is_shell_word(env, #[trigger] init[i], words.drop_last()[i]) by {
            assert(init[i] == parts[i]);
        }
        lemma_read_joined(env, init, words.drop_last());
        lemma_read_add(Reading::start(), env, before + seq![' '], parts.last());
        assert(before + seq![' '] =~= before.push(' '));
        lemma_read_push(Reading::start(), env, before, ' ');
        let closed = words.drop_last();
        assert(closed.drop_last().push(closed.last()) =~= closed);
        assert((Reading { words: closed, word: Seq::empty(), mode: Mode::Blank }).read(env, parts.last()) == (Reading {
            words: closed,
            word: words.last(),
            mode: Mode::Bare,
        }));
    }
}

/// `"$HOME"`, closed by what follows the name.
pub proof fn lemma_read_home(words: Seq<Seq<char>>, env: spec_fn(Seq<char>) -> Seq<char>)
    ensures
        (Reading { words, word: Seq::empty(), mode: Mode::Blank }).read(env, "\"$HOME"@) == (Reading {
            words,
            word: Seq::empty(),
            mode: Mode::DoubleName("HOME"@),
        }),
{
    reveal_strlit("\"$HOME");
    reveal_strlit("HOME");
    let r = Reading { words, word: Seq::empty(), mode: Mode::Blank };
    let e = Seq::<char>::empty();
    assert("\"$HOME"@ =~= e.push('"').push('$').push('H').push('O').push('M').push('E'));
    lemma_read_push(r, env, e, '"');
    lemma_read_push(r, env, e.push('"'), '$');
    lemma_read_push(r, env, e.push('"').push('$'), 'H');
    lemma_read_push(r, env, e.push('"').push('$').push('H'), 'O');
    lemma_read_push(r, env, e.push('"').push('$').push('H').push('O'), 'M');
    lemma_read_push(r, env, e.push('"').push('$').push('H').push('O').push('M'), 'E');
    assert(seq!['H'].push('O').push('M').push('E') =~= "HOME"@);
}

} // verus!
