//! Text as sequences of characters: the operations the rest of the library
//! builds commands, log entries and menus from.
//!
//! Every operation is stated over `Seq<char>`, the view of `str` and `String`.
use vstd::prelude::*;

verus! {

/// `String::push`: the character is appended at the end.
pub assume_specification[ String::push ](s: &mut String, c: char)
    ensures
        final(s)@ == old(s)@.push(c),
;

/// The result of `str::to_lowercase` on the given characters.
pub uninterp spec fn lowercased(s: Seq<char>) -> Seq<char>;

/// Every character is an ASCII character.
pub open spec fn is_ascii_text(s: Seq<char>) -> bool {
    forall|i: int| 0 <= i < s.len() ==> (#[trigger] s[i] as u32) < 128
}

/// `s` with its ASCII capitals in lower case.
pub open spec fn ascii_lowercased(s: Seq<char>) -> Seq<char> {
    Seq::new(
        s.len(),
        |i: int|
            if 'A' <= s[i] <= 'Z' {
                (s[i] as u32 + 32) as char
            } else {
                s[i]
            },
    )
}

/// `str::to_lowercase`: the Unicode lower case of the text, which depends on
/// the text alone. Of text made of ASCII characters only, the capitals A to Z
/// become a to z and everything else stays. What happens to other characters
/// is left to the name `lowercased`.
#[verifier::external_body]
pub(crate) fn lowercase(s: &str) -> (res: String)
    ensures
        res@ == lowercased(s@),
        is_ascii_text(s@) ==> res@ == ascii_lowercased(s@),
{
    s.to_lowercase()
}

// ---------------------------------------------------------------- sequences
/// The views of a list of strings.
pub open spec fn texts(v: Seq<String>) -> Seq<Seq<char>> {
    Seq::new(v.len(), |i: int| v[i]@)
}

/// `s` with every `from` replaced by `to`.
pub open spec fn replaced(s: Seq<char>, from: char, to: Seq<char>) -> Seq<char>
    decreases s.len(),
{
    if s.len() == 0 {
        Seq::empty()
    } else if s.last() == from {
        replaced(s.drop_last(), from, to) + to
    } else {
        replaced(s.drop_last(), from, to).push(s.last())
    }
}

/// `s` with a backslash in front of every character that occurs in `special`.
pub open spec fn escaped(s: Seq<char>, special: Seq<char>) -> Seq<char>
    decreases s.len(),
{
    if s.len() == 0 {
        Seq::empty()
    } else if special.contains(s.last()) {
        escaped(s.drop_last(), special).push('\\').push(s.last())
    } else {
        escaped(s.drop_last(), special).push(s.last())
    }
}

/// The parts with `sep` between neighbours.
pub open spec fn joined(parts: Seq<Seq<char>>, sep: Seq<char>) -> Seq<char>
    decreases parts.len(),
{
    if parts.len() == 0 {
        Seq::empty()
    } else if parts.len() == 1 {
        parts[0]
    } else {
        joined(parts.drop_last(), sep) + sep + parts.last()
    }
}

/// The characters with the Unicode property White_Space.
pub open spec fn is_white(c: char) -> bool {
    ||| 0x09 <= c as u32 <= 0x0d
    ||| c as u32 == 0x20
    ||| c as u32 == 0x85
    ||| c as u32 == 0xa0
    ||| c as u32 == 0x1680
    ||| 0x2000 <= c as u32 <= 0x200a
    ||| c as u32 == 0x2028
    ||| c as u32 == 0x2029
    ||| c as u32 == 0x202f
    ||| c as u32 == 0x205f
    ||| c as u32 == 0x3000
}

/// `s` from its first character on that is not white space.
pub open spec fn trimmed_start(s: Seq<char>) -> Seq<char>
    decreases s.len(),
{
    if s.len() > 0 && is_white(s.first()) {
        trimmed_start(s.drop_first())
    } else {
        s
    }
}

/// `s` up to its last character that is not white space.
pub open spec fn trimmed_end(s: Seq<char>) -> Seq<char>
    decreases s.len(),
{
    if s.len() > 0 && is_white(s.last()) {
        trimmed_end(s.drop_last())
    } else {
        s
    }
}

/// `s` without white space at either end.
pub open spec fn trimmed(s: Seq<char>) -> Seq<char> {
    trimmed_end(trimmed_start(s))
}

/// `s` without the run of `c` it starts with.
pub open spec fn without_leading(s: Seq<char>, c: char) -> Seq<char>
    decreases s.len(),
{
    if s.len() > 0 && s.first() == c {
        without_leading(s.drop_first(), c)
    } else {
        s
    }
}

/// `s` without the run of `c` it ends with.
pub open spec fn without_trailing(s: Seq<char>, c: char) -> Seq<char>
    decreases s.len(),
{
    if s.len() > 0 && s.last() == c {
        without_trailing(s.drop_last(), c)
    } else {
        s
    }
}

/// What stands between the occurrences of `sep`, in order; always at least one
/// piece.
pub open spec fn pieces(s: Seq<char>, sep: char) -> Seq<Seq<char>>
    decreases s.len(),
{
    if s.len() == 0 {
        seq![Seq::empty()]
    } else {
        let before = pieces(s.drop_last(), sep);
        if s.last() == sep {
            before.push(Seq::empty())
        } else {
            before.drop_last().push(before.last().push(s.last()))
        }
    }
}

/// A line that a newline ended, without the carriage return in front of that
/// newline.
pub open spec fn chomped(line: Seq<char>) -> Seq<char> {
    if line.len() > 0 && line.last() == '\r' {
        line.drop_last()
    } else {
        line
    }
}

/// The lines of `s`. A line ends with a newline, or with a carriage return and
/// a newline; the ending of the last line is optional.
pub open spec fn lines_of(s: Seq<char>) -> Seq<Seq<char>> {
    let p = pieces(s, '\n');
    let ended = p.drop_last().map_values(|line: Seq<char>| chomped(line));
    if p.last().len() == 0 {
        ended
    } else {
        ended.push(p.last())
    }
}

/// The fields closed by white space so far, and the field still open.
pub open spec fn fields_open(s: Seq<char>) -> (Seq<Seq<char>>, Seq<char>)
    decreases s.len(),
{
    if s.len() == 0 {
        (Seq::empty(), Seq::empty())
    } else {
        let (done, open) = fields_open(s.drop_last());
        if !is_white(s.last()) {
            (done, open.push(s.last()))
        } else if open.len() == 0 {
            (done, open)
        } else {
            (done.push(open), Seq::empty())
        }
    }
}

/// The maximal runs of characters that are not white space.
pub open spec fn fields_of(s: Seq<char>) -> Seq<Seq<char>> {
    let (done, open) = fields_open(s);
    if open.len() == 0 {
        done
    } else {
        done.push(open)
    }
}

/// The digit that stands for `d`, which is below sixteen.
pub open spec fn digit(d: int) -> char {
    "0123456789abcdef"@[d]
}

/// `n` in decimal digits.
pub open spec fn decimal(n: nat) -> Seq<char>
    decreases n,
{
    if n < 10 {
        seq![digit(n as int)]
    } else {
        decimal(n / 10).push(digit((n % 10) as int))
    }
}

/// `n` in decimal digits, with a minus sign if it is negative.
pub open spec fn signed_decimal(n: int) -> Seq<char> {
    if n < 0 {
        seq!['-'] + decimal((-n) as nat)
    } else {
        decimal(n as nat)
    }
}

/// The last `width` digits of `n` in the given base, with leading zeros.
pub open spec fn low_digits(n: nat, base: nat, width: nat) -> Seq<char>
    decreases width,
{
    if width == 0 {
        Seq::empty()
    } else {
        low_digits(n / base, base, (width - 1) as nat).push(digit((n % base) as int))
    }
}

// ------------------------------------------------------------- conversions
/// The characters of a text.
pub fn chars_of(s: &str) -> (res: Vec<char>)
    ensures
        res@ == s@,
{
    let mut out: Vec<char> = Vec::new();
    for c in it: s.chars()
        invariant
            out@ == it.seq().take(it.index() as int),
            it.seq() == s@,
    {
        out.push(c);
    }
    out
}

/// The text made of the characters from `from` up to `to`.
pub fn text_between(chars: &Vec<char>, from: usize, to: usize) -> (res: String)
    requires
        from <= to <= chars@.len(),
    ensures
        res@ == chars@.subrange(from as int, to as int),
{
    let mut out: String = String::new();
    let mut i: usize = from;
    while i < to
        invariant
            from <= i <= to <= chars@.len(),
            out@ == chars@.subrange(from as int, i as int),
        decreases to - i,
    {
        out.push(chars[i]);
        i += 1;
        assert(out@ =~= chars@.subrange(from as int, i as int));
    }
    out
}

/// Whether two texts hold the same characters.
pub fn same_text(a: &str, b: &str) -> (res: bool)
    ensures
        res == (a@ == b@),
{
    a.to_owned() == b.to_owned()
}

// -------------------------------------------------------------- operations
/// `s` with every `from` replaced by `to`.
pub fn replace_char(s: &str, from: char, to: &str) -> (res: String)
    ensures
        res@ == replaced(s@, from, to@),
{
    let chars = chars_of(s);
    let mut out: String = String::new();
    let mut i: usize = 0;
    while i < chars.len()
        invariant
            i <= chars@.len(),
            chars@ == s@,
            out@ == replaced(s@.take(i as int), from, to@),
        decreases chars@.len() - i,
    {
        assert(s@.take(i + 1).drop_last() =~= s@.take(i as int));
        if chars[i] == from {
            out.append(to);
        } else {
            out.push(chars[i]);
        }
        i += 1;
    }
    assert(s@.take(i as int) =~= s@);
    out
}

/// Whether the character occurs in the text.
pub fn has_char(s: &str, c: char) -> (res: bool)
    ensures
        res == s@.contains(c),
{
    let chars = chars_of(s);
    let mut i: usize = 0;
    while i < chars.len()
        invariant
            i <= chars@.len(),
            chars@ == s@,
            forall|k: int| 0 <= k < i ==> s@[k] != c,
        decreases chars@.len() - i,
    {
        if chars[i] == c {
            assert(s@[i as int] == c);
            return true;
        }
        i += 1;
    }
    false
}

/// `s` with a backslash in front of every character that occurs in `special`.
pub fn escape(s: &str, special: &str) -> (res: String)
    ensures
        res@ == escaped(s@, special@),
{
    let chars = chars_of(s);
    let mut out: String = String::new();
    let mut i: usize = 0;
    while i < chars.len()
        invariant
            i <= chars@.len(),
            chars@ == s@,
            out@ == escaped(s@.take(i as int), special@),
        decreases chars@.len() - i,
    {
        assert(s@.take(i + 1).drop_last() =~= s@.take(i as int));
        if has_char(special, chars[i]) {
            out.push('\\');
        }
        out.push(chars[i]);
        i += 1;
    }
    assert(s@.take(i as int) =~= s@);
    out
}

/// The parts with `sep` between neighbours.
pub fn join(parts: &Vec<String>, sep: &str) -> (res: String)
    ensures
        res@ == joined(texts(parts@), sep@),
{
    let mut out: String = String::new();
    let mut i: usize = 0;
    while i < parts.len()
        invariant
            i <= parts@.len(),
            out@ == joined(texts(parts@).take(i as int), sep@),
        decreases parts@.len() - i,
    {
        assert(texts(parts@).take(i + 1).drop_last() =~= texts(parts@).take(i as int));
        if i > 0 {
            out.append(sep);
        }
        out.append(parts[i].as_str());
        i += 1;
        assert(out@ =~= joined(texts(parts@).take(i as int), sep@));
    }
    assert(texts(parts@).take(i as int) =~= texts(parts@));
    out
}

/// Whether the text is one of the list.
pub fn contains_text(list: &Vec<String>, s: &str) -> (res: bool)
    ensures
        res == texts(list@).contains(s@),
{
    let mut i: usize = 0;
    while i < list.len()
        invariant
            i <= list@.len(),
            forall|k: int| 0 <= k < i ==> texts(list@)[k] != s@,
        decreases list@.len() - i,
    {
        if same_text(list[i].as_str(), s) {
            assert(texts(list@)[i as int] == s@);
            return true;
        }
        i += 1;
    }
    false
}

/// Whether the character has the Unicode property White_Space.
pub fn white(c: char) -> (res: bool)
    ensures
        res == is_white(c),
{
    let n: u32 = c as u32;
    (0x09 <= n && n <= 0x0d) || n == 0x20 || n == 0x85 || n == 0xa0 || n == 0x1680 || (0x2000 <= n && n <= 0x200a)
        || n == 0x2028 || n == 0x2029 || n == 0x202f || n == 0x205f || n == 0x3000
}

/// `s` without white space at either end.
pub fn trim(s: &str) -> (res: String)
    ensures
        res@ == trimmed(s@),
{
    let chars = chars_of(s);
    let mut from: usize = 0;
    assert(s@.skip(0) =~= s@);
    while from < chars.len() && white(chars[from])
        invariant
            from <= chars@.len(),
            chars@ == s@,
            trimmed_start(s@.skip(from as int)) == trimmed_start(s@),
        decreases chars@.len() - from,
    {
        assert(s@.skip(from as int).drop_first() =~= s@.skip(from + 1));
        from += 1;
    }
    let ghost rest = s@.skip(from as int);
    let mut to: usize = chars.len();
    assert(s@.subrange(from as int, to as int) =~= rest);
    while to > from && white(chars[to - 1])
        invariant
            from <= to <= chars@.len(),
            chars@ == s@,
            trimmed_end(s@.subrange(from as int, to as int)) == trimmed_end(rest),
        decreases to,
    {
        assert(s@.subrange(from as int, to as int).drop_last() =~= s@.subrange(from as int, to - 1));
        to -= 1;
    }
    text_between(&chars, from, to)
}

/// `s` without the run of `c` at either end.
pub fn trim_char(s: &str, c: char) -> (res: String)
    ensures
        res@ == without_trailing(without_leading(s@, c), c),
{
    let chars = chars_of(s);
    let mut from: usize = 0;
    assert(s@.skip(0) =~= s@);
    while from < chars.len() && chars[from] == c
        invariant
            from <= chars@.len(),
            chars@ == s@,
            without_leading(s@.skip(from as int), c) == without_leading(s@, c),
        decreases chars@.len() - from,
    {
        assert(s@.skip(from as int).drop_first() =~= s@.skip(from + 1));
        from += 1;
    }
    let ghost rest = s@.skip(from as int);
    let mut to: usize = chars.len();
    assert(s@.subrange(from as int, to as int) =~= rest);
    while to > from && chars[to - 1] == c
        invariant
            from <= to <= chars@.len(),
            chars@ == s@,
            without_trailing(s@.subrange(from as int, to as int), c) == without_trailing(rest, c),
        decreases to,
    {
        assert(s@.subrange(from as int, to as int).drop_last() =~= s@.subrange(from as int, to - 1));
        to -= 1;
    }
    text_between(&chars, from, to)
}

/// What follows `prefix` in `s`, if `s` starts with it.
pub fn strip_prefix(s: &str, prefix: &str) -> (res: Option<String>)
    ensures
        match res {
            Some(rest) => prefix@.is_prefix_of(s@) && rest@ == s@.skip(prefix@.len() as int),
            None => !prefix@.is_prefix_of(s@),
        },
{
    let chars = chars_of(s);
    let head = chars_of(prefix);
    if head.len() > chars.len() {
        return None;
    }
    let mut i: usize = 0;
    while i < head.len()
        invariant
            i <= head@.len() <= chars@.len(),
            chars@ == s@,
            head@ == prefix@,
            forall|k: int| 0 <= k < i ==> s@[k] == prefix@[k],
        decreases head@.len() - i,
    {
        if chars[i] != head[i] {
            assert(s@.subrange(0, prefix@.len() as int)[i as int] != prefix@[i as int]);
            return None;
        }
        i += 1;
    }
    assert(prefix@ =~= s@.subrange(0, prefix@.len() as int));
    let rest = text_between(&chars, head.len(), chars.len());
    assert(rest@ =~= s@.skip(prefix@.len() as int));
    Some(rest)
}

/// Whether `s` starts with `prefix`.
pub fn starts_with(s: &str, prefix: &str) -> (res: bool)
    ensures
        res == prefix@.is_prefix_of(s@),
{
    strip_prefix(s, prefix).is_some()
}

/// What stands between the occurrences of `sep`.
pub fn split_char(s: &str, sep: char) -> (res: Vec<String>)
    ensures
        texts(res@) == pieces(s@, sep),
{
    let chars = chars_of(s);
    let mut done: Vec<String> = Vec::new();
    let mut piece: String = String::new();
    let mut i: usize = 0;
    assert(texts(done@).push(piece@) =~= pieces(s@.take(0), sep));
    while i < chars.len()
        invariant
            i <= chars@.len(),
            chars@ == s@,
            texts(done@).push(piece@) == pieces(s@.take(i as int), sep),
        decreases chars@.len() - i,
    {
        assert(s@.take(i + 1).drop_last() =~= s@.take(i as int));
        let ghost before = texts(done@).push(piece@);
        assert(before.drop_last() =~= texts(done@));
        if chars[i] == sep {
            done.push(piece);
            piece = String::new();
            assert(texts(done@) =~= before);
        } else {
            piece.push(chars[i]);
        }
        i += 1;
        assert(texts(done@).push(piece@) =~= pieces(s@.take(i as int), sep));
    }
    assert(s@.take(i as int) =~= s@);
    let ghost before = texts(done@).push(piece@);
    done.push(piece);
    assert(texts(done@) =~= before);
    done
}

/// The lines of `s`.
pub fn lines(s: &str) -> (res: Vec<String>)
    ensures
        texts(res@) == lines_of(s@),
{
    let parts = split_char(s, '\n');
    let ghost p = pieces(s@, '\n');
    let ghost ended = p.drop_last().map_values(|line: Seq<char>| chomped(line));
    proof {
        lemma_pieces_some(s@, '\n');
    }
    let last: usize = parts.len() - 1;
    let mut out: Vec<String> = Vec::new();
    let mut i: usize = 0;
    while i < last
        invariant
            i <= last == parts@.len() - 1,
            texts(parts@) == p,
            ended == p.drop_last().map_values(|line: Seq<char>| chomped(line)),
            texts(out@) =~= ended.take(i as int),
        decreases last - i,
    {
        let chars = chars_of(parts[i].as_str());
        let ghost old_out = texts(out@);
        assert(p[i as int] == parts@[i as int]@);
        if chars.len() > 0 && chars[chars.len() - 1] == '\r' {
            let line = text_between(&chars, 0, chars.len() - 1);
            assert(line@ =~= chomped(p[i as int]));
            out.push(line);
        } else {
            out.push(parts[i].clone());
        }
        assert(texts(out@) =~= old_out.push(chomped(p[i as int])));
        i += 1;
        assert(ended.take(i as int) =~= ended.take(i - 1).push(ended[i - 1]));
    }
    assert(ended.take(i as int) =~= ended);
    assert(p.last() == parts@[last as int]@);
    let ghost old_out = texts(out@);
    if !parts[last].as_str().is_empty() {
        out.push(parts[last].clone());
        assert(texts(out@) =~= old_out.push(p.last()));
    }
    out
}

/// The maximal runs of characters that are not white space.
pub fn fields(s: &str) -> (res: Vec<String>)
    ensures
        texts(res@) == fields_of(s@),
{
    let chars = chars_of(s);
    let mut done: Vec<String> = Vec::new();
    let mut open: String = String::new();
    let mut i: usize = 0;
    assert(texts(done@) =~= Seq::empty());
    while i < chars.len()
        invariant
            i <= chars@.len(),
            chars@ == s@,
            texts(done@) == fields_open(s@.take(i as int)).0,
            open@ == fields_open(s@.take(i as int)).1,
        decreases chars@.len() - i,
    {
        assert(s@.take(i + 1).drop_last() =~= s@.take(i as int));
        let ghost old_done = texts(done@);
        let ghost old_open = open@;
        if !white(chars[i]) {
            open.push(chars[i]);
        } else if !open.as_str().is_empty() {
            done.push(open);
            open = String::new();
            assert(texts(done@) =~= old_done.push(old_open));
        }
        i += 1;
    }
    assert(s@.take(i as int) =~= s@);
    let ghost old_done = texts(done@);
    let ghost old_open = open@;
    if !open.as_str().is_empty() {
        done.push(open);
        assert(texts(done@) =~= old_done.push(old_open));
    }
    done
}

/// What stands in front of the first `sep` and what follows it.
pub open spec fn split_first(s: Seq<char>, sep: char) -> Option<(Seq<char>, Seq<char>)>
    decreases s.len(),
{
    if s.len() == 0 {
        None
    } else if s.first() == sep {
        Some((Seq::empty(), s.drop_first()))
    } else {
        match split_first(s.drop_first(), sep) {
            Some((head, tail)) => Some((seq![s.first()] + head, tail)),
            None => None,
        }
    }
}

/// What the first occurrence of `sep` separates.
pub proof fn lemma_split_first(s: Seq<char>, sep: char, at: int)
    requires
        0 <= at < s.len(),
        s[at] == sep,
        forall|k: int| 0 <= k < at ==> s[k] != sep,
    ensures
        split_first(s, sep) == Some((s.take(at), s.skip(at + 1))),
    decreases s.len(),
{
    if at == 0 {
        assert(s.take(0) =~= Seq::empty());
        assert(s.drop_first() =~= s.skip(1));
    } else {
        let rest = s.drop_first();
        lemma_split_first(rest, sep, at - 1);
        assert(seq![s.first()] + rest.take(at - 1) =~= s.take(at));
        assert(rest.skip(at) =~= s.skip(at + 1));
    }
}

/// Without an occurrence of `sep` there is nothing to separate.
pub proof fn lemma_split_first_none(s: Seq<char>, sep: char)
    requires
        !s.contains(sep),
    ensures
        split_first(s, sep) is None,
    decreases s.len(),
{
    if s.len() > 0 {
        assert(s[0] == s.first());
        let rest = s.drop_first();
        assert forall|k: int| 0 <= k < rest.len() implies rest[k] != sep by {
            assert(s[k + 1] == rest[k]);
        }
        lemma_split_first_none(rest, sep);
    }
}

/// The two parts are what the text is made of, and the first of them does not
/// hold `sep`.
pub proof fn lemma_split_first_parts(s: Seq<char>, sep: char)
    ensures
        split_first(s, sep) matches Some((head, tail)) ==> s == head + seq![sep] + tail && !head.contains(sep),
    decreases s.len(),
{
    if s.len() > 0 {
        let rest = s.drop_first();
        if s.first() == sep {
            assert(s =~= Seq::empty() + seq![sep] + rest);
        } else {
            lemma_split_first_parts(rest, sep);
            if let Some((head, tail)) = split_first(rest, sep) {
                let whole = seq![s.first()] + head;
                assert(s =~= seq![s.first()] + rest);
                assert(s =~= whole + seq![sep] + tail);
                assert forall|i: int| 0 <= i < whole.len() implies whole[i] != sep by {
                    if i > 0 {
                        assert(whole[i] == head[i - 1]);
                    }
                }
            }
        }
    }
}

/// What stands in front of the first `sep` and what follows it.
pub fn split_once(s: &str, sep: char) -> (res: Option<(String, String)>)
    ensures
        match res {
            Some((head, tail)) => split_first(s@, sep) == Some((head@, tail@)),
            None => split_first(s@, sep) is None,
        },
{
    let chars = chars_of(s);
    let mut i: usize = 0;
    while i < chars.len()
        invariant
            i <= chars@.len(),
            chars@ == s@,
            forall|k: int| 0 <= k < i ==> s@[k] != sep,
        decreases chars@.len() - i,
    {
        if chars[i] == sep {
            let head = text_between(&chars, 0, i);
            let tail = text_between(&chars, i + 1, chars.len());
            proof {
                lemma_split_first(s@, sep, i as int);
                assert(head@ =~= s@.take(i as int));
                assert(tail@ =~= s@.skip(i + 1));
            }
            return Some((head, tail));
        }
        i += 1;
    }
    proof {
        lemma_split_first_none(s@, sep);
    }
    None
}

/// There is always at least one piece.
pub proof fn lemma_pieces_some(s: Seq<char>, sep: char)
    ensures
        pieces(s, sep).len() > 0,
    decreases s.len(),
{
    if s.len() > 0 {
        lemma_pieces_some(s.drop_last(), sep);
    }
}

/// No piece holds `sep`.
pub proof fn lemma_pieces_clean(s: Seq<char>, sep: char)
    ensures
        forall|i: int| 0 <= i < pieces(s, sep).len() ==> !(#[trigger] pieces(s, sep)[i]).contains(sep),
    decreases s.len(),
{
    if s.len() > 0 {
        let before = pieces(s.drop_last(), sep);
        lemma_pieces_clean(s.drop_last(), sep);
        lemma_pieces_some(s.drop_last(), sep);
        assert forall|i: int| 0 <= i < pieces(s, sep).len() implies !(#[trigger] pieces(s, sep)[i]).contains(sep) by {
            if i < before.len() - 1 || s.last() == sep {
                if i < before.len() {
                    assert(pieces(s, sep)[i] == before[i]);
                }
            } else {
                let open = before[before.len() - 1];
                assert(pieces(s, sep)[i] == open.push(s.last()));
                assert forall|k: int| 0 <= k < open.push(s.last()).len() implies open.push(s.last())[k] != sep by {
                    if k < open.len() {
                        assert(open[k] != sep);
                    }
                }
            }
        }
    }
}

/// No line holds a newline.
pub proof fn lemma_lines_clean(s: Seq<char>)
    ensures
        forall|i: int| 0 <= i < lines_of(s).len() ==> !(#[trigger] lines_of(s)[i]).contains('\n'),
{
    let p = pieces(s, '\n');
    lemma_pieces_clean(s, '\n');
    lemma_pieces_some(s, '\n');
    assert forall|i: int| 0 <= i < lines_of(s).len() implies !(#[trigger] lines_of(s)[i]).contains('\n') by {
        assert(!p[i].contains('\n'));
        let line = lines_of(s)[i];
        assert(line == p[i] || line == chomped(p[i]));
        assert forall|k: int| 0 <= k < line.len() implies line[k] != '\n' by {
            assert(line[k] == p[i][k]);
        }
    }
}

/// A character that is replaced by a text without it is gone.
pub proof fn lemma_replaced_gone(s: Seq<char>, from: char, to: Seq<char>)
    requires
        !to.contains(from),
    ensures
        !replaced(s, from, to).contains(from),
    decreases s.len(),
{
    if s.len() > 0 {
        let before = replaced(s.drop_last(), from, to);
        lemma_replaced_gone(s.drop_last(), from, to);
        let after = replaced(s, from, to);
        assert forall|i: int| 0 <= i < after.len() implies after[i] != from by {
            if i < before.len() {
                assert(after[i] == before[i]);
            } else if s.last() == from {
                assert(after[i] == to[i - before.len()]);
            }
        }
    }
}

/// A text without `sep` is one piece.
pub proof fn lemma_pieces_whole(s: Seq<char>, sep: char)
    requires
        !s.contains(sep),
    ensures
        pieces(s, sep) == seq![s],
    decreases s.len(),
{
    if s.len() > 0 {
        let init = s.drop_last();
        assert forall|i: int| 0 <= i < init.len() implies init[i] != sep by {
            assert(init[i] == s[i]);
        }
        lemma_pieces_whole(init, sep);
        assert(s[s.len() - 1] != sep);
        assert(init.push(s.last()) =~= s);
        assert(pieces(s, sep) =~= seq![s]);
    } else {
        assert(s =~= Seq::empty());
        assert(pieces(s, sep) =~= seq![s]);
    }
}

/// The pieces of two texts with `sep` between them.
pub proof fn lemma_pieces_join(a: Seq<char>, b: Seq<char>, sep: char)
    ensures
        pieces(a.push(sep) + b, sep) == pieces(a, sep) + pieces(b, sep),
    decreases b.len(),
{
    let whole = a.push(sep) + b;
    if b.len() == 0 {
        assert(whole =~= a.push(sep));
        assert(a.push(sep).drop_last() =~= a);
        assert(pieces(a, sep).push(Seq::empty()) =~= pieces(a, sep) + pieces(b, sep));
    } else {
        let init = b.drop_last();
        lemma_pieces_join(a, init, sep);
        lemma_pieces_some(init, sep);
        assert(whole.drop_last() =~= a.push(sep) + init);
        assert(whole.last() == b.last());
        assert(pieces(whole, sep) =~= pieces(a, sep) + pieces(b, sep));
    }
}

// ------------------------------------------------------------------ numbers
/// The digit that stands for `d`.
pub fn digit_char(d: u64) -> (res: char)
    requires
        d < 16,
    ensures
        res == digit(d as int),
{
    proof {
        reveal_strlit("0123456789abcdef");
    }
    "0123456789abcdef".get_char(d as usize)
}

/// `n` in decimal digits.
pub fn decimal_text(n: u64) -> (res: String)
    ensures
        res@ == decimal(n as nat),
    decreases n,
{
    let mut out: String = if n < 10 {
        String::new()
    } else {
        decimal_text(n / 10)
    };
    out.push(digit_char(n % 10));
    assert(out@ =~= decimal(n as nat));
    out
}

/// `n` in decimal digits, with a minus sign if it is negative.
pub fn signed_decimal_text(n: i64) -> (res: String)
    ensures
        res@ == signed_decimal(n as int),
{
    if n < 0 {
        let mut out: String = String::new();
        out.push('-');
        let magnitude: u64 = (-(n + 1)) as u64 + 1;
        out.append(decimal_text(magnitude).as_str());
        assert(out@ =~= signed_decimal(n as int));
        out
    } else {
        decimal_text(n as u64)
    }
}

/// The last `width` digits of `n` in the given base, with leading zeros.
pub fn low_digits_text(n: u64, base: u64, width: u32) -> (res: String)
    requires
        2 <= base <= 16,
    ensures
        res@ == low_digits(n as nat, base as nat, width as nat),
    decreases width,
{
    if width == 0 {
        String::new()
    } else {
        let mut out = low_digits_text(n / base, base, width - 1);
        let d: u64 = n % base;
        out.push(digit_char(d));
        out
    }
}

// --------------------------------------------------------------------- laws
/// Replacing a character puts the same text in place of every occurrence of it
/// and leaves every other character where it is. `each` says what a character
/// becomes.
pub proof fn replacing_is_character_by_character(
    s: Seq<char>,
    from: char,
    to: Seq<char>,
    each: spec_fn(char) -> Seq<char>,
)
    requires
        each(from) == to,
        forall|c: char| c != from ==> #[trigger] each(c) == seq![c],
    ensures
        replaced(s, from, to) == s.map_values(each).flatten(),
    decreases s.len(),
{
    if s.len() > 0 {
        let init = s.drop_last();
        replacing_is_character_by_character(init, from, to, each);
        assert(s.map_values(each) =~= init.map_values(each).push(each(s.last())));
        init.map_values(each).lemma_flatten_push(each(s.last()));
        assert(replaced(s, from, to) =~= replaced(init, from, to) + each(s.last()));
    }
}

/// Escaping puts a backslash in front of every special character and leaves
/// every other character where it is. `each` says what a character becomes.
pub proof fn escaping_is_character_by_character(s: Seq<char>, special: Seq<char>, each: spec_fn(char) -> Seq<char>)
    requires
        forall|c: char| special.contains(c) ==> #[trigger] each(c) == seq!['\\', c],
        forall|c: char| !special.contains(c) ==> #[trigger] each(c) == seq![c],
    ensures
        escaped(s, special) == s.map_values(each).flatten(),
    decreases s.len(),
{
    if s.len() > 0 {
        let init = s.drop_last();
        escaping_is_character_by_character(init, special, each);
        assert(s.map_values(each) =~= init.map_values(each).push(each(s.last())));
        init.map_values(each).lemma_flatten_push(each(s.last()));
        assert(escaped(s, special) =~= escaped(init, special) + each(s.last()));
    }
}

/// Joining puts the separator in front of every part but the first, and nothing
/// else.
pub proof fn joining_puts_the_separator_between(
    parts: Seq<Seq<char>>,
    sep: Seq<char>,
    led: spec_fn(Seq<char>) -> Seq<char>,
)
    requires
        forall|p: Seq<char>| #[trigger] led(p) == sep + p,
    ensures
        parts.len() == 0 ==> joined(parts, sep).len() == 0,
        parts.len() > 0 ==> joined(parts, sep) == parts[0] + parts.skip(1).map_values(led).flatten(),
    decreases parts.len(),
{
    if parts.len() == 1 {
        assert(parts.skip(1).map_values(led) =~= Seq::empty());
        assert(parts[0] + Seq::<char>::empty() =~= parts[0]);
    } else if parts.len() > 1 {
        let init = parts.drop_last();
        joining_puts_the_separator_between(init, sep, led);
        assert(parts.skip(1).map_values(led) =~= init.skip(1).map_values(led).push(led(parts.last())));
        init.skip(1).map_values(led).lemma_flatten_push(led(parts.last()));
        assert(joined(parts, sep) =~= parts[0] + parts.skip(1).map_values(led).flatten());
    }
}

/// White space is what Unicode lists as such.
pub proof fn white_space_is_listed(c: char, res: bool)
    requires
        call_ensures(white, (c,), res),
    ensures
        res <==> seq![
            '\u{9}',
            '\u{a}',
            '\u{b}',
            '\u{c}',
            '\u{d}',
            '\u{20}',
            '\u{85}',
            '\u{a0}',
            '\u{1680}',
            '\u{2000}',
            '\u{2001}',
            '\u{2002}',
            '\u{2003}',
            '\u{2004}',
            '\u{2005}',
            '\u{2006}',
            '\u{2007}',
            '\u{2008}',
            '\u{2009}',
            '\u{200a}',
            '\u{2028}',
            '\u{2029}',
            '\u{202f}',
            '\u{205f}',
            '\u{3000}',
        ].contains(c),
{
    let all = seq![
        '\u{9}',
        '\u{a}',
        '\u{b}',
        '\u{c}',
        '\u{d}',
        '\u{20}',
        '\u{85}',
        '\u{a0}',
        '\u{1680}',
        '\u{2000}',
        '\u{2001}',
        '\u{2002}',
        '\u{2003}',
        '\u{2004}',
        '\u{2005}',
        '\u{2006}',
        '\u{2007}',
        '\u{2008}',
        '\u{2009}',
        '\u{200a}',
        '\u{2028}',
        '\u{2029}',
        '\u{202f}',
        '\u{205f}',
        '\u{3000}',
    ];
    let n = c as u32;
    if res {
        let at = if n <= 0x0d {
            n - 0x09
        } else if n == 0x20 {
            5int
        } else if n == 0x85 {
            6int
        } else if n == 0xa0 {
            7int
        } else if n == 0x1680 {
            8int
        } else if n <= 0x200a {
            n - 0x2000 + 9
        } else if n == 0x2028 {
            20int
        } else if n == 0x2029 {
            21int
        } else if n == 0x202f {
            22int
        } else if n == 0x205f {
            23int
        } else {
            24int
        };
        assert(all[at] == c);
    }
}

/// White space, as a condition.
pub open spec fn whites() -> spec_fn(char) -> bool {
    |c: char| is_white(c)
}

/// One character, as a condition.
pub open spec fn only(c: char) -> spec_fn(char) -> bool {
    |d: char| d == c
}

/// `from` and `to` are where the trimmed text starts and ends in `s`.
pub open spec fn trims_to(s: Seq<char>, drop: spec_fn(char) -> bool, from: int, to: int) -> bool {
    &&& 0 <= from <= to <= s.len()
    &&& forall|i: int| 0 <= i < from ==> drop(#[trigger] s[i])
    &&& forall|i: int| to <= i < s.len() ==> drop(#[trigger] s[i])
    &&& from < to ==> !drop(s[from]) && !drop(s[to - 1])
}

/// Trimming takes white space away at both ends, all of it, and nothing else.
pub proof fn trimming_takes_white_space_at_the_ends(s: Seq<char>)
    ensures
        exists|from: int, to: int|
            #[trigger] trims_to(s, whites(), from, to) && trimmed(s) == s.subrange(from, to),
{
    let drop = whites();
    let (from, to) = lemma_trim_start(s);
    assert(trims_to(s, drop, from, to));
}

proof fn lemma_trim_start(s: Seq<char>) -> (ends: (int, int))
    ensures
        trims_to(s, whites(), ends.0, ends.1),
        trimmed(s) == s.subrange(ends.0, ends.1),
    decreases s.len(),
{
    let drop = whites();
    if s.len() > 0 && is_white(s.first()) {
        let rest = s.drop_first();
        let (from, to) = lemma_trim_start(rest);
        assert forall|i: int| 0 <= i < from + 1 implies drop(#[trigger] s[i]) by {
            if i > 0 {
                assert(s[i] == rest[i - 1]);
            }
        }
        assert forall|i: int| to + 1 <= i < s.len() implies drop(#[trigger] s[i]) by {
            assert(s[i] == rest[i - 1]);
        }
        if from < to {
            assert(rest[from] == s[from + 1] && rest[to - 1] == s[to]);
        }
        assert(rest.subrange(from, to) =~= s.subrange(from + 1, to + 1));
        (from + 1, to + 1)
    } else {
        let to = lemma_trim_end(s);
        if 0 < to {
            assert(s[0] == s.first());
        }
        (0, to)
    }
}

proof fn lemma_trim_end(s: Seq<char>) -> (to: int)
    ensures
        0 <= to <= s.len(),
        trimmed_end(s) == s.subrange(0, to),
        forall|i: int| to <= i < s.len() ==> is_white(#[trigger] s[i]),
        0 < to ==> !is_white(s[to - 1]),
    decreases s.len(),
{
    if s.len() > 0 && is_white(s.last()) {
        let init = s.drop_last();
        let to = lemma_trim_end(init);
        assert forall|i: int| to <= i < s.len() implies is_white(#[trigger] s[i]) by {
            if i < init.len() {
                assert(s[i] == init[i]);
            }
        }
        if 0 < to {
            assert(init[to - 1] == s[to - 1]);
        }
        assert(init.subrange(0, to) =~= s.subrange(0, to));
        to
    } else {
        assert(s.subrange(0, s.len() as int) =~= s);
        s.len() as int
    }
}

/// Taking a character away at both ends takes all of it there, and nothing else.
pub proof fn trimming_takes_the_character_at_the_ends(s: Seq<char>, c: char)
    ensures
        exists|from: int, to: int|
            #[trigger] trims_to(s, only(c), from, to) && without_trailing(without_leading(s, c), c) == s.subrange(
                from,
                to,
            ),
{
    let (from, to) = lemma_strip_start(s, c);
    assert(trims_to(s, only(c), from, to));
}

proof fn lemma_strip_start(s: Seq<char>, c: char) -> (ends: (int, int))
    ensures
        trims_to(s, only(c), ends.0, ends.1),
        without_trailing(without_leading(s, c), c) == s.subrange(ends.0, ends.1),
    decreases s.len(),
{
    let drop = only(c);
    if s.len() > 0 && s.first() == c {
        let rest = s.drop_first();
        let (from, to) = lemma_strip_start(rest, c);
        assert forall|i: int| 0 <= i < from + 1 implies drop(#[trigger] s[i]) by {
            if i > 0 {
                assert(s[i] == rest[i - 1]);
            }
        }
        assert forall|i: int| to + 1 <= i < s.len() implies drop(#[trigger] s[i]) by {
            assert(s[i] == rest[i - 1]);
        }
        if from < to {
            assert(rest[from] == s[from + 1] && rest[to - 1] == s[to]);
        }
        assert(rest.subrange(from, to) =~= s.subrange(from + 1, to + 1));
        (from + 1, to + 1)
    } else {
        let to = lemma_strip_end(s, c);
        if 0 < to {
            assert(s[0] == s.first());
        }
        (0, to)
    }
}

proof fn lemma_strip_end(s: Seq<char>, c: char) -> (to: int)
    ensures
        0 <= to <= s.len(),
        without_trailing(s, c) == s.subrange(0, to),
        forall|i: int| to <= i < s.len() ==> #[trigger] s[i] == c,
        0 < to ==> s[to - 1] != c,
    decreases s.len(),
{
    if s.len() > 0 && s.last() == c {
        let init = s.drop_last();
        let to = lemma_strip_end(init, c);
        assert forall|i: int| to <= i < s.len() implies #[trigger] s[i] == c by {
            if i < init.len() {
                assert(s[i] == init[i]);
            }
        }
        if 0 < to {
            assert(init[to - 1] == s[to - 1]);
        }
        assert(init.subrange(0, to) =~= s.subrange(0, to));
        to
    } else {
        assert(s.subrange(0, s.len() as int) =~= s);
        s.len() as int
    }
}

/// The pieces of a text, joined by the separator, are the text again, and no
/// piece holds the separator.
pub proof fn pieces_join_to_the_text(s: Seq<char>, sep: char)
    ensures
        pieces(s, sep).len() > 0,
        joined(pieces(s, sep), seq![sep]) == s,
        forall|i: int| 0 <= i < pieces(s, sep).len() ==> !(#[trigger] pieces(s, sep)[i]).contains(sep),
    decreases s.len(),
{
    lemma_pieces_some(s, sep);
    lemma_pieces_clean(s, sep);
    if s.len() == 0 {
        assert(s =~= Seq::empty());
    } else {
        let init = s.drop_last();
        let before = pieces(init, sep);
        pieces_join_to_the_text(init, sep);
        let now = pieces(s, sep);
        assert(init.push(s.last()) =~= s);
        if s.last() == sep {
            assert(now.drop_last() =~= before);
            assert(joined(now, seq![sep]) =~= init + seq![sep] + Seq::<char>::empty());
            assert(init + seq![sep] + Seq::<char>::empty() =~= s);
        } else {
            assert(now.drop_last() =~= before.drop_last());
            if before.len() > 1 {
                let head = joined(before.drop_last(), seq![sep]);
                assert(head + seq![sep] + before.last().push(s.last()) =~= (head + seq![sep] + before.last()).push(s.last()));
            } else {
                assert(before[0] == init);
                assert(now[0] == init.push(s.last()));
            }
        }
    }
}

/// Where a piece stands in the text: behind a separator or at the start, and in
/// front of the next separator or at the end.
proof fn lemma_piece_at(s: Seq<char>, sep: char, k: int) -> (at: int)
    requires
        0 <= k < pieces(s, sep).len(),
    ensures
        0 <= at <= at + pieces(s, sep)[k].len() <= s.len(),
        s.subrange(at, at + pieces(s, sep)[k].len()) == pieces(s, sep)[k],
        at == 0 || s[at - 1] == sep,
        k < pieces(s, sep).len() - 1 ==> at + pieces(s, sep)[k].len() < s.len() && s[at + pieces(s, sep)[k].len()] == sep,
        k == pieces(s, sep).len() - 1 ==> at + pieces(s, sep)[k].len() == s.len(),
    decreases s.len(),
{
    if s.len() == 0 {
        assert(s.subrange(0, 0) =~= Seq::empty());
        0
    } else {
        let init = s.drop_last();
        let before = pieces(init, sep);
        lemma_pieces_some(init, sep);
        if s.last() == sep && k == before.len() {
            assert(s.subrange(s.len() as int, s.len() as int) =~= Seq::empty());
            s.len() as int
        } else {
            let at = lemma_piece_at(init, sep, k);
            let p = before[k];
            assert(s.subrange(at, at + p.len()) =~= init.subrange(at, at + p.len()));
            if s.last() != sep && k == before.len() - 1 {
                assert(pieces(s, sep)[k] == p.push(s.last()));
                assert(s.subrange(at, at + p.len() + 1) =~= p.push(s.last()));
            } else {
                assert(pieces(s, sep)[k] == p);
            }
            at
        }
    }
}

/// The pieces of a text are what stands between neighbouring separators, or
/// between a separator and an end of the text.
pub proof fn pieces_stand_between_separators(s: Seq<char>, sep: char, piece: Seq<char>)
    requires
        !piece.contains(sep),
    ensures
        pieces(s, sep).contains(piece) <==> exists|at: int|
            0 <= at <= s.len() - piece.len() && #[trigger] s.subrange(at, at + piece.len()) == piece && (at == 0 || s[at - 1]
                == sep) && (at + piece.len() == s.len() || s[at + piece.len()] == sep),
{
    if pieces(s, sep).contains(piece) {
        let k = choose|k: int| 0 <= k < pieces(s, sep).len() && pieces(s, sep)[k] == piece;
        let at = lemma_piece_at(s, sep, k);
        assert(s.subrange(at, at + piece.len()) == piece);
    }
    if exists|at: int|
        0 <= at <= s.len() - piece.len() && #[trigger] s.subrange(at, at + piece.len()) == piece && (at == 0 || s[at - 1]
            == sep) && (at + piece.len() == s.len() || s[at + piece.len()] == sep) {
        let at = choose|at: int|
            0 <= at <= s.len() - piece.len() && #[trigger] s.subrange(at, at + piece.len()) == piece && (at == 0 || s[at
                - 1] == sep) && (at + piece.len() == s.len() || s[at + piece.len()] == sep);
        let end = at + piece.len();
        lemma_pieces_whole(piece, sep);
        let tail = s.skip(at);
        // The piece and what follows it.
        if end == s.len() {
            assert(tail =~= piece);
            assert(pieces(tail, sep)[0] == piece);
        } else {
            let rest = s.skip(end + 1);
            assert(tail =~= piece.push(sep) + rest) by {
                assert forall|i: int| 0 <= i < piece.len() implies tail[i] == piece[i] by {
                    assert(s.subrange(at, end)[i] == s[at + i]);
                }
            }
            lemma_pieces_join(piece, rest, sep);
            assert(pieces(tail, sep)[0] == piece);
        }
        lemma_pieces_some(tail, sep);
        if at == 0 {
            assert(tail =~= s);
        } else {
            let head = s.take(at - 1);
            assert(s =~= head.push(sep) + tail);
            lemma_pieces_join(head, tail, sep);
            assert(pieces(s, sep)[pieces(head, sep).len() as int] == piece);
        }
    }
}

/// What follows a complete line is a line of its own; a line loses the newline
/// that ends it and one carriage return in front of that newline, and nothing
/// else. A last line may go without the newline.
pub proof fn a_newline_ends_a_line(before: Seq<char>, line: Seq<char>)
    requires
        before.len() > 0 ==> before.last() == '\n',
        !line.contains('\n'),
    ensures
        lines_of(Seq::empty()).len() == 0,
        lines_of(before + line + seq!['\n']) == lines_of(before).push(
            if line.len() > 0 && line.last() == '\r' {
                line.drop_last()
            } else {
                line
            },
        ),
        line.len() > 0 ==> lines_of(before + line) == lines_of(before).push(line),
{
    let f = |l: Seq<char>| chomped(l);
    let empty = Seq::<char>::empty();
    assert(pieces(empty, '\n').drop_last().map_values(f) =~= Seq::empty());
    lemma_pieces_whole(line, '\n');
    assert(before + line + seq!['\n'] =~= before + line.push('\n'));
    let ended = before + line.push('\n');
    assert(line.push('\n').drop_last() =~= line);
    assert(pieces(line.push('\n'), '\n') == seq![line].push(empty));
    if before.len() == 0 {
        assert(ended =~= line.push('\n'));
        assert(before + line =~= line);
        assert(before =~= empty);
        assert(seq![line].push(empty).drop_last() =~= seq![line]);
        assert(seq![line].drop_last().map_values(f) =~= Seq::empty());
        assert(lines_of(ended) =~= lines_of(before).push(chomped(line)));
        if line.len() > 0 {
            assert(lines_of(before + line) =~= lines_of(before).push(line));
        }
    } else {
        let init = before.drop_last();
        assert(init.push('\n') =~= before);
        let p = pieces(init, '\n');
        lemma_pieces_join(init, line.push('\n'), '\n');
        lemma_pieces_join(init, line, '\n');
        assert(pieces(ended, '\n') =~= p.push(line).push(empty));
        assert(pieces(before + line, '\n') =~= p.push(line));
        assert(p.push(line).push(empty).drop_last() =~= p.push(line));
        assert(p.push(line).drop_last() =~= p);
        assert(pieces(before, '\n') == p.push(empty));
        assert(p.push(empty).drop_last() =~= p);
        assert(p.push(line).map_values(f) =~= p.map_values(f).push(chomped(line)));
        assert(lines_of(ended) =~= lines_of(before).push(chomped(line)));
    }
}

/// White space separates fields, and nothing else does.
pub proof fn white_space_separates_fields(a: Seq<char>, c: char, b: Seq<char>)
    requires
        is_white(c),
    ensures
        fields_of(a + seq![c] + b) == fields_of(a) + fields_of(b),
        fields_of(Seq::empty()).len() == 0,
        a.len() > 0 && (forall|i: int| 0 <= i < a.len() ==> !is_white(#[trigger] a[i])) ==> fields_of(a) == seq![a],
    decreases b.len(),
{
    if a.len() > 0 && (forall|i: int| 0 <= i < a.len() ==> !is_white(#[trigger] a[i])) {
        lemma_one_field(a);
        assert(fields_of(a) =~= seq![a]);
    }
    lemma_fields_after(a, c, b);
    assert(fields_of(a + seq![c] + b) =~= fields_of(a) + fields_of(b));
}

proof fn lemma_one_field(a: Seq<char>)
    requires
        forall|i: int| 0 <= i < a.len() ==> !is_white(#[trigger] a[i]),
    ensures
        fields_open(a) == (Seq::<Seq<char>>::empty(), a),
    decreases a.len(),
{
    if a.len() > 0 {
        let init = a.drop_last();
        assert forall|i: int| 0 <= i < init.len() implies !is_white(#[trigger] init[i]) by {
            assert(init[i] == a[i]);
        }
        lemma_one_field(init);
        assert(!is_white(a[a.len() - 1]));
        assert(init.push(a.last()) =~= a);
    } else {
        assert(a =~= Seq::empty());
    }
}

proof fn lemma_fields_after(a: Seq<char>, c: char, b: Seq<char>)
    requires
        is_white(c),
    ensures
        fields_open(a + seq![c] + b) == (fields_of(a) + fields_open(b).0, fields_open(b).1),
    decreases b.len(),
{
    let whole = a + seq![c] + b;
    if b.len() == 0 {
        assert(whole =~= a.push(c));
        assert(a.push(c).drop_last() =~= a);
        assert(fields_of(a) + Seq::<Seq<char>>::empty() =~= fields_of(a));
    } else {
        let init = b.drop_last();
        lemma_fields_after(a, c, init);
        assert(whole.drop_last() =~= a + seq![c] + init);
        assert(whole.last() == b.last());
        let (done, open) = fields_open(init);
        assert((fields_of(a) + done).push(open) =~= fields_of(a) + done.push(open));
    }
}

/// What a digit stands for.
pub open spec fn digit_value(c: char) -> int {
    if '0' <= c <= '9' {
        c as int - '0' as int
    } else {
        c as int - 'a' as int + 10
    }
}

/// What a row of digits stands for.
pub open spec fn number_of(digits: Seq<char>, base: int) -> int
    decreases digits.len(),
{
    if digits.len() == 0 {
        0
    } else {
        number_of(digits.drop_last(), base) * base + digit_value(digits.last())
    }
}

/// A digit is a figure, or a small letter for ten and above.
proof fn lemma_digit(d: int)
    requires
        0 <= d < 16,
    ensures
        digit_value(digit(d)) == d,
        d < 10 ==> '0' <= digit(d) <= '9',
        d >= 10 ==> 'a' <= digit(d) <= 'f',
        d > 0 ==> digit(d) != '0',
{
    reveal_strlit("0123456789abcdef");
}

/// The decimal digits of a number stand for that number, are figures, and start
/// with a zero only for zero.
pub proof fn decimals_stand_for_the_number(n: nat)
    ensures
        number_of(decimal(n), 10) == n,
        decimal(n).len() > 0,
        forall|i: int| 0 <= i < decimal(n).len() ==> '0' <= #[trigger] decimal(n)[i] <= '9',
        n > 0 ==> decimal(n)[0] != '0',
        n < 10 ==> decimal(n).len() == 1,
    decreases n,
{
    let s = decimal(n);
    if n < 10 {
        lemma_digit(n as int);
        assert(s.drop_last() =~= Seq::empty());
        assert(number_of(s.drop_last(), 10) == 0);
    } else {
        decimals_stand_for_the_number(n / 10);
        lemma_digit((n % 10) as int);
        assert(s.drop_last() =~= decimal(n / 10));
    }
}

/// A negative number has a minus sign in front of its digits, any other number
/// its digits alone.
pub proof fn signed_decimals_stand_for_the_number(n: int)
    ensures
        n >= 0 ==> number_of(signed_decimal(n), 10) == n && '0' <= signed_decimal(n)[0] <= '9',
        n < 0 ==> signed_decimal(n)[0] == '-' && number_of(signed_decimal(n).skip(1), 10) == -n && '1'
            <= signed_decimal(n)[1] <= '9',
{
    if n < 0 {
        decimals_stand_for_the_number((-n) as nat);
        assert(signed_decimal(n).skip(1) =~= decimal((-n) as nat));
    } else {
        decimals_stand_for_the_number(n as nat);
    }
}

/// The last digits of a number are as many as asked for, and stand for what is
/// left of the number when the higher ones are dropped.
pub proof fn low_digits_stand_for_the_rest(n: nat, base: nat, width: nat)
    requires
        2 <= base <= 16,
    ensures
        low_digits(n, base, width).len() == width,
        number_of(low_digits(n, base, width), base as int) == n as int % vstd::arithmetic::power::pow(base as int, width),
        forall|i: int|
            0 <= i < width ==> ('0' <= #[trigger] low_digits(n, base, width)[i] <= '9' || (base > 10 && 'a' <= low_digits(
                n,
                base,
                width,
            )[i] <= 'f')),
    decreases width,
{
    reveal(vstd::arithmetic::power::pow);
    if width > 0 {
        let s = low_digits(n, base, width);
        let rest = low_digits(n / base, base, (width - 1) as nat);
        low_digits_stand_for_the_rest(n / base, base, (width - 1) as nat);
        let d = (n % base) as int;
        assert(0 <= d < base) by {
            vstd::arithmetic::div_mod::lemma_mod_bound(n as int, base as int);
        }
        lemma_digit(d);
        assert(s.drop_last() =~= rest);
        let p = vstd::arithmetic::power::pow(base as int, (width - 1) as nat);
        vstd::arithmetic::power::lemma_pow_positive(base as int, (width - 1) as nat);
        vstd::arithmetic::div_mod::lemma_mod_breakdown(n as int, base as int, p);
        vstd::arithmetic::mul::lemma_mul_is_commutative(base as int, (n as int / base as int) % p);
        assert(number_of(s, base as int) == number_of(rest, base as int) * base + d);
        assert forall|i: int| 0 <= i < width implies ('0' <= #[trigger] s[i] <= '9' || (base > 10 && 'a'
            <= s[i] <= 'f')) by {
            if i < rest.len() {
                assert(s[i] == rest[i]);
            }
        }
    }
}

/// The first separator parts a text in two; without a separator there are no
/// two parts.
pub proof fn the_first_separator_parts_the_text(s: Seq<char>, sep: char)
    ensures
        match split_first(s, sep) {
            Some((head, tail)) => s == head + seq![sep] + tail && !head.contains(sep),
            None => !s.contains(sep),
        },
{
    lemma_split_first_parts(s, sep);
    if s.contains(sep) {
        let at = lemma_first_occurrence(s, sep);
        lemma_split_first(s, sep, at);
    }
}

proof fn lemma_first_occurrence(s: Seq<char>, sep: char) -> (at: int)
    requires
        s.contains(sep),
    ensures
        0 <= at < s.len(),
        s[at] == sep,
        forall|k: int| 0 <= k < at ==> s[k] != sep,
    decreases s.len(),
{
    if s[0] == sep {
        0
    } else {
        let rest = s.drop_first();
        let i = choose|i: int| 0 <= i < s.len() && s[i] == sep;
        assert(rest[i - 1] == sep);
        let at = lemma_first_occurrence(rest, sep);
        assert forall|k: int| 0 <= k < at + 1 implies s[k] != sep by {
            if k > 0 {
                assert(s[k] == rest[k - 1]);
            }
        }
        at + 1
    }
}

/// The views of a list of strings are the views of its strings, in order.
pub proof fn texts_are_the_views(v: Seq<String>)
    ensures
        texts(v).len() == v.len(),
        forall|i: int| 0 <= i < v.len() ==> #[trigger] texts(v)[i] == v[i]@,
{
}

} // verus!
