//! Interactive sessions opened in a separate terminal emulator: the shell
//! command line for `pelagos run --tty --interactive`, the quoting it needs,
//! the AppleScript that hands it to Terminal.app or iTerm, and the choice of
//! terminal.  Spawning the terminal is left to the application.

use vstd::prelude::*;

use crate::paths::{has_suffix, which};
use crate::text::{
    flag_pairs, join, join_strings, owned, push_arg, push_str, replace_char, replace_char_with,
    same_text, text_option, views,
};

verus! {

// ---------------------------------------------------------------------------
// Shell quoting
// ---------------------------------------------------------------------------

/// What stands for a `'` inside single quotes: close the quotes, an escaped
/// quote, reopen the quotes (`'\''`).
pub open spec fn quote_escape() -> Seq<char> {
    seq!['\'', '\\', '\'', '\'']
}

/// `s` in single quotes, each embedded `'` written as `'\''`.
pub open spec fn shell_quoted(s: Seq<char>) -> Seq<char> {
    seq!['\''] + replace_char(s, '\'', quote_escape()) + seq!['\'']
}

/// Single-quote a shell argument, escaping any embedded single quotes.
pub fn shell_quote(s: &str) -> (r: String)
    ensures
        r@ == shell_quoted(s@),
{
    let mut r = owned("'");
    let inner = replace_char_with(s, '\'', "'\\''");
    proof {
        reveal_strlit("'");
        reveal_strlit("'\\''");
        assert("'\\''"@ =~= quote_escape());
    }
    push_str(&mut r, inner.as_str());
    push_str(&mut r, "'");
    assert(r@ =~= shell_quoted(s@));
    r
}

/// Characters that end a shell word or are interpreted when unquoted.
pub open spec fn sh_special(c: char) -> bool {
    c == ' ' || c == '\t' || c == '\n' || c == '|' || c == '&' || c == ';' || c == '<' || c == '>'
        || c == '(' || c == ')' || c == '$' || c == '`' || c == '"' || c == '*' || c == '?' || c
        == '[' || c == '#' || c == '~' || c == '=' || c == '%'
}

/// `c` in front of a result.
pub open spec fn cons_opt(c: char, o: Option<Seq<char>>) -> Option<Seq<char>> {
    match o {
        Some(t) => Some(seq![c] + t),
        None => None,
    }
}

/// `s` in front of a result.
pub open spec fn prepend_opt(s: Seq<char>, o: Option<Seq<char>>) -> Option<Seq<char>> {
    match o {
        Some(t) => Some(s + t),
        None => None,
    }
}

/// The value a POSIX shell gives a single word made of single-quoted
/// parts, backslash-escaped characters and plain characters (`quoted`:
/// inside single quotes).  `None` when the word is unterminated or holds an
/// unquoted character that would end the word or be interpreted.
pub open spec fn sh_word(w: Seq<char>, quoted: bool) -> Option<Seq<char>>
    decreases w.len(),
{
    if w.len() == 0 {
        if quoted {
            None
        } else {
            Some(Seq::empty())
        }
    } else if quoted {
        if w[0] == '\'' {
            sh_word(w.skip(1), false)
        } else {
            cons_opt(w[0], sh_word(w.skip(1), true))
        }
    } else if w[0] == '\'' {
        sh_word(w.skip(1), true)
    } else if w[0] == '\\' {
        if w.len() >= 2 && w[1] != '\n' {
            cons_opt(w[1], sh_word(w.skip(2), false))
        } else {
            None
        }
    } else if sh_special(w[0]) {
        None
    } else {
        cons_opt(w[0], sh_word(w.skip(1), false))
    }
}

/// Inside quotes, the escaped text reads back as the input, whatever
/// follows it.
proof fn lemma_sh_word_escaped(s: Seq<char>, t: Seq<char>)
    ensures
        sh_word(replace_char(s, '\'', quote_escape()) + t, true) == prepend_opt(
            s,
            sh_word(t, true),
        ),
    decreases s.len(),
{
    if s.len() == 0 {
        assert(replace_char(s, '\'', quote_escape()) + t =~= t);
        match sh_word(t, true) {
            Some(x) => {
                assert(s + x =~= x);
            },
            None => {},
        }
    } else {
        let p = s.drop_last();
        let c = s.last();
        let piece = if c == '\'' {
            quote_escape()
        } else {
            seq![c]
        };
        assert(replace_char(s, '\'', quote_escape()) + t =~= replace_char(p, '\'', quote_escape())
            + (piece + t));
        lemma_sh_word_escaped(p, piece + t);
        let w = piece + t;
        if c == '\'' {
            let w1 = w.skip(1);
            let w2 = w1.skip(2);
            assert(w[0] == '\'');
            assert(w1[0] == '\\' && w1[1] == '\'' && w1.len() >= 2);
            assert(w2 =~= seq!['\''] + t);
            assert(w2[0] == '\'');
            assert(w2.skip(1) =~= t);
            assert(sh_word(w2, false) == sh_word(t, true));
            assert(sh_word(w1, false) == cons_opt('\'', sh_word(w2, false)));
            assert(sh_word(w, true) == sh_word(w1, false));
            assert(sh_word(w, true) == cons_opt('\'', sh_word(t, true)));
        } else {
            assert(w[0] == c);
            assert(w.skip(1) =~= t);
            assert(sh_word(w, true) == cons_opt(c, sh_word(t, true)));
        }
        match sh_word(t, true) {
            Some(x) => {
                assert(p + (seq![c] + x) =~= s + x);
            },
            None => {},
        }
    }
}

/// Quoting law: a quoted argument is one shell word whose value is exactly
/// the argument itself, whatever characters it holds.
pub proof fn lemma_shell_quote_round_trip(s: Seq<char>)
    ensures
        sh_word(shell_quoted(s), false) == Some(s),
{
    let w = shell_quoted(s);
    let inner = replace_char(s, '\'', quote_escape());
    assert(w[0] == '\'');
    assert(w.skip(1) =~= inner + seq!['\'']);
    lemma_sh_word_escaped(s, seq!['\'']);
    let q = seq!['\''];
    assert(q[0] == '\'');
    assert(q.skip(1) =~= Seq::<char>::empty());
    assert(sh_word(q.skip(1), false) == Some(Seq::<char>::empty()));
    assert(sh_word(q, true) == Some(Seq::<char>::empty()));
    assert(s + Seq::<char>::empty() =~= s);
}

// ---------------------------------------------------------------------------
// AppleScript string escaping
// ---------------------------------------------------------------------------

/// `s` with each `\` written `\\` and then each `"` written `\"`.
pub open spec fn applescript_escaped(s: Seq<char>) -> Seq<char> {
    replace_char(replace_char(s, '\\', seq!['\\', '\\']), '"', seq!['\\', '"'])
}

/// Escape a string for use inside an AppleScript string literal.
pub fn escape_applescript(s: &str) -> (r: String)
    ensures
        r@ == applescript_escaped(s@),
{
    let a = replace_char_with(s, '\\', "\\\\");
    let r = replace_char_with(a.as_str(), '"', "\\\"");
    proof {
        reveal_strlit("\\\\");
        reveal_strlit("\\\"");
        assert("\\\\"@ =~= seq!['\\', '\\']);
        assert("\\\""@ =~= seq!['\\', '"']);
    }
    r
}

/// The text an AppleScript string literal's contents stand for: `\\` and
/// `\"` are a backslash and a quote; `None` when an unescaped `"` would end
/// the literal early or a backslash starts another escape.
pub open spec fn applescript_contents(w: Seq<char>) -> Option<Seq<char>>
    decreases w.len(),
{
    if w.len() == 0 {
        Some(Seq::empty())
    } else if w[0] == '"' {
        None
    } else if w[0] == '\\' {
        if w.len() >= 2 && (w[1] == '\\' || w[1] == '"') {
            cons_opt(w[1], applescript_contents(w.skip(2)))
        } else {
            None
        }
    } else {
        cons_opt(w[0], applescript_contents(w.skip(1)))
    }
}

/// What one character becomes when escaped.
pub open spec fn applescript_piece(c: char) -> Seq<char> {
    if c == '\\' {
        seq!['\\', '\\']
    } else if c == '"' {
        seq!['\\', '"']
    } else {
        seq![c]
    }
}

/// `replace_char` of a concatenation.
proof fn lemma_replace_concat(a: Seq<char>, b: Seq<char>, from: char, to: Seq<char>)
    ensures
        replace_char(a + b, from, to) == replace_char(a, from, to) + replace_char(b, from, to),
    decreases b.len(),
{
    if b.len() == 0 {
        assert(a + b =~= a);
        assert(replace_char(a, from, to) + replace_char(b, from, to) =~= replace_char(a, from, to));
    } else {
        assert((a + b).drop_last() =~= a + b.drop_last());
        lemma_replace_concat(a, b.drop_last(), from, to);
        let piece = if b.last() == from {
            to
        } else {
            seq![b.last()]
        };
        assert(replace_char(a, from, to) + replace_char(b.drop_last(), from, to) + piece
            =~= replace_char(a, from, to) + (replace_char(b.drop_last(), from, to) + piece));
    }
}

/// `replace_char` of a sequence of one or two characters.
proof fn lemma_replace_small(x: char, y: char, from: char, to: Seq<char>)
    ensures
        replace_char(seq![x], from, to) == (if x == from {
            to
        } else {
            seq![x]
        }),
        replace_char(seq![x, y], from, to) == replace_char(seq![x], from, to) + (if y == from {
            to
        } else {
            seq![y]
        }),
{
    assert(seq![x].drop_last() =~= Seq::<char>::empty());
    assert(seq![x, y].drop_last() =~= seq![x]);
    assert(replace_char(Seq::<char>::empty(), from, to) == Seq::<char>::empty());
    let p = if x == from {
        to
    } else {
        seq![x]
    };
    assert(Seq::<char>::empty() + p =~= p);
}

/// The two-pass escaping, one character at a time.
proof fn lemma_applescript_escaped_step(s: Seq<char>)
    requires
        s.len() > 0,
    ensures
        applescript_escaped(s) == applescript_escaped(s.drop_last()) + applescript_piece(s.last()),
{
    let p = s.drop_last();
    let c = s.last();
    assert(s =~= p + seq![c]);
    lemma_replace_concat(p, seq![c], '\\', seq!['\\', '\\']);
    lemma_replace_small(c, c, '\\', seq!['\\', '\\']);
    let once = if c == '\\' {
        seq!['\\', '\\']
    } else {
        seq![c]
    };
    lemma_replace_concat(replace_char(p, '\\', seq!['\\', '\\']), once, '"', seq!['\\', '"']);
    if c == '\\' {
        lemma_replace_small('\\', '\\', '"', seq!['\\', '"']);
    } else {
        lemma_replace_small(c, c, '"', seq!['\\', '"']);
    }
}

/// Inside a literal, the escaped text reads back as the input, whatever
/// follows it.
proof fn lemma_applescript_contents_escaped(s: Seq<char>, t: Seq<char>)
    ensures
        applescript_contents(applescript_escaped(s) + t) == prepend_opt(
            s,
            applescript_contents(t),
        ),
    decreases s.len(),
{
    if s.len() == 0 {
        assert(applescript_escaped(s) =~= Seq::<char>::empty());
        assert(applescript_escaped(s) + t =~= t);
        match applescript_contents(t) {
            Some(x) => {
                assert(s + x =~= x);
            },
            None => {},
        }
    } else {
        let p = s.drop_last();
        let c = s.last();
        lemma_applescript_escaped_step(s);
        let piece = applescript_piece(c);
        assert(applescript_escaped(s) + t =~= applescript_escaped(p) + (piece + t));
        lemma_applescript_contents_escaped(p, piece + t);
        let w = piece + t;
        if c == '\\' || c == '"' {
            assert(w[0] == '\\' && w[1] == c && w.len() >= 2);
            assert(w.skip(2) =~= t);
        } else {
            assert(w[0] == c);
            assert(w.skip(1) =~= t);
        }
        assert(applescript_contents(w) == cons_opt(c, applescript_contents(t)));
        match applescript_contents(t) {
            Some(x) => {
                assert(p + (seq![c] + x) =~= s + x);
            },
            None => {},
        }
    }
}

/// Escaping law: the escaped text, placed in an AppleScript string literal,
/// stands for exactly the unescaped text and cannot end the literal early.
pub proof fn lemma_applescript_round_trip(s: Seq<char>)
    ensures
        applescript_contents(applescript_escaped(s)) == Some(s),
{
    lemma_applescript_contents_escaped(s, Seq::empty());
    assert(applescript_escaped(s) + Seq::<char>::empty() =~= applescript_escaped(s));
    assert(s + Seq::<char>::empty() =~= s);
}

// ---------------------------------------------------------------------------
// The command line and its launchers
// ---------------------------------------------------------------------------

/// Each argument quoted.
pub open spec fn quoted_all(v: Seq<Seq<char>>) -> Seq<Seq<char>> {
    v.map_values(|a: Seq<char>| shell_quoted(a))
}

/// The words of `pelagos run --tty --interactive`: the binary, name, ports
/// (each `-p`, then `-n pasta` when there are any), volumes (`-v`), image
/// and its command, every value quoted.
pub open spec fn interactive_words(
    pelagos: Seq<char>,
    image: Seq<char>,
    name: Option<Seq<char>>,
    args: Seq<Seq<char>>,
    ports: Seq<Seq<char>>,
    volumes: Seq<Seq<char>>,
) -> Seq<Seq<char>> {
    seq![shell_quoted(pelagos), "run"@, "--tty"@, "--interactive"@] + match name {
        Some(n) => seq!["--name"@, shell_quoted(n)],
        None => Seq::empty(),
    } + flag_pairs("-p"@, quoted_all(ports)) + if ports.len() > 0 {
        seq!["-n"@, "pasta"@]
    } else {
        Seq::empty()
    } + flag_pairs("-v"@, quoted_all(volumes)) + seq![shell_quoted(image)] + quoted_all(args)
}

/// Appends each value quoted.
fn push_quoted_all(v: &mut Vec<String>, vals: &Vec<String>)
    ensures
        views(final(v)@) == views(old(v)@) + quoted_all(views(vals@)),
{
    let mut i: usize = 0;
    assert(views(v@) =~= views(old(v)@) + quoted_all(views(vals@).take(0)));
    while i < vals.len()
        invariant
            0 <= i <= vals.len(),
            views(v@) == views(old(v)@) + quoted_all(views(vals@).take(i as int)),
        decreases vals.len() - i,
    {
        let q = shell_quote(vals[i].as_str());
        push_arg(v, q.as_str());
        assert(views(v@) =~= views(old(v)@) + quoted_all(views(vals@).take(i + 1)));
        i = i + 1;
    }
    assert(views(vals@).take(vals.len() as int) == views(vals@));
}

/// Appends `flag v` for each value, the value quoted.
fn push_quoted_pairs(v: &mut Vec<String>, flag: &str, vals: &Vec<String>)
    ensures
        views(final(v)@) == views(old(v)@) + flag_pairs(flag@, quoted_all(views(vals@))),
{
    let mut i: usize = 0;
    assert(views(v@) =~= views(old(v)@) + flag_pairs(flag@, quoted_all(views(vals@).take(0))));
    while i < vals.len()
        invariant
            0 <= i <= vals.len(),
            views(v@) == views(old(v)@) + flag_pairs(flag@, quoted_all(views(vals@).take(i as int))),
        decreases vals.len() - i,
    {
        assert(quoted_all(views(vals@).take(i + 1)).drop_last() =~= quoted_all(
            views(vals@).take(i as int),
        ));
        let q = shell_quote(vals[i].as_str());
        push_arg(v, flag);
        push_arg(v, q.as_str());
        assert(views(v@) =~= views(old(v)@) + flag_pairs(flag@, quoted_all(views(vals@).take(i + 1))));
        i = i + 1;
    }
    assert(views(vals@).take(vals.len() as int) == views(vals@));
}

/// The shell command line that runs `pelagos run --tty --interactive` for
/// an image, its words joined by single spaces.
pub fn interactive_command(
    pelagos: &str,
    image: &str,
    name: Option<&str>,
    args: &Vec<String>,
    ports: &Vec<String>,
    volumes: &Vec<String>,
) -> (cmd: String)
    ensures
        cmd@ == join(
            interactive_words(
                pelagos@,
                image@,
                match name {
                    Some(n) => Some(n@),
                    None => None,
                },
                views(args@),
                views(ports@),
                views(volumes@),
            ),
            " "@,
        ),
{
    let mut parts: Vec<String> = Vec::new();
    let qp = shell_quote(pelagos);
    push_arg(&mut parts, qp.as_str());
    push_arg(&mut parts, "run");
    push_arg(&mut parts, "--tty");
    push_arg(&mut parts, "--interactive");
    if let Some(n) = name {
        push_arg(&mut parts, "--name");
        let qn = shell_quote(n);
        push_arg(&mut parts, qn.as_str());
    }
    push_quoted_pairs(&mut parts, "-p", ports);
    if ports.len() > 0 {
        push_arg(&mut parts, "-n");
        push_arg(&mut parts, "pasta");
    }
    push_quoted_pairs(&mut parts, "-v", volumes);
    let qi = shell_quote(image);
    push_arg(&mut parts, qi.as_str());
    push_quoted_all(&mut parts, args);
    assert(views(parts@) =~= interactive_words(
        pelagos@,
        image@,
        match name {
            Some(n) => Some(n@),
            None => None,
        },
        views(args@),
        views(ports@),
        views(volumes@),
    ));
    join_strings(&parts, " ")
}

// ---------------------------------------------------------------------------
// The command line read back into words
// ---------------------------------------------------------------------------

/// An unquoted blank ends the word being read.
pub open spec fn sh_blank(c: char) -> bool {
    c == ' ' || c == '\t'
}

/// A character that stands for itself in an unquoted word.
pub open spec fn plain_char(c: char) -> bool {
    !sh_special(c) && c != '\'' && c != '\\'
}

/// A word made of plain characters only.
pub open spec fn plain_word(w: Seq<char>) -> bool {
    forall|i: int| 0 <= i < w.len() ==> #[trigger] plain_char(w[i])
}

/// `v` in front of the words of a result.
pub open spec fn prepend_word(v: Seq<char>, o: Option<Seq<Seq<char>>>) -> Option<Seq<Seq<char>>> {
    match o {
        Some(ws) => Some(seq![v] + ws),
        None => None,
    }
}

/// The words a POSIX shell reads from a simple command line of blanks,
/// single-quoted parts, backslash-escaped characters and plain characters
/// (`quoted`: inside single quotes; `started`: a word has begun, and a
/// quote begins one, so `''` is an empty word; `current`: its value so
/// far).  `None` when the line ends inside quotes or holds an unquoted
/// character that the shell would interpret.
pub open spec fn sh_words_from(
    line: Seq<char>,
    quoted: bool,
    started: bool,
    current: Seq<char>,
) -> Option<Seq<Seq<char>>>
    decreases line.len(),
{
    if line.len() == 0 {
        if quoted {
            None
        } else if started {
            Some(seq![current])
        } else {
            Some(Seq::empty())
        }
    } else if quoted {
        if line[0] == '\'' {
            sh_words_from(line.skip(1), false, true, current)
        } else {
            sh_words_from(line.skip(1), true, true, current.push(line[0]))
        }
    } else if line[0] == '\'' {
        sh_words_from(line.skip(1), true, true, current)
    } else if line[0] == '\\' {
        if line.len() >= 2 && line[1] != '\n' {
            sh_words_from(line.skip(2), false, true, current.push(line[1]))
        } else {
            None
        }
    } else if sh_blank(line[0]) {
        if started {
            prepend_word(current, sh_words_from(line.skip(1), false, false, Seq::empty()))
        } else {
            sh_words_from(line.skip(1), false, false, current)
        }
    } else if sh_special(line[0]) {
        None
    } else {
        sh_words_from(line.skip(1), false, true, current.push(line[0]))
    }
}

/// The words a POSIX shell reads from a command line.
pub open spec fn sh_words(line: Seq<char>) -> Option<Seq<Seq<char>>> {
    sh_words_from(line, false, false, Seq::empty())
}

/// `w` is read as the single word `v`, alone or before a space and more.
pub open spec fn word_reads(w: Seq<char>, v: Seq<char>) -> bool {
    &&& sh_words(w) == Some(seq![v])
    &&& forall|more: Seq<char>| #[trigger]
        sh_words(w + seq![' '] + more) == prepend_word(v, sh_words(more))
}

/// Each word of `ws` is read as the value at the same place in `vs`.
pub open spec fn all_read(ws: Seq<Seq<char>>, vs: Seq<Seq<char>>) -> bool {
    ws.len() == vs.len() && forall|i: int| 0 <= i < ws.len() ==> #[trigger] word_reads(ws[i], vs[i])
}

/// Inside quotes, escaped text adds the text itself to the word.
proof fn lemma_words_escaped(s: Seq<char>, t: Seq<char>, cur: Seq<char>)
    ensures
        sh_words_from(replace_char(s, '\'', quote_escape()) + t, true, true, cur) == sh_words_from(
            t,
            true,
            true,
            cur + s,
        ),
    decreases s.len(),
{
    if s.len() == 0 {
        assert(replace_char(s, '\'', quote_escape()) + t =~= t);
        assert(cur + s =~= cur);
    } else {
        let p = s.drop_last();
        let c = s.last();
        let piece = if c == '\'' {
            quote_escape()
        } else {
            seq![c]
        };
        assert(replace_char(s, '\'', quote_escape()) + t =~= replace_char(p, '\'', quote_escape())
            + (piece + t));
        lemma_words_escaped(p, piece + t, cur);
        let w = piece + t;
        let x = cur + p;
        if c == '\'' {
            let w1 = w.skip(1);
            let w2 = w1.skip(2);
            assert(w[0] == '\'');
            assert(w1[0] == '\\' && w1[1] == '\'' && w1.len() >= 2);
            assert(w2 =~= seq!['\''] + t);
            assert(w2[0] == '\'');
            assert(w2.skip(1) =~= t);
            assert(sh_words_from(w2, false, true, x.push('\'')) == sh_words_from(
                t,
                true,
                true,
                x.push('\''),
            ));
            assert(sh_words_from(w1, false, true, x) == sh_words_from(
                w2,
                false,
                true,
                x.push('\''),
            ));
            assert(sh_words_from(w, true, true, x) == sh_words_from(w1, false, true, x));
        } else {
            assert(w[0] == c);
            assert(w.skip(1) =~= t);
            assert(sh_words_from(w, true, true, x) == sh_words_from(t, true, true, x.push(c)));
        }
        assert(x.push(c) =~= cur + s);
    }
}

/// A quoted argument followed by more: the word `s` has been read.
proof fn lemma_quoted_then(s: Seq<char>, rest: Seq<char>)
    ensures
        sh_words(shell_quoted(s) + rest) == sh_words_from(rest, false, true, s),
{
    let w = shell_quoted(s) + rest;
    let inner = replace_char(s, '\'', quote_escape());
    let q = seq!['\''] + rest;
    assert(w[0] == '\'');
    assert(w.skip(1) =~= inner + q);
    lemma_words_escaped(s, q, Seq::empty());
    assert(Seq::<char>::empty() + s =~= s);
    assert(q[0] == '\'');
    assert(q.skip(1) =~= rest);
}

/// Plain characters add themselves to the word.
proof fn lemma_plain_then(w: Seq<char>, rest: Seq<char>, started: bool, cur: Seq<char>)
    requires
        plain_word(w),
    ensures
        sh_words_from(w + rest, false, started, cur) == sh_words_from(
            rest,
            false,
            started || w.len() > 0,
            cur + w,
        ),
    decreases w.len(),
{
    if w.len() == 0 {
        assert(w + rest =~= rest);
        assert(cur + w =~= cur);
    } else {
        let x = w + rest;
        assert(plain_char(w[0]));
        assert(x[0] == w[0]);
        assert(x.skip(1) =~= w.skip(1) + rest);
        assert forall|i: int| 0 <= i < w.skip(1).len() implies #[trigger] plain_char(
            w.skip(1)[i],
        ) by {
            assert(plain_char(w[i + 1]));
        }
        lemma_plain_then(w.skip(1), rest, true, cur.push(w[0]));
        assert(cur.push(w[0]) + w.skip(1) =~= cur + w);
    }
}

/// A blank after a word ends it.
proof fn lemma_blank_then(v: Seq<char>, more: Seq<char>)
    ensures
        sh_words_from(seq![' '] + more, false, true, v) == prepend_word(v, sh_words(more)),
{
    let x = seq![' '] + more;
    assert(x[0] == ' ');
    assert(x.skip(1) =~= more);
}

/// A quoted argument is read as the argument, alone or before more words.
proof fn lemma_quoted_reads(s: Seq<char>)
    ensures
        word_reads(shell_quoted(s), s),
{
    lemma_quoted_then(s, Seq::empty());
    assert(shell_quoted(s) + Seq::<char>::empty() =~= shell_quoted(s));
    assert forall|more: Seq<char>| #[trigger]
        sh_words(shell_quoted(s) + seq![' '] + more) == prepend_word(s, sh_words(more)) by {
        lemma_quoted_then(s, seq![' '] + more);
        assert(shell_quoted(s) + seq![' '] + more =~= shell_quoted(s) + (seq![' '] + more));
        lemma_blank_then(s, more);
    }
}

/// A non-empty plain word is read as itself, alone or before more words.
proof fn lemma_plain_reads(w: Seq<char>)
    requires
        plain_word(w),
        w.len() > 0,
    ensures
        word_reads(w, w),
{
    lemma_plain_then(w, Seq::empty(), false, Seq::empty());
    assert(w + Seq::<char>::empty() =~= w);
    assert(Seq::<char>::empty() + w =~= w);
    assert forall|more: Seq<char>| #[trigger]
        sh_words(w + seq![' '] + more) == prepend_word(w, sh_words(more)) by {
        lemma_plain_then(w, seq![' '] + more, false, Seq::empty());
        assert(w + seq![' '] + more =~= w + (seq![' '] + more));
        lemma_blank_then(w, more);
    }
}

/// Joining puts the first part, then the separator, then the rest.
proof fn lemma_join_front(parts: Seq<Seq<char>>, sep: Seq<char>)
    requires
        parts.len() >= 2,
    ensures
        join(parts, sep) == parts[0] + sep + join(parts.skip(1), sep),
    decreases parts.len(),
{
    let dl = parts.drop_last();
    let tail = parts.skip(1);
    if parts.len() == 2 {
        assert(join(dl, sep) == parts[0]);
        assert(join(tail, sep) == parts[1]);
    } else {
        lemma_join_front(dl, sep);
        assert(tail.drop_last() =~= dl.skip(1));
        assert(tail.last() == parts.last());
        assert(join(tail, sep) == join(tail.drop_last(), sep) + sep + tail.last());
        assert(parts[0] + sep + join(dl.skip(1), sep) + sep + parts.last() =~= parts[0] + sep + (
        join(dl.skip(1), sep) + sep + parts.last()));
    }
}

/// Words each read as a value, joined by spaces, are read as those values.
proof fn lemma_join_reads(ws: Seq<Seq<char>>, vs: Seq<Seq<char>>)
    requires
        all_read(ws, vs),
    ensures
        sh_words(join(ws, seq![' '])) == Some(vs),
    decreases ws.len(),
{
    if ws.len() == 0 {
        assert(vs =~= Seq::<Seq<char>>::empty());
    } else if ws.len() == 1 {
        assert(word_reads(ws[0], vs[0]));
        assert(vs =~= seq![vs[0]]);
    } else {
        let sep = seq![' '];
        lemma_join_front(ws, sep);
        assert forall|i: int| 0 <= i < ws.skip(1).len() implies #[trigger] word_reads(
            ws.skip(1)[i],
            vs.skip(1)[i],
        ) by {
            assert(word_reads(ws[i + 1], vs[i + 1]));
        }
        lemma_join_reads(ws.skip(1), vs.skip(1));
        assert(word_reads(ws[0], vs[0]));
        let more = join(ws.skip(1), sep);
        assert(sh_words(ws[0] + sep + more) == prepend_word(vs[0], sh_words(more)));
        assert(seq![vs[0]] + vs.skip(1) =~= vs);
    }
}

/// Two lists that read back join into one.
proof fn lemma_all_read_concat(
    ws1: Seq<Seq<char>>,
    vs1: Seq<Seq<char>>,
    ws2: Seq<Seq<char>>,
    vs2: Seq<Seq<char>>,
)
    requires
        all_read(ws1, vs1),
        all_read(ws2, vs2),
    ensures
        all_read(ws1 + ws2, vs1 + vs2),
{
    assert forall|i: int| 0 <= i < (ws1 + ws2).len() implies #[trigger] word_reads(
        (ws1 + ws2)[i],
        (vs1 + vs2)[i],
    ) by {
        if i < ws1.len() {
            assert(word_reads(ws1[i], vs1[i]));
        } else {
            assert(word_reads(ws2[i - ws1.len()], vs2[i - ws1.len()]));
        }
    }
}

/// Quoted arguments read back as the arguments.
proof fn lemma_quoted_all_read(vs: Seq<Seq<char>>)
    ensures
        all_read(quoted_all(vs), vs),
{
    assert forall|i: int| 0 <= i < quoted_all(vs).len() implies #[trigger] word_reads(
        quoted_all(vs)[i],
        vs[i],
    ) by {
        lemma_quoted_reads(vs[i]);
    }
}

/// `flag 'v'` pairs read back as `flag v` pairs.
proof fn lemma_flag_pairs_read(flag: Seq<char>, vs: Seq<Seq<char>>)
    requires
        plain_word(flag),
        flag.len() > 0,
    ensures
        all_read(flag_pairs(flag, quoted_all(vs)), flag_pairs(flag, vs)),
    decreases vs.len(),
{
    if vs.len() > 0 {
        let q = quoted_all(vs);
        assert(q.drop_last() =~= quoted_all(vs.drop_last()));
        lemma_flag_pairs_read(flag, vs.drop_last());
        lemma_plain_reads(flag);
        lemma_quoted_reads(vs.last());
        let pw = seq![flag, q.last()];
        let pv = seq![flag, vs.last()];
        assert forall|i: int| 0 <= i < pw.len() implies #[trigger] word_reads(pw[i], pv[i]) by {
            if i == 0 {
            } else {
            }
        }
        lemma_all_read_concat(flag_pairs(flag, q.drop_last()), flag_pairs(flag, vs.drop_last()), pw, pv);
    }
}

/// The values a shell reads from the command line of `pelagos run --tty
/// --interactive`: the words of [`interactive_words`] with nothing quoted.
pub open spec fn interactive_values(
    pelagos: Seq<char>,
    image: Seq<char>,
    name: Option<Seq<char>>,
    args: Seq<Seq<char>>,
    ports: Seq<Seq<char>>,
    volumes: Seq<Seq<char>>,
) -> Seq<Seq<char>> {
    seq![pelagos, "run"@, "--tty"@, "--interactive"@] + match name {
        Some(n) => seq!["--name"@, n],
        None => Seq::empty(),
    } + flag_pairs("-p"@, ports) + if ports.len() > 0 {
        seq!["-n"@, "pasta"@]
    } else {
        Seq::empty()
    } + flag_pairs("-v"@, volumes) + seq![image] + args
}

/// The literal words of the command line are plain.
proof fn lemma_literal_words_plain()
    ensures
        plain_word("run"@) && "run"@.len() > 0,
        plain_word("--tty"@) && "--tty"@.len() > 0,
        plain_word("--interactive"@) && "--interactive"@.len() > 0,
        plain_word("--name"@) && "--name"@.len() > 0,
        plain_word("-p"@) && "-p"@.len() > 0,
        plain_word("-n"@) && "-n"@.len() > 0,
        plain_word("pasta"@) && "pasta"@.len() > 0,
        plain_word("-v"@) && "-v"@.len() > 0,
{
    reveal_strlit("run");
    reveal_strlit("--tty");
    reveal_strlit("--interactive");
    reveal_strlit("--name");
    reveal_strlit("-p");
    reveal_strlit("-n");
    reveal_strlit("pasta");
    reveal_strlit("-v");
}

/// Quoting law for the whole line: a shell splits the command line of
/// [`interactive_command`] into exactly the intended words, every value
/// (binary, name, ports, volumes, image, arguments) read back as it was,
/// whatever characters it holds.
pub proof fn lemma_interactive_command_reads_back(
    pelagos: Seq<char>,
    image: Seq<char>,
    name: Option<Seq<char>>,
    args: Seq<Seq<char>>,
    ports: Seq<Seq<char>>,
    volumes: Seq<Seq<char>>,
)
    ensures
        sh_words(join(interactive_words(pelagos, image, name, args, ports, volumes), " "@))
            == Some(interactive_values(pelagos, image, name, args, ports, volumes)),
{
    reveal_strlit(" ");
    assert(" "@ =~= seq![' ']);
    lemma_literal_words_plain();
    lemma_quoted_reads(pelagos);
    lemma_quoted_reads(image);
    lemma_plain_reads("run"@);
    lemma_plain_reads("--tty"@);
    lemma_plain_reads("--interactive"@);
    lemma_plain_reads("--name"@);
    lemma_plain_reads("-n"@);
    lemma_plain_reads("pasta"@);
    let w1 = seq![shell_quoted(pelagos), "run"@, "--tty"@, "--interactive"@];
    let v1 = seq![pelagos, "run"@, "--tty"@, "--interactive"@];
    assert forall|i: int| 0 <= i < w1.len() implies #[trigger] word_reads(w1[i], v1[i]) by {
        if i == 0 {
        } else if i == 1 {
        } else if i == 2 {
        } else {
        }
    }
    let w2: Seq<Seq<char>> = match name {
        Some(n) => seq!["--name"@, shell_quoted(n)],
        None => Seq::empty(),
    };
    let v2: Seq<Seq<char>> = match name {
        Some(n) => seq!["--name"@, n],
        None => Seq::empty(),
    };
    match name {
        Some(n) => {
            lemma_quoted_reads(n);
            assert forall|i: int| 0 <= i < w2.len() implies #[trigger] word_reads(w2[i], v2[i]) by {
                if i == 0 {
                } else {
                }
            }
        },
        None => {},
    }
    lemma_flag_pairs_read("-p"@, ports);
    let w4: Seq<Seq<char>> = if ports.len() > 0 {
        seq!["-n"@, "pasta"@]
    } else {
        Seq::empty()
    };
    assert forall|i: int| 0 <= i < w4.len() implies #[trigger] word_reads(w4[i], w4[i]) by {
        if i == 0 {
        } else {
        }
    }
    lemma_flag_pairs_read("-v"@, volumes);
    let w6 = seq![shell_quoted(image)];
    let v6 = seq![image];
    assert(word_reads(w6[0], v6[0]));
    lemma_quoted_all_read(args);
    let fp = flag_pairs("-p"@, quoted_all(ports));
    let fv = flag_pairs("-v"@, quoted_all(volumes));
    lemma_all_read_concat(w1, v1, w2, v2);
    lemma_all_read_concat(w1 + w2, v1 + v2, fp, flag_pairs("-p"@, ports));
    lemma_all_read_concat(w1 + w2 + fp, v1 + v2 + flag_pairs("-p"@, ports), w4, w4);
    lemma_all_read_concat(
        w1 + w2 + fp + w4,
        v1 + v2 + flag_pairs("-p"@, ports) + w4,
        fv,
        flag_pairs("-v"@, volumes),
    );
    lemma_all_read_concat(
        w1 + w2 + fp + w4 + fv,
        v1 + v2 + flag_pairs("-p"@, ports) + w4 + flag_pairs("-v"@, volumes),
        w6,
        v6,
    );
    lemma_all_read_concat(
        w1 + w2 + fp + w4 + fv + w6,
        v1 + v2 + flag_pairs("-p"@, ports) + w4 + flag_pairs("-v"@, volumes) + v6,
        quoted_all(args),
        args,
    );
    lemma_join_reads(
        interactive_words(pelagos, image, name, args, ports, volumes),
        interactive_values(pelagos, image, name, args, ports, volumes),
    );
}

/// The AppleScript that opens a Terminal.app window running `cmd`.  A `:`
/// line goes first: it answers any single-key prompt a login shell plugin
/// shows at startup, and is a no-op otherwise.
pub open spec fn terminal_script_of(cmd: Seq<char>) -> Seq<char> {
    "tell application \"Terminal\"\n\tdo script (\":\" & linefeed & \""@ + applescript_escaped(cmd)
        + "\")\n\tactivate\nend tell"@
}

/// The AppleScript that opens a Terminal.app window running `cmd`.
pub fn terminal_script(cmd: &str) -> (s: String)
    ensures
        s@ == terminal_script_of(cmd@),
{
    let mut s = owned("tell application \"Terminal\"\n\tdo script (\":\" & linefeed & \"");
    push_str(&mut s, escape_applescript(cmd).as_str());
    push_str(&mut s, "\")\n\tactivate\nend tell");
    s
}

/// The AppleScript that opens an iTerm window running `cmd`.
pub open spec fn iterm_script_of(cmd: Seq<char>) -> Seq<char> {
    "tell application \"iTerm\" to create window with default profile command \""@
        + applescript_escaped(cmd) + "\""@
}

/// The AppleScript that opens an iTerm window running `cmd`.
pub fn iterm_script(cmd: &str) -> (s: String)
    ensures
        s@ == iterm_script_of(cmd@),
{
    let mut s = owned("tell application \"iTerm\" to create window with default profile command \"");
    push_str(&mut s, escape_applescript(cmd).as_str());
    push_str(&mut s, "\"");
    s
}

/// How the command line reaches a terminal.
#[derive(Debug, Clone)]
pub enum TerminalLauncher {
    /// Run `<program> -e sh -c <cmd>`.
    Program(String),
    /// Ask iTerm through AppleScript.
    ITerm,
    /// Ask Terminal.app through AppleScript.
    AppleTerminal,
}

/// The arguments given to a terminal program: `-e sh -c <cmd>`.
pub fn program_args(cmd: &str) -> (r: Vec<String>)
    ensures
        views(r@) == seq!["-e"@, "sh"@, "-c"@, cmd@],
{
    let mut r = Vec::new();
    push_arg(&mut r, "-e");
    push_arg(&mut r, "sh");
    push_arg(&mut r, "-c");
    push_arg(&mut r, cmd);
    r
}

/// The terminal on macOS: `$PELAGOS_TERMINAL` when set; else by
/// `$TERM_PROGRAM`: iTerm through AppleScript; ghostty, kitty and alacritty
/// as programs; Terminal.app for anything else.
pub fn mac_launcher(override_program: Option<String>, term_program: &str) -> (l: TerminalLauncher)
    ensures
        match override_program {
            Some(p) => l matches TerminalLauncher::Program(q) && q@ == p@,
            None => if term_program@ == "iTerm.app"@ {
                l matches TerminalLauncher::ITerm
            } else if term_program@ == "ghostty"@ || term_program@ == "kitty"@ || term_program@
                == "alacritty"@ {
                l matches TerminalLauncher::Program(q) && q@ == term_program@
            } else {
                l matches TerminalLauncher::AppleTerminal
            },
        },
{
    match override_program {
        Some(p) => TerminalLauncher::Program(p),
        None => {
            if same_text(term_program, "iTerm.app") {
                TerminalLauncher::ITerm
            } else if same_text(term_program, "ghostty") || same_text(term_program, "kitty")
                || same_text(term_program, "alacritty") {
                TerminalLauncher::Program(owned(term_program))
            } else {
                TerminalLauncher::AppleTerminal
            }
        },
    }
}

/// The terminal programs tried on Linux, in order.
pub open spec fn linux_terminals() -> Seq<Seq<char>> {
    seq!["x-terminal-emulator"@, "gnome-terminal"@, "xfce4-terminal"@, "xterm"@]
}

/// The terminal programs tried on Linux, in order.
pub fn linux_terminal_candidates() -> (r: Vec<String>)
    ensures
        views(r@) == linux_terminals(),
{
    let mut r = Vec::new();
    push_arg(&mut r, "x-terminal-emulator");
    push_arg(&mut r, "gnome-terminal");
    push_arg(&mut r, "xfce4-terminal");
    push_arg(&mut r, "xterm");
    r
}

/// The first name whose `found` flag is set, in order, if any.
pub open spec fn first_found(names: Seq<Seq<char>>, found: Seq<bool>) -> Option<Seq<char>>
    decreases names.len(),
{
    if names.len() == 0 || found.len() == 0 {
        None
    } else if found[0] {
        Some(names[0])
    } else {
        first_found(names.skip(1), found.skip(1))
    }
}

/// The error when no terminal can be had on Linux.
pub open spec fn no_terminal_message() -> Seq<char> {
    "no terminal emulator found — set $PELAGOS_TERMINAL"@
}

/// The terminal program on Linux, given `$PELAGOS_TERMINAL` and which of
/// [`linux_terminals`] were found on `PATH` (`found[i]` for the `i`-th):
/// the override when set, else the first candidate found, else the error.
pub open spec fn terminal_choice_of(override_program: Option<Seq<char>>, found: Seq<bool>) -> Result<
    Seq<char>,
    Seq<char>,
> {
    match override_program {
        Some(p) => Ok(p),
        None => match first_found(linux_terminals(), found) {
            Some(t) => Ok(t),
            None => Err(no_terminal_message()),
        },
    }
}

/// A launcher result against the program or error it should hold.
pub open spec fn launcher_agrees(
    r: Result<TerminalLauncher, String>,
    s: Result<Seq<char>, Seq<char>>,
) -> bool {
    match (r, s) {
        (Ok(TerminalLauncher::Program(q)), Ok(p)) => q@ == p,
        (Err(m), Err(e)) => m@ == e,
        _ => false,
    }
}

/// The terminal on Linux from `$PELAGOS_TERMINAL` and which candidates a
/// `PATH` search found: the override when set, else the first candidate
/// found in order, else the no-terminal error.
pub fn terminal_choice(override_program: Option<String>, found: &Vec<bool>) -> (r: Result<
    TerminalLauncher,
    String,
>)
    requires
        found.len() == linux_terminals().len(),
    ensures
        launcher_agrees(r, terminal_choice_of(text_option(override_program), found@)),
{
    if let Some(p) = override_program {
        return Ok(TerminalLauncher::Program(p));
    }
    let candidates = linux_terminal_candidates();
    let mut i: usize = 0;
    assert(views(candidates@).len() == candidates@.len());
    assert(linux_terminals().skip(0) =~= linux_terminals());
    assert(found@.skip(0) =~= found@);
    while i < candidates.len()
        invariant
            0 <= i <= candidates.len(),
            views(candidates@) == linux_terminals(),
            candidates.len() == found.len(),
            candidates.len() == linux_terminals().len(),
            override_program is None,
            first_found(linux_terminals(), found@) == first_found(
                linux_terminals().skip(i as int),
                found@.skip(i as int),
            ),
        decreases candidates.len() - i,
    {
        let ghost names = linux_terminals().skip(i as int);
        let ghost f = found@.skip(i as int);
        assert(names[0] == candidates@[i as int]@);
        assert(f[0] == found@[i as int]);
        if found[i] {
            let q = owned(candidates[i].as_str());
            assert(first_found(names, f) == Some(q@));
            return Ok(TerminalLauncher::Program(q));
        }
        assert(names.skip(1) =~= linux_terminals().skip(i + 1));
        assert(f.skip(1) =~= found@.skip(i + 1));
        i = i + 1;
    }
    assert(linux_terminals().skip(i as int).len() == 0);
    Err(owned("no terminal emulator found — set $PELAGOS_TERMINAL"))
}

/// Whether each lookup found something.
pub open spec fn found_flags(lookups: Seq<Option<Seq<char>>>) -> Seq<bool> {
    lookups.map_values(|o: Option<Seq<char>>| o is Some)
}

/// Each lookup that found something found a path ending with the name of
/// the candidate at the same place (so it searched for that candidate).
pub open spec fn lookups_match(names: Seq<Seq<char>>, lookups: Seq<Option<Seq<char>>>) -> bool {
    &&& lookups.len() == names.len()
    &&& forall|i: int|
        0 <= i < lookups.len() ==> (#[trigger] lookups[i] matches Some(p) ==> p.len() > 0
            && has_suffix(p, names[i]))
}

/// The candidate terminal names hold no `/`, so `PATH` is searched for them.
proof fn lemma_terminal_names_plain()
    ensures
        forall|i: int|
            0 <= i < linux_terminals().len() ==> !(#[trigger] linux_terminals()[i]).contains('/'),
{
    reveal_strlit("x-terminal-emulator");
    reveal_strlit("gnome-terminal");
    reveal_strlit("xfce4-terminal");
    reveal_strlit("xterm");
    assert forall|i: int| 0 <= i < linux_terminals().len() implies !(
    #[trigger] linux_terminals()[i]).contains('/') by {
        let t = linux_terminals()[i];
        if t.contains('/') {
            let j = choose|j: int| 0 <= j < t.len() && t[j] == '/';
            assert(t[j] == '/');
        }
    }
}

/// First-found law: the first name whose flag is set, in order, is the one
/// chosen, whatever the flags after it; with no flag set, none is.
pub proof fn lemma_first_found_is_first(names: Seq<Seq<char>>, found: Seq<bool>, i: int)
    requires
        names.len() == found.len(),
        0 <= i < found.len(),
        found[i],
        forall|j: int| 0 <= j < i ==> !#[trigger] found[j],
    ensures
        first_found(names, found) == Some(names[i]),
    decreases i,
{
    if i > 0 {
        assert(!found[0]);
        assert forall|j: int| 0 <= j < i - 1 implies !#[trigger] found.skip(1)[j] by {
            assert(!found[j + 1]);
        }
        lemma_first_found_is_first(names.skip(1), found.skip(1), i - 1);
    }
}

/// With no flag set, no name is chosen.
pub proof fn lemma_first_found_none(names: Seq<Seq<char>>, found: Seq<bool>)
    requires
        names.len() == found.len(),
        forall|j: int| 0 <= j < found.len() ==> !#[trigger] found[j],
    ensures
        first_found(names, found) is None,
    decreases found.len(),
{
    if found.len() > 0 {
        assert(!found[0]);
        assert forall|j: int| 0 <= j < found.len() - 1 implies !#[trigger] found.skip(1)[j] by {
            assert(!found[j + 1]);
        }
        lemma_first_found_none(names.skip(1), found.skip(1));
    }
}

/// The terminal on Linux: `$PELAGOS_TERMINAL` when set; else each
/// candidate is searched for on `PATH` by its own name, in turn (which
/// depends on the environment), until one is found, and the choice is that
/// of [`terminal_choice`] for what the searches found: the first candidate
/// found, or the no-terminal error when none is.
pub fn linux_launcher(override_program: Option<String>) -> (r: Result<TerminalLauncher, String>)
    ensures
        override_program matches Some(p) ==> (r matches Ok(TerminalLauncher::Program(q)) && q@
            == p@),
        exists|found: Seq<bool>|
            found.len() == linux_terminals().len() && launcher_agrees(
                r,
                #[trigger] terminal_choice_of(text_option(override_program), found),
            ),
        exists|lookups: Seq<Option<Seq<char>>>|
            lookups_match(linux_terminals(), lookups) && launcher_agrees(
                r,
                #[trigger] terminal_choice_of(text_option(override_program), found_flags(lookups)),
            ),
{
    if let Some(p) = override_program {
        let ghost found = Seq::new(4, |i: int| false);
        let ghost lookups = Seq::new(4, |i: int| None::<Seq<char>>);
        let r = Ok(TerminalLauncher::Program(p));
        assert(launcher_agrees(r, terminal_choice_of(text_option(Some(p)), found)));
        assert(lookups_match(linux_terminals(), lookups));
        assert(launcher_agrees(r, terminal_choice_of(text_option(Some(p)), found_flags(lookups))));
        return r;
    }
    proof {
        lemma_terminal_names_plain();
    }
    let candidates = linux_terminal_candidates();
    assert(views(candidates@).len() == candidates@.len());
    let mut found: Vec<bool> = Vec::new();
    let ghost mut lookups: Seq<Option<Seq<char>>> = Seq::empty();
    let mut seen = false;
    let mut i: usize = 0;
    while i < candidates.len()
        invariant
            0 <= i <= candidates.len(),
            candidates.len() == linux_terminals().len(),
            views(candidates@) == linux_terminals(),
            forall|j: int|
                0 <= j < linux_terminals().len() ==> !(#[trigger] linux_terminals()[j]).contains(
                    '/',
                ),
            found.len() == i,
            lookups.len() == i,
            found@ == found_flags(lookups),
            forall|j: int|
                0 <= j < i ==> (#[trigger] lookups[j] matches Some(p) ==> p.len() > 0 && has_suffix(
                    p,
                    linux_terminals()[j],
                )),
        decreases candidates.len() - i,
    {
        let looked = if seen {
            None
        } else {
            assert(candidates@[i as int]@ == linux_terminals()[i as int]);
            which(candidates[i].as_str())
        };
        let hit = looked.is_some();
        proof {
            lookups = lookups.push(text_option(looked));
        }
        seen = seen || hit;
        found.push(hit);
        assert(found@ =~= found_flags(lookups));
        i = i + 1;
    }
    assert(lookups_match(linux_terminals(), lookups));
    let r = terminal_choice(None, &found);
    assert(launcher_agrees(r, terminal_choice_of(None, found_flags(lookups))));
    r
}

} // verus!
