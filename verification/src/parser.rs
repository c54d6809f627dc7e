//! The quote-aware command-line parser.
//!
//! Words are separated by spaces.  A single or double quote opens a quoted
//! stretch that the same quote character closes; inside it spaces and the
//! other quote character are ordinary characters.  Quotes themselves are not
//! part of the words, and a pair of quotes makes a word even when nothing
//! stands between them.
use vstd::prelude::*;

use crate::error::ShellError;
use crate::text::{push_char, string_of};

verus! {

/// Where the parser stands after a prefix of the input.
#[verifier::ext_equal]
pub struct LexState {
    /// The words completed so far.
    pub words: Seq<Seq<char>>,
    /// The word being read.
    pub buf: Seq<char>,
    /// The quote character of the quoted stretch being read, if any.
    pub opened: Option<char>,
    /// Whether the word being read has held a quoted stretch.
    pub has_quotes: bool,
}

pub open spec fn lex_start() -> LexState {
    LexState { words: Seq::empty(), buf: Seq::empty(), opened: None, has_quotes: false }
}

pub open spec fn is_quote(c: char) -> bool {
    c == '"' || c == '\''
}

/// The effect of one input character.
pub open spec fn lex_step(st: LexState, c: char) -> LexState {
    if c == ' ' {
        if st.opened is Some {
            LexState { buf: st.buf.push(c), ..st }
        } else if st.buf.len() > 0 || st.has_quotes {
            LexState { words: st.words.push(st.buf), buf: Seq::empty(), has_quotes: false, ..st }
        } else {
            st
        }
    } else if is_quote(c) {
        match st.opened {
            None => LexState { opened: Some(c), has_quotes: true, ..st },
            Some(q) => if q == c {
                LexState { opened: None, ..st }
            } else {
                LexState { buf: st.buf.push(c), ..st }
            },
        }
    } else {
        LexState { buf: st.buf.push(c), ..st }
    }
}

/// Where the parser stands after reading all of `s`.
pub open spec fn lex(s: Seq<char>) -> LexState
    decreases s.len(),
{
    if s.len() == 0 {
        lex_start()
    } else {
        lex_step(lex(s.drop_last()), s.last())
    }
}

/// The words of a command line, or `None` when a quote is left open.
pub open spec fn words(s: Seq<char>) -> Option<Seq<Seq<char>>> {
    let st = lex(s);
    if st.opened is Some {
        None
    } else if st.buf.len() > 0 || st.has_quotes {
        Some(st.words.push(st.buf))
    } else {
        Some(st.words)
    }
}

/// The views of a list of strings.
pub open spec fn string_views(v: Seq<String>) -> Seq<Seq<char>> {
    v.map_values(|s: String| s@)
}

/// Splits a command line into its words.
pub fn tokenize(inp: &str) -> (r: Result<Vec<String>, ShellError>)
    ensures
        match words(inp@) {
            None => r matches Err(ShellError::One(e)) && e@ == ("osh"@, "Unclosed quote"@),
            Some(ws) => r matches Ok(v) && string_views(v@) == ws,
        },
{
    let mut parts: Vec<String> = Vec::new();
    let mut buf: Vec<char> = Vec::new();
    let mut opened: Option<char> = None;
    let mut has_quotes = false;

    for ch in it: inp.chars()
        invariant
            it.seq() == inp@,
            ({
                let st = lex(inp@.take(it.index() as int));
                &&& string_views(parts@) == st.words
                &&& buf@ == st.buf
                &&& opened == st.opened
                &&& has_quotes == st.has_quotes
            }),
    {
        proof {
            let pre = inp@.take(it.index() as int);
            assert(inp@.take(it.index() + 1).drop_last() =~= pre);
        }
        if ch == ' ' {
            if opened.is_some() {
                buf.push(ch);
            } else if buf.len() > 0 || has_quotes {
                let ghost before = parts@;
                let w = string_of(buf.as_slice());
                parts.push(w);
                buf = Vec::new();
                has_quotes = false;
                proof {
                    assert(string_views(parts@) =~= string_views(before).push(w@));
                }
            }
        } else if ch == '"' || ch == '\'' {
            match opened {
                None => {
                    opened = Some(ch);
                    has_quotes = true;
                },
                Some(q) => {
                    if q == ch {
                        opened = None;
                    } else {
                        buf.push(ch);
                    }
                },
            }
        } else {
            buf.push(ch);
        }
    }
    proof {
        assert(inp@.take(inp@.len() as int) =~= inp@);
    }
    if opened.is_some() {
        return Err(ShellError::one("osh", "Unclosed quote"));
    }
    if buf.len() > 0 || has_quotes {
        let ghost before = parts@;
        let w = string_of(buf.as_slice());
        parts.push(w);
        proof {
            assert(string_views(parts@) =~= string_views(before).push(w@));
        }
    }

    Ok(parts)
}

/// Splits a command line into the command and its arguments.
pub fn parse(inp: &str) -> (r: Result<(String, Vec<String>), ShellError>)
    requires
        words(inp@) matches Some(ws) ==> ws.len() > 0,
    ensures
        match words(inp@) {
            None => r matches Err(ShellError::One(e)) && e@ == ("osh"@, "Unclosed quote"@),
            Some(ws) => r matches Ok((cmd, args)) && cmd@ == ws[0] && string_views(args@)
                == ws.drop_first(),
        },
{
    let mut parts = tokenize(inp)?;
    let ghost all = parts@;
    let cmd = parts.remove(0);
    proof {
        assert(string_views(parts@) =~= string_views(all).drop_first());
    }
    Ok((cmd, parts))
}

/// Where the parser stands after reading `s`, starting from `st`.
pub open spec fn lex_from(st: LexState, s: Seq<char>) -> LexState
    decreases s.len(),
{
    if s.len() == 0 {
        st
    } else {
        lex_step(lex_from(st, s.drop_last()), s.last())
    }
}

proof fn lemma_lex_concat(p: Seq<char>, q: Seq<char>)
    ensures
        lex(p + q) == lex_from(lex(p), q),
    decreases q.len(),
{
    if q.len() == 0 {
        assert(p + q =~= p);
    } else {
        lemma_lex_concat(p, q.drop_last());
        assert((p + q).drop_last() =~= p + q.drop_last());
    }
}

/// Inside a quoted stretch, characters other than its quote are kept as they are.
proof fn lemma_lex_quoted(st: LexState, w: Seq<char>, q: char)
    requires
        st.opened == Some(q),
        !w.contains(q),
    ensures
        lex_from(st, w) == (LexState { buf: st.buf + w, ..st }),
    decreases w.len(),
{
    if w.len() == 0 {
        assert(lex_from(st, w) =~= (LexState { buf: st.buf + w, ..st }));
    } else {
        assert(!w.drop_last().contains(q)) by {
            if w.drop_last().contains(q) {
                let k = choose|k: int| 0 <= k < w.drop_last().len() && w.drop_last()[k] == q;
                assert(w[k] == q);
            }
        };
        lemma_lex_quoted(st, w.drop_last(), q);
        assert(w[w.len() - 1] != q);
        assert((st.buf + w.drop_last()).push(w.last()) =~= st.buf + w);
        assert(lex_from(st, w) =~= (LexState { buf: st.buf + w, ..st }));
    }
}

/// Outside quotes, characters other than spaces and quotes are kept as they are.
proof fn lemma_lex_plain(st: LexState, w: Seq<char>)
    requires
        st.opened is None,
        forall|i: int| 0 <= i < w.len() ==> w[i] != ' ' && !is_quote(#[trigger] w[i]),
    ensures
        lex_from(st, w) == (LexState { buf: st.buf + w, ..st }),
    decreases w.len(),
{
    if w.len() == 0 {
        assert(lex_from(st, w) =~= (LexState { buf: st.buf + w, ..st }));
    } else {
        lemma_lex_plain(st, w.drop_last());
        assert(!is_quote(w[w.len() - 1]));
        assert((st.buf + w.drop_last()).push(w.last()) =~= st.buf + w);
        assert(lex_from(st, w) =~= (LexState { buf: st.buf + w, ..st }));
    }
}

/// `w` between double quotes.
pub open spec fn double_quoted(w: Seq<char>) -> Seq<char> {
    seq!['"'] + w + seq!['"']
}

/// The words written one after the other, each between double quotes,
/// separated by single spaces.
pub open spec fn join_quoted(ws: Seq<Seq<char>>) -> Seq<char>
    decreases ws.len(),
{
    if ws.len() == 0 {
        Seq::empty()
    } else if ws.len() == 1 {
        double_quoted(ws[0])
    } else {
        join_quoted(ws.drop_last()) + seq![' '] + double_quoted(ws.last())
    }
}

/// The words written one after the other, separated by single spaces.
pub open spec fn join_plain(ws: Seq<Seq<char>>) -> Seq<char>
    decreases ws.len(),
{
    if ws.len() == 0 {
        Seq::empty()
    } else if ws.len() == 1 {
        ws[0]
    } else {
        join_plain(ws.drop_last()) + seq![' '] + ws.last()
    }
}

proof fn lemma_lex_from_one(st: LexState, c: char)
    ensures
        lex_from(st, seq![c]) == lex_step(st, c),
{
    assert(seq![c].drop_last() =~= Seq::<char>::empty());
    assert(lex_from(st, Seq::<char>::empty()) == st);
    assert(seq![c].last() == c);
}

proof fn lemma_lex_join_quoted(ws: Seq<Seq<char>>)
    requires
        ws.len() > 0,
        forall|i: int| 0 <= i < ws.len() ==> !(#[trigger] ws[i]).contains('"'),
    ensures
        lex(join_quoted(ws)) == (LexState {
            words: ws.drop_last(),
            buf: ws.last(),
            opened: None,
            has_quotes: true,
        }),
    decreases ws.len(),
{
    let w = ws.last();
    assert(!w.contains('"'));
    let prefix = if ws.len() == 1 { Seq::<char>::empty() } else { join_quoted(ws.drop_last()) + seq![' '] };
    assert(join_quoted(ws) =~= prefix + seq!['"'] + w + seq!['"']);
    // the state before the last word's opening quote: no word being read
    let st0 = lex(prefix);
    if ws.len() == 1 {
        assert(st0 == lex_start());
        assert(ws.drop_last() =~= Seq::<Seq<char>>::empty());
        assert(st0 =~= (LexState { words: ws.drop_last(), buf: Seq::empty(), opened: None, has_quotes: false }));
    } else {
        let d = ws.drop_last();
        assert forall|i: int| 0 <= i < d.len() implies !(#[trigger] d[i]).contains('"') by {
            assert(d[i] == ws[i]);
        };
        lemma_lex_join_quoted(d);
        lemma_lex_concat(join_quoted(d), seq![' ']);
        lemma_lex_from_one(lex(join_quoted(d)), ' ');
        assert(d.drop_last().push(d.last()) =~= d);
        assert(st0 =~= (LexState { words: ws.drop_last(), buf: Seq::empty(), opened: None, has_quotes: false }));
    }
    let st1 = lex_step(st0, '"');
    lemma_lex_concat(prefix, seq!['"']);
    lemma_lex_from_one(st0, '"');
    assert(lex(prefix + seq!['"']) == st1);
    lemma_lex_concat(prefix + seq!['"'], w);
    lemma_lex_quoted(st1, w, '"');
    let st2 = lex(prefix + seq!['"'] + w);
    assert(st1.buf + w =~= w);
    lemma_lex_concat(prefix + seq!['"'] + w, seq!['"']);
    lemma_lex_from_one(st2, '"');
    assert(lex(join_quoted(ws)) =~= (LexState {
        words: ws.drop_last(),
        buf: ws.last(),
        opened: None,
        has_quotes: true,
    }));
}

/// Quoting round trip: writing words between double quotes, separated by
/// spaces, and parsing the line gives back exactly those words, whatever
/// spaces or single quotes they hold and even when they are empty.
pub proof fn law_quoted_words_round_trip(ws: Seq<Seq<char>>)
    requires
        forall|i: int| 0 <= i < ws.len() ==> !(#[trigger] ws[i]).contains('"'),
    ensures
        words(join_quoted(ws)) == Some(ws),
{
    if ws.len() == 0 {
        assert(lex(Seq::<char>::empty()) == lex_start());
    } else {
        lemma_lex_join_quoted(ws);
        assert(ws.drop_last().push(ws.last()) =~= ws);
    }
}

proof fn lemma_lex_join_plain(ws: Seq<Seq<char>>)
    requires
        ws.len() > 0,
        forall|i: int| 0 <= i < ws.len() ==> (#[trigger] ws[i]).len() > 0,
        forall|i: int, j: int|
            0 <= i < ws.len() && 0 <= j < ws[i].len() ==> (#[trigger] ws[i][j]) != ' '
                && !is_quote(ws[i][j]),
    ensures
        lex(join_plain(ws)) == (LexState {
            words: ws.drop_last(),
            buf: ws.last(),
            opened: None,
            has_quotes: false,
        }),
    decreases ws.len(),
{
    let w = ws.last();
    assert forall|j: int| 0 <= j < w.len() implies w[j] != ' ' && !is_quote(#[trigger] w[j]) by {
        assert(ws[ws.len() - 1][j] == w[j]);
    };
    let prefix = if ws.len() == 1 { Seq::<char>::empty() } else { join_plain(ws.drop_last()) + seq![' '] };
    assert(join_plain(ws) =~= prefix + w);
    let st0 = lex(prefix);
    if ws.len() == 1 {
        assert(st0 == lex_start());
        assert(ws.drop_last() =~= Seq::<Seq<char>>::empty());
        assert(st0 =~= (LexState { words: ws.drop_last(), buf: Seq::empty(), opened: None, has_quotes: false }));
    } else {
        let d = ws.drop_last();
        assert forall|i: int| 0 <= i < d.len() implies (#[trigger] d[i]).len() > 0 by {
            assert(d[i] == ws[i]);
        };
        assert forall|i: int, j: int|
            0 <= i < d.len() && 0 <= j < d[i].len() implies (#[trigger] d[i][j]) != ' '
                && !is_quote(d[i][j]) by {
            assert(d[i] == ws[i]);
        };
        lemma_lex_join_plain(d);
        assert(d[d.len() - 1].len() > 0);
        lemma_lex_concat(join_plain(d), seq![' ']);
        lemma_lex_from_one(lex(join_plain(d)), ' ');
        assert(d.drop_last().push(d.last()) =~= d);
        assert(st0 =~= (LexState { words: ws.drop_last(), buf: Seq::empty(), opened: None, has_quotes: false }));
    }
    lemma_lex_concat(prefix, w);
    lemma_lex_plain(st0, w);
    assert(st0.buf + w =~= w);
    assert(lex(join_plain(ws)) =~= (LexState {
        words: ws.drop_last(),
        buf: ws.last(),
        opened: None,
        has_quotes: false,
    }));
}

/// Plain round trip: nonempty words without spaces or quotes, written one
/// after the other with single spaces between them, parse back to the same
/// words.
pub proof fn law_plain_words_round_trip(ws: Seq<Seq<char>>)
    requires
        forall|i: int| 0 <= i < ws.len() ==> (#[trigger] ws[i]).len() > 0,
        forall|i: int, j: int|
            0 <= i < ws.len() && 0 <= j < ws[i].len() ==> (#[trigger] ws[i][j]) != ' '
                && !is_quote(ws[i][j]),
    ensures
        words(join_plain(ws)) == Some(ws),
{
    if ws.len() == 0 {
        assert(lex(Seq::<char>::empty()) == lex_start());
    } else {
        lemma_lex_join_plain(ws);
        assert(ws[ws.len() - 1].len() > 0);
        assert(ws.drop_last().push(ws.last()) =~= ws);
    }
}

/// A command with a quoted argument: a nonempty command word without spaces
/// or quotes, a space, and any text without double quotes between double
/// quotes parse to exactly that command and that text (spaces, single quotes
/// and the empty text included).
pub proof fn law_command_with_quoted_argument(c: Seq<char>, a: Seq<char>)
    requires
        c.len() > 0,
        forall|i: int| 0 <= i < c.len() ==> c[i] != ' ' && !is_quote(#[trigger] c[i]),
        !a.contains('"'),
    ensures
        words(c + seq![' '] + double_quoted(a)) == Some(seq![c, a]),
{
    let cs = seq![c];
    assert forall|i: int| 0 <= i < cs.len() implies (#[trigger] cs[i]).len() > 0 by {
        assert(cs[i] == c);
    };
    assert forall|i: int, j: int|
        0 <= i < cs.len() && 0 <= j < cs[i].len() implies (#[trigger] cs[i][j]) != ' ' && !is_quote(cs[i][j]) by {
        assert(cs[i] == c);
    };
    lemma_lex_join_plain(cs);
    assert(join_plain(cs) == c);
    assert(cs.drop_last() =~= Seq::<Seq<char>>::empty());
    let p0 = c + seq![' '];
    lemma_lex_concat(c, seq![' ']);
    lemma_lex_from_one(lex(c), ' ');
    let st0 = lex(p0);
    assert(st0 =~= (LexState { words: seq![c], buf: Seq::empty(), opened: None, has_quotes: false }));
    let p1 = p0 + seq!['"'];
    lemma_lex_concat(p0, seq!['"']);
    lemma_lex_from_one(st0, '"');
    let st1 = lex(p1);
    assert(st1 == lex_step(st0, '"'));
    lemma_lex_concat(p1, a);
    lemma_lex_quoted(st1, a, '"');
    let p2 = p1 + a;
    let st2 = lex(p2);
    assert(st1.buf + a =~= a);
    lemma_lex_concat(p2, seq!['"']);
    lemma_lex_from_one(st2, '"');
    assert(c + seq![' '] + double_quoted(a) =~= p2 + seq!['"']);
    assert(lex(p2 + seq!['"']) =~= (LexState { words: seq![c], buf: a, opened: None, has_quotes: true }));
    assert(seq![c].push(a) =~= seq![c, a]);
}

/// After an unquoted space nothing is pending: the word before it (if any)
/// is finished and no quote is open.
proof fn lemma_lex_after_space(s: Seq<char>)
    requires
        lex(s).opened is None,
    ensures
        lex(s + seq![' ']).buf.len() == 0,
        !lex(s + seq![' ']).has_quotes,
        lex(s + seq![' ']).opened is None,
        lex(s + seq![' ']).words == (if lex(s).buf.len() > 0 || lex(s).has_quotes {
            lex(s).words.push(lex(s).buf)
        } else {
            lex(s).words
        }),
{
    lemma_lex_concat(s, seq![' ']);
    lemma_lex_from_one(lex(s), ' ');
}

/// Spaces only separate: outside quotes, a second space where there is one
/// changes no word, and a space at the end of a line adds none; so runs of
/// unquoted spaces never make empty words.
pub proof fn law_extra_spaces_change_nothing(s: Seq<char>, t: Seq<char>)
    requires
        lex(s).opened is None,
    ensures
        words(s + seq![' ', ' '] + t) == words(s + seq![' '] + t),
        words(s + seq![' ']) == words(s),
{
    let one = s + seq![' '];
    let two = s + seq![' ', ' '];
    lemma_lex_after_space(s);
    lemma_lex_after_space(one);
    assert(two =~= one + seq![' ']);
    assert(lex(two) == lex(one));
    lemma_lex_concat(one, t);
    lemma_lex_concat(two, t);
    assert(two + t =~= s + seq![' ', ' '] + t);
    assert(one + t =~= s + seq![' '] + t);
}

/// An empty word needs quotes: a line without quote characters gives only
/// nonempty words.
pub proof fn law_unquoted_words_nonempty(s: Seq<char>)
    requires
        forall|i: int| 0 <= i < s.len() ==> !is_quote(#[trigger] s[i]),
    ensures
        words(s) matches Some(ws) && forall|k: int| 0 <= k < ws.len() ==> (#[trigger] ws[k]).len() > 0,
{
    lemma_lex_unquoted(s);
}

/// Reading a line without quote characters: no quote opens, no word is
/// marked as quoted, and every finished word is nonempty.
proof fn lemma_lex_unquoted(s: Seq<char>)
    requires
        forall|i: int| 0 <= i < s.len() ==> !is_quote(#[trigger] s[i]),
    ensures
        lex(s).opened is None,
        !lex(s).has_quotes,
        forall|k: int| 0 <= k < lex(s).words.len() ==> (#[trigger] lex(s).words[k]).len() > 0,
    decreases s.len(),
{
    if s.len() > 0 {
        let d = s.drop_last();
        assert forall|i: int| 0 <= i < d.len() implies !is_quote(#[trigger] d[i]) by {
            assert(d[i] == s[i]);
        };
        lemma_lex_unquoted(d);
        assert(!is_quote(s[s.len() - 1]));
        let st = lex(d);
        assert forall|k: int| 0 <= k < lex(s).words.len() implies (#[trigger] lex(s).words[k]).len() > 0 by {
            if k < st.words.len() {
                assert(lex(s).words[k] == st.words[k]);
            }
        };
    }
}

} // verus!
