//! The interactive side of the shell: the prompt, the line editor's handling
//! of each key, and tab completion.
use vstd::prelude::*;

use crate::commands::{builtin_named, exec, Builtin};
use crate::error::error_text;
use crate::parser::{string_views, tokenize, words};
use crate::path::segment_start;
use crate::text::{chars_of, copy_string, push_char, push_chars, string_of};
use crate::unicode::{is_whitespace, unicode_whitespace};

verus! {

/// The escape sequence that clears the screen and its scroll-back and homes
/// the cursor.
pub open spec fn clear_all() -> Seq<char> {
    "\x1b[2J\x1b[3J\x1b[H"@
}

/// What the shell writes when it starts: the screen-clearing sequence.
pub fn reset() -> (s: String)
    ensures
        s@ == clear_all(),
{
    copy_string("\x1b[2J\x1b[3J\x1b[H")
}

/// The directory part of the prompt: `?` when the current directory is
/// unknown; the current directory with a leading home directory replaced by
/// `~`; else the current directory as it is.
pub open spec fn prompt_dir(cwd: Option<Seq<char>>, home: Option<Seq<char>>) -> Seq<char> {
    match cwd {
        None => "?"@,
        Some(c) => match home {
            Some(h) => if h.is_prefix_of(c) {
                seq!['~'] + c.skip(h.len() as int)
            } else {
                c
            },
            None => c,
        },
    }
}

/// The prompt: the directory part in bold blue, then a green arrow.
pub open spec fn prompt_text(dir: Seq<char>) -> Seq<char> {
    "\x1b[1m\x1b[38;2;97;175;239m"@ + dir + "\x1b[0m \x1b[32m\u{279c}\x1b[0m "@
}

fn starts_with(s: &Vec<char>, prefix: &Vec<char>) -> (r: bool)
    ensures
        r == prefix@.is_prefix_of(s@),
{
    if prefix.len() > s.len() {
        return false;
    }
    let mut i: usize = 0;
    while i < prefix.len()
        invariant
            prefix.len() <= s.len(),
            i <= prefix.len(),
            forall|k: int| 0 <= k < i ==> prefix@[k] == s@[k],
        decreases prefix.len() - i,
    {
        if prefix[i] != s[i] {
            return false;
        }
        i += 1;
    }
    assert(prefix@ =~= s@.take(prefix.len() as int));
    true
}

/// The prompt for the current directory `cwd` and home directory `home`
/// (either unknown when absent).
pub fn prompt(cwd: Option<String>, home: Option<String>) -> (s: String)
    ensures
        s@ == prompt_text(
            prompt_dir(
                match cwd {
                    Some(c) => Some(c@),
                    None => None,
                },
                match home {
                    Some(h) => Some(h@),
                    None => None,
                },
            ),
        ),
{
    let dir = match cwd {
        None => copy_string("?"),
        Some(c) => match home {
            Some(h) => {
                let cs = chars_of(c.as_str());
                let hs = chars_of(h.as_str());
                if starts_with(&cs, &hs) {
                    let mut d = String::new();
                    push_char(&mut d, '~');
                    let rest = vstd::slice::slice_subrange(cs.as_slice(), hs.len(), cs.len());
                    let r = string_of(rest);
                    push_chars(&mut d, r.as_str());
                    assert(d@ =~= seq!['~'] + c@.skip(h@.len() as int));
                    d
                } else {
                    c
                }
            },
            None => c,
        },
    };
    let mut s = copy_string("\x1b[1m\x1b[38;2;97;175;239m");
    push_chars(&mut s, dir.as_str());
    push_chars(&mut s, "\x1b[0m \x1b[32m\u{279c}\x1b[0m ");
    s
}

/// The word being typed at the end of `s`: the characters after its last
/// whitespace character (all of `s` when it has none), so empty when `s`
/// ends in whitespace.
pub open spec fn last_word(s: Seq<char>) -> Seq<char>
    decreases s.len(),
{
    if s.len() == 0 || unicode_whitespace(s.last()) {
        Seq::empty()
    } else {
        last_word(s.drop_last()).push(s.last())
    }
}

/// The word being typed at the end of `buf`: what tab completion completes.
/// After a trailing space it is empty, so completion offers every name.
pub fn get_last_word(buf: &str) -> (w: String)
    ensures
        w@ == last_word(buf@),
{
    let cs = chars_of(buf);
    let end: usize = cs.len();
    let mut start: usize = end;
    proof {
        assert(cs@.take(end as int) =~= buf@);
        assert(cs@.subrange(end as int, end as int) =~= Seq::<char>::empty());
        assert(last_word(buf@) + Seq::<char>::empty() =~= last_word(buf@));
    }
    while start > 0 && !is_whitespace(cs[start - 1])
        invariant
            start <= end,
            end == cs.len(),
            cs@ == buf@,
            last_word(buf@) == last_word(cs@.take(start as int)) + cs@.subrange(start as int, end as int),
        decreases start,
    {
        proof {
            assert(cs@.take(start as int).drop_last() =~= cs@.take(start - 1));
            assert(cs@.subrange(start - 1, end as int) =~= seq![cs@[start - 1]] + cs@.subrange(start as int, end as int));
            assert(last_word(cs@.take(start as int)) == last_word(cs@.take(start - 1)).push(cs@[start - 1]));
            assert(last_word(cs@.take(start - 1)).push(cs@[start - 1]) + cs@.subrange(start as int, end as int)
                =~= last_word(cs@.take(start - 1)) + cs@.subrange(start - 1, end as int));
        }
        start -= 1;
    }
    proof {
        assert(last_word(cs@.take(start as int)) =~= Seq::<char>::empty());
        assert(Seq::<char>::empty() + cs@.subrange(start as int, end as int) =~= cs@.subrange(start as int, end as int));
    }
    string_of(vstd::slice::slice_subrange(cs.as_slice(), start, end))
}

/// The directory tab completion looks in for the word `p`: the part up to
/// and including its last `/`, or `.` when it has none.
pub open spec fn completion_dir(p: Seq<char>) -> Seq<char> {
    if segment_start(p) > 0 {
        p.take(segment_start(p) as int)
    } else {
        "."@
    }
}

/// The candidates for completing the word `p`, given the entries of its
/// directory (name, and whether it is a directory) in the order they were
/// read: each entry whose name begins with the part of `p` after its last
/// `/`, written with the directory part of `p` before it and, for a
/// directory, a `/` after it.
pub open spec fn completions(p: Seq<char>, entries: Seq<(Seq<char>, bool)>) -> Seq<Seq<char>>
    decreases entries.len(),
{
    if entries.len() == 0 {
        Seq::empty()
    } else {
        let rest = completions(p, entries.drop_last());
        let (name, is_dir) = entries.last();
        let ss = segment_start(p) as int;
        if p.skip(ss).is_prefix_of(name) {
            rest.push(p.take(ss) + name + if is_dir { seq!['/'] } else { Seq::empty() })
        } else {
            rest
        }
    }
}

/// The candidate that the entry `e` (name, and whether it is a directory)
/// gives for the word `p`.
pub open spec fn candidate(p: Seq<char>, e: (Seq<char>, bool)) -> Seq<char> {
    p.take(segment_start(p) as int) + e.0 + if e.1 { seq!['/'] } else { Seq::empty() }
}

/// Completion offers every match: each entry whose name begins with the part
/// of the word after its last `/` (a name equal to that part included)
/// gives a candidate, its name after the word's directory part, with a `/`
/// for a directory.
pub proof fn law_completions_offer_every_match(p: Seq<char>, entries: Seq<(Seq<char>, bool)>, j: int)
    requires
        0 <= j < entries.len(),
        p.skip(segment_start(p) as int).is_prefix_of(entries[j].0),
    ensures
        completions(p, entries).contains(candidate(p, entries[j])),
    decreases entries.len(),
{
    let d = entries.drop_last();
    let rest = completions(p, d);
    if j == entries.len() - 1 {
        assert(completions(p, entries) == rest.push(candidate(p, entries[j])));
        assert(completions(p, entries)[rest.len() as int] == candidate(p, entries[j]));
    } else {
        assert(d[j] == entries[j]);
        law_completions_offer_every_match(p, d, j);
        let m = choose|m: int| 0 <= m < rest.len() && rest[m] == candidate(p, entries[j]);
        assert(completions(p, entries)[m] == rest[m]);
    }
}

/// Completion offers nothing else: every candidate is the candidate of an
/// entry whose name begins with the part of the word after its last `/`.
pub proof fn law_completions_only_matches(p: Seq<char>, entries: Seq<(Seq<char>, bool)>, m: int)
    requires
        0 <= m < completions(p, entries).len(),
    ensures
        exists|j: int|
            0 <= j < entries.len() && p.skip(segment_start(p) as int).is_prefix_of(#[trigger] entries[j].0)
                && completions(p, entries)[m] == candidate(p, entries[j]),
    decreases entries.len(),
{
    let d = entries.drop_last();
    let rest = completions(p, d);
    let last = entries.last();
    if p.skip(segment_start(p) as int).is_prefix_of(last.0) && m == rest.len() {
        assert(completions(p, entries)[m] == candidate(p, entries[entries.len() - 1]));
    } else {
        assert(completions(p, entries)[m] == rest[m]);
        law_completions_only_matches(p, d, m);
        let j = choose|j: int|
            0 <= j < d.len() && p.skip(segment_start(p) as int).is_prefix_of(#[trigger] d[j].0)
                && rest[m] == candidate(p, d[j]);
        assert(d[j] == entries[j]);
    }
}

proof fn lemma_segment_start_le(p: Seq<char>)
    ensures
        segment_start(p) <= p.len(),
    decreases p.len(),
{
    if p.len() > 0 && p.last() != '/' {
        lemma_segment_start_le(p.drop_last());
    }
}

/// Finds where the last segment of `p` starts.
fn find_segment_start(p: &Vec<char>) -> (i: usize)
    ensures
        i == segment_start(p@),
{
    let mut i: usize = p.len();
    assert(p@.take(i as int) =~= p@);
    while i > 0 && p[i - 1] != '/'
        invariant
            i <= p.len(),
            segment_start(p@) == segment_start(p@.take(i as int)),
        decreases i,
    {
        proof {
            assert(p@.take(i as int).drop_last() =~= p@.take(i - 1));
        }
        i -= 1;
    }
    proof {
        if i > 0 {
            assert(p@.take(i as int).last() == '/');
        }
    }
    i
}

/// The directory to read for completing the word `p`.
pub fn get_completion_dir(p: &str) -> (d: String)
    ensures
        d@ == completion_dir(p@),
{
    let cs = chars_of(p);
    let ss = find_segment_start(&cs);
    if ss > 0 {
        proof {
            lemma_segment_start_le(p@);
        }
        string_of(vstd::slice::slice_subrange(cs.as_slice(), 0, ss))
    } else {
        copy_string(".")
    }
}

/// The completions of the word `prefix` among the directory's entries.
pub fn find_matches(prefix: &str, entries: &Vec<(String, bool)>) -> (m: Vec<String>)
    ensures
        crate::parser::string_views(m@) == completions(
            prefix@,
            entries@.map_values(|e: (String, bool)| (e.0@, e.1)),
        ),
        forall|i: int| 0 <= i < m.len() ==> prefix@.is_prefix_of(#[trigger] m@[i]@),
{
    let cs = chars_of(prefix);
    let ss = find_segment_start(&cs);
    proof {
        lemma_segment_start_le(prefix@);
    }
    let dir = vstd::slice::slice_subrange(cs.as_slice(), 0, ss);
    let file = vstd::slice::slice_to_vec(vstd::slice::slice_subrange(cs.as_slice(), ss, cs.len()));
    let ghost ev = entries@.map_values(|e: (String, bool)| (e.0@, e.1));
    let mut m: Vec<String> = Vec::new();
    let mut i: usize = 0;
    while i < entries.len()
        invariant
            i <= entries.len(),
            cs@ == prefix@,
            ss == segment_start(prefix@),
            ss <= cs.len(),
            dir@ == prefix@.take(ss as int),
            file@ == prefix@.skip(ss as int),
            ev == entries@.map_values(|e: (String, bool)| (e.0@, e.1)),
            crate::parser::string_views(m@) == completions(prefix@, ev.take(i as int)),
            forall|k: int| 0 <= k < m.len() ==> prefix@.is_prefix_of(#[trigger] m@[k]@),
        decreases entries.len() - i,
    {
        proof {
            assert(ev.take(i + 1).drop_last() =~= ev.take(i as int));
            assert(ev.take(i + 1).last() == (entries@[i as int].0@, entries@[i as int].1));
        }
        let name = chars_of(entries[i].0.as_str());
        if starts_with(&name, &file) {
            let mut full = string_of(dir);
            push_chars(&mut full, entries[i].0.as_str());
            if entries[i].1 {
                push_char(&mut full, '/');
            }
            let ghost before = m@;
            let ghost fv = full@;
            proof {
                let tail = if entries[i as int].1 { seq!['/'] } else { Seq::<char>::empty() };
                assert(full@ =~= prefix@.take(ss as int) + name@ + tail);
                assert(prefix@ =~= prefix@.take(ss as int) + prefix@.skip(ss as int));
                assert(prefix@.is_prefix_of(full@)) by {
                    assert forall|k: int| 0 <= k < prefix@.len() implies prefix@[k] == full@[k] by {
                        if k >= ss {
                            assert(file@[k - ss] == name@[k - ss]);
                        }
                    };
                };
            }
            m.push(full);
            proof {
                assert(crate::parser::string_views(m@) =~= crate::parser::string_views(before).push(fv));
            }
        }
        i += 1;
    }
    proof {
        assert(ev.take(entries.len() as int) =~= ev);
    }
    m
}

/// How far the editor is into an escape sequence (such as an arrow key or
/// the Delete key), whose bytes it drops.
#[derive(Clone, Copy, PartialEq, Eq, Structural, Debug)]
pub enum EscapeState {
    /// Not in an escape sequence.
    Idle,
    /// After `ESC`.
    AfterEscape,
    /// After `ESC [`.
    AfterBracket,
    /// After `ESC [ 3`: one more byte (the `~` of Delete) is dropped.
    AfterDelete,
}

/// The line being edited.
pub struct LineEditor {
    pub buf: String,
    pub escape: EscapeState,
}

/// What the caller does after a key.
pub enum ReadEvent {
    /// Write this text (possibly nothing) and read the next key.
    Output(String),
    /// Tab on a line holding a space: find the completions of this word (the
    /// one being typed at the end of the line, empty after a trailing space)
    /// and hand them to `complete`.
    Complete(String),
    /// The line is over: the line read (`None` at the end of input or on
    /// Ctrl-D), and the text to write.
    Finished(Option<String>, String),
}

/// Whether a byte is a printable ASCII character.
pub open spec fn printable(b: u8) -> bool {
    32 <= b && b < 127
}

/// The buffer and escape state after one key (`None`: the input ended).
pub open spec fn key_step(buf: Seq<char>, esc: EscapeState, key: Option<u8>) -> (Seq<char>, EscapeState) {
    match esc {
        EscapeState::AfterEscape => (buf, if key == Some(0x5bu8) { EscapeState::AfterBracket } else { EscapeState::Idle }),
        EscapeState::AfterBracket => (buf, if key == Some(0x33u8) { EscapeState::AfterDelete } else { EscapeState::Idle }),
        EscapeState::AfterDelete => (buf, EscapeState::Idle),
        EscapeState::Idle => match key {
            None => (buf, esc),
            Some(b) => if b == 0x1bu8 {
                (buf, EscapeState::AfterEscape)
            } else if b == 127u8 {
                (if buf.len() > 0 { buf.drop_last() } else { buf }, esc)
            } else if printable(b) && b != 0x09u8 && b != 0x0au8 && b != 0x0du8 && b != 4u8 {
                (buf.push(b as char), esc)
            } else {
                (buf, esc)
            },
        },
    }
}

/// What the caller is asked to do after a key, given the buffer and escape
/// state before it: Enter (line feed or carriage return) finishes the line
/// and moves to the next terminal line; the end of input and Ctrl-D finish
/// without a line; Backspace erases the last character on screen; Tab asks
/// for completion when the line holds a space; a printable character is
/// echoed; anything else, and every byte of an escape sequence, does nothing.
pub open spec fn key_event(ev: ReadEvent, buf: Seq<char>, esc: EscapeState, key: Option<u8>) -> bool {
    if esc != EscapeState::Idle {
        ev matches ReadEvent::Output(o) && o@.len() == 0
    } else {
        match key {
            None => (ev matches ReadEvent::Finished(None, o) && o@.len() == 0),
            Some(b) => {
            if b == 0x0au8 || b == 0x0du8 {
                ev matches ReadEvent::Finished(Some(l), o) && l@ == buf && o@ == "\r\n"@
            } else if b == 4u8 {
                ev matches ReadEvent::Finished(None, o) && o@.len() == 0
            } else if b == 0x1bu8 {
                ev matches ReadEvent::Output(o) && o@.len() == 0
            } else if b == 127u8 {
                ev matches ReadEvent::Output(o) && o@ == (if buf.len() > 0 { "\x08\x1b[K"@ } else { Seq::empty() })
            } else if b == 0x09u8 {
                if buf.contains(' ') {
                    ev matches ReadEvent::Complete(w) && w@ == last_word(buf)
                } else {
                    ev matches ReadEvent::Output(o) && o@.len() == 0
                }
            } else if printable(b) {
                ev matches ReadEvent::Output(o) && o@ == seq![b as char]
            } else {
                ev matches ReadEvent::Output(o) && o@.len() == 0
            }
            },
        }
    }
}

fn contains_space(cs: &Vec<char>) -> (r: bool)
    ensures
        r == cs@.contains(' '),
{
    let mut i: usize = 0;
    while i < cs.len()
        invariant
            i <= cs.len(),
            forall|k: int| 0 <= k < i ==> cs@[k] != ' ',
        decreases cs.len() - i,
    {
        if cs[i] == ' ' {
            return true;
        }
        i += 1;
    }
    false
}

impl LineEditor {
    /// An empty line.
    pub fn new() -> (ed: Self)
        ensures
            ed.buf@.len() == 0,
            ed.escape == EscapeState::Idle,
    {
        LineEditor { buf: String::new(), escape: EscapeState::Idle }
    }
}

/// Handles one key of the line editor (`None`: the input ended).
pub fn read(ed: &mut LineEditor, key: Option<u8>) -> (ev: ReadEvent)
    ensures
        (final(ed).buf@, final(ed).escape) == key_step(old(ed).buf@, old(ed).escape, key),
        key_event(ev, old(ed).buf@, old(ed).escape, key),
{
    match ed.escape {
        EscapeState::AfterEscape => {
            ed.escape = if key == Some(0x5bu8) { EscapeState::AfterBracket } else { EscapeState::Idle };
            return ReadEvent::Output(String::new());
        },
        EscapeState::AfterBracket => {
            ed.escape = if key == Some(0x33u8) { EscapeState::AfterDelete } else { EscapeState::Idle };
            return ReadEvent::Output(String::new());
        },
        EscapeState::AfterDelete => {
            ed.escape = EscapeState::Idle;
            return ReadEvent::Output(String::new());
        },
        EscapeState::Idle => {},
    }
    let b = match key {
        None => return ReadEvent::Finished(None, String::new()),
        Some(b) => b,
    };
    if b == 0x0a || b == 0x0d {
        let line = copy_string(ed.buf.as_str());
        ReadEvent::Finished(Some(line), copy_string("\r\n"))
    } else if b == 4 {
        ReadEvent::Finished(None, String::new())
    } else if b == 0x1b {
        ed.escape = EscapeState::AfterEscape;
        ReadEvent::Output(String::new())
    } else if b == 127 {
        let mut cs = chars_of(ed.buf.as_str());
        if cs.len() == 0 {
            return ReadEvent::Output(String::new());
        }
        cs.pop();
        ed.buf = string_of(cs.as_slice());
        ReadEvent::Output(copy_string("\x08\x1b[K"))
    } else if b == 0x09 {
        let cs = chars_of(ed.buf.as_str());
        if contains_space(&cs) {
            ReadEvent::Complete(get_last_word(ed.buf.as_str()))
        } else {
            ReadEvent::Output(String::new())
        }
    } else if 32 <= b && b < 127 {
        let c = b as char;
        push_char(&mut ed.buf, c);
        let mut o = String::new();
        push_char(&mut o, c);
        ReadEvent::Output(o)
    } else {
        ReadEvent::Output(String::new())
    }
}

/// The outcome of tab completion.
pub enum Completion {
    /// No candidate: nothing happens.
    Nothing,
    /// One candidate: this text was added to the line; write it.
    Insert(String),
    /// Several candidates: write this list, then the prompt, then the line.
    List(String, String),
}

/// The list of several candidates: an empty line, then each candidate on a
/// line of its own, indented by two spaces.
pub open spec fn candidates_text(ms: Seq<Seq<char>>) -> Seq<char>
    decreases ms.len(),
{
    if ms.len() == 0 {
        seq!['\n']
    } else {
        candidates_text(ms.drop_last()) + "  "@ + ms.last() + seq!['\n']
    }
}

/// Completes the word `word` at the end of the line with the candidates
/// `matches` (each of which begins with `word`): a single candidate is
/// added to the line, several are listed.
pub fn complete(ed: &mut LineEditor, word: &str, matches: Vec<String>) -> (c: Completion)
    requires
        forall|i: int| 0 <= i < matches.len() ==> word@.is_prefix_of(#[trigger] matches@[i]@),
    ensures
        final(ed).escape == old(ed).escape,
        matches.len() == 0 ==> (c is Nothing && final(ed).buf@ == old(ed).buf@),
        matches.len() == 1 ==> (c matches Completion::Insert(s) && s@ == matches@[0]@.skip(word@.len() as int)
            && final(ed).buf@ == old(ed).buf@ + s@),
        matches.len() > 1 ==> (c matches Completion::List(l, line) && l@ == candidates_text(
            crate::parser::string_views(matches@),
        ) && line@ == old(ed).buf@ && final(ed).buf@ == old(ed).buf@),
{
    if matches.len() == 0 {
        Completion::Nothing
    } else if matches.len() == 1 {
        let m = chars_of(matches[0].as_str());
        let n = word.unicode_len();
        proof {
            assert(word@.is_prefix_of(matches@[0]@));
        }
        let suffix = string_of(vstd::slice::slice_subrange(m.as_slice(), n, m.len()));
        assert(suffix@ =~= matches@[0]@.skip(word@.len() as int));
        push_chars(&mut ed.buf, suffix.as_str());
        Completion::Insert(suffix)
    } else {
        let mut l = String::new();
        push_char(&mut l, '\n');
        let mut i: usize = 0;
        proof {
            assert(crate::parser::string_views(matches@.take(0)) =~= Seq::<Seq<char>>::empty());
            assert(l@ =~= candidates_text(Seq::empty()));
        }
        while i < matches.len()
            invariant
                i <= matches.len(),
                l@ == candidates_text(crate::parser::string_views(matches@.take(i as int))),
            decreases matches.len() - i,
        {
            let ghost before = l@;
            push_chars(&mut l, "  ");
            push_chars(&mut l, matches[i].as_str());
            push_char(&mut l, '\n');
            proof {
                let v = crate::parser::string_views(matches@.take(i + 1));
                assert(v.drop_last() =~= crate::parser::string_views(matches@.take(i as int)));
                assert(v.last() == matches@[i as int]@);
            }
            i += 1;
        }
        proof {
            assert(matches@.take(matches.len() as int) =~= matches@);
        }
        Completion::List(l, copy_string(ed.buf.as_str()))
    }
}

/// The buffer and escape state after the keys `keys`, one after the other.
pub open spec fn feed(buf: Seq<char>, esc: EscapeState, keys: Seq<u8>) -> (Seq<char>, EscapeState)
    decreases keys.len(),
{
    if keys.len() == 0 {
        (buf, esc)
    } else {
        let (b, e) = feed(buf, esc, keys.drop_last());
        key_step(b, e, Some(keys.last()))
    }
}

/// Typing: printable characters typed on a line (outside an escape
/// sequence) are appended to it, in order.
pub proof fn law_typing_appends(buf: Seq<char>, keys: Seq<u8>)
    requires
        forall|i: int| 0 <= i < keys.len() ==> printable(#[trigger] keys[i]),
    ensures
        feed(buf, EscapeState::Idle, keys) == (buf + keys.map_values(|b: u8| b as char), EscapeState::Idle),
    decreases keys.len(),
{
    if keys.len() == 0 {
        assert(buf + keys.map_values(|b: u8| b as char) =~= buf);
    } else {
        let d = keys.drop_last();
        assert forall|i: int| 0 <= i < d.len() implies printable(#[trigger] d[i]) by {
            assert(d[i] == keys[i]);
        };
        law_typing_appends(buf, d);
        assert(printable(keys[keys.len() - 1]));
        assert((buf + d.map_values(|b: u8| b as char)).push(keys.last() as char)
            =~= buf + keys.map_values(|b: u8| b as char));
    }
}

/// Backspace undoes typing: a printable character typed and then erased
/// leaves the line as it was.
pub proof fn law_backspace_undoes_typing(buf: Seq<char>, key: u8)
    requires
        printable(key),
    ensures
        ({
            let (b1, e1) = key_step(buf, EscapeState::Idle, Some(key));
            key_step(b1, e1, Some(127u8))
        }) == (buf, EscapeState::Idle),
{
    assert(buf.push(key as char).drop_last() =~= buf);
}

/// Escape sequences leave the line alone: the Delete key (`ESC [ 3 ~`) and
/// the arrow keys (`ESC [` and a letter) change nothing and end outside any
/// escape sequence.
pub proof fn law_escape_sequences_ignored(buf: Seq<char>, last: u8)
    requires
        last != 0x33u8,
    ensures
        feed(buf, EscapeState::Idle, seq![0x1bu8, 0x5bu8, 0x33u8, 0x7eu8]) == (buf, EscapeState::Idle),
        feed(buf, EscapeState::Idle, seq![0x1bu8, 0x5bu8, last]) == (buf, EscapeState::Idle),
{
    let del = seq![0x1bu8, 0x5bu8, 0x33u8, 0x7eu8];
    assert(del.drop_last() =~= seq![0x1bu8, 0x5bu8, 0x33u8]);
    assert(del.drop_last().drop_last() =~= seq![0x1bu8, 0x5bu8]);
    assert(del.drop_last().drop_last().drop_last() =~= seq![0x1bu8]);
    assert(seq![0x1bu8].drop_last() =~= Seq::<u8>::empty());
    let arrow = seq![0x1bu8, 0x5bu8, last];
    assert(arrow.drop_last() =~= seq![0x1bu8, 0x5bu8]);
    assert(feed(buf, EscapeState::Idle, Seq::<u8>::empty()) == (buf, EscapeState::Idle));
    assert(seq![0x1bu8].last() == 0x1bu8);
    assert(feed(buf, EscapeState::Idle, seq![0x1bu8]) == (buf, EscapeState::AfterEscape));
    assert(seq![0x1bu8, 0x5bu8].last() == 0x5bu8);
    assert(feed(buf, EscapeState::Idle, seq![0x1bu8, 0x5bu8]) == (buf, EscapeState::AfterBracket));
    assert(del.drop_last().last() == 0x33u8);
    assert(feed(buf, EscapeState::Idle, seq![0x1bu8, 0x5bu8, 0x33u8]) == (buf, EscapeState::AfterDelete));
    assert(arrow.last() == last);
}

/// The word at the end of `s` is a suffix of it, with nothing or a
/// whitespace character before it.
proof fn lemma_last_word_suffix(s: Seq<char>)
    ensures
        last_word(s).len() <= s.len(),
        s == s.take(s.len() - last_word(s).len()) + last_word(s),
        last_word(s).len() < s.len() ==> unicode_whitespace(s[s.len() - last_word(s).len() - 1]),
    decreases s.len(),
{
    if s.len() == 0 {
        assert(s.take(0) + last_word(s) =~= s);
    } else if unicode_whitespace(s.last()) {
        assert(s.take(s.len() as int) + last_word(s) =~= s);
    } else {
        let d = s.drop_last();
        lemma_last_word_suffix(d);
        let n = s.len() - last_word(s).len();
        assert(d.take(n) =~= s.take(n));
        assert(s.take(n) + last_word(s) =~= s) by {
            assert(s =~= d.push(s.last()));
            assert(d == d.take(n) + last_word(d));
        };
        if last_word(s).len() < s.len() {
            assert(s[n - 1] == d[n - 1]);
        }
    }
}

/// Characters other than whitespace extend the word at the end.
proof fn lemma_last_word_append(p: Seq<char>, q: Seq<char>)
    requires
        forall|i: int| 0 <= i < q.len() ==> !unicode_whitespace(#[trigger] q[i]),
    ensures
        last_word(p + q) == last_word(p) + q,
    decreases q.len(),
{
    if q.len() == 0 {
        assert(p + q =~= p);
        assert(last_word(p) + q =~= last_word(p));
    } else {
        let d = q.drop_last();
        assert forall|i: int| 0 <= i < d.len() implies !unicode_whitespace(#[trigger] d[i]) by {
            assert(d[i] == q[i]);
        };
        lemma_last_word_append(p, d);
        assert((p + q).drop_last() =~= p + d);
        assert((p + q).last() == q.last());
        assert(!unicode_whitespace(q[q.len() - 1]));
        assert((last_word(p) + d).push(q.last()) =~= last_word(p) + q);
    }
}

/// Completion finishes the word: when the single candidate begins with the
/// word being typed at the end of the line and holds no whitespace, the line
/// completed by `complete` ends in exactly that candidate (after a trailing
/// space, the candidate is added as a new word).
pub proof fn law_completion_finishes_last_word(buf: Seq<char>, m: Seq<char>)
    requires
        last_word(buf).is_prefix_of(m),
        forall|i: int| 0 <= i < m.len() ==> !unicode_whitespace(#[trigger] m[i]),
    ensures
        last_word(buf + m.skip(last_word(buf).len() as int)) == m,
{
    let w = last_word(buf);
    lemma_last_word_suffix(buf);
    let pre = buf.take(buf.len() - w.len());
    assert(m =~= w + m.skip(w.len() as int));
    assert(buf + m.skip(w.len() as int) =~= pre + m);
    assert(last_word(pre) =~= Seq::<char>::empty()) by {
        if pre.len() > 0 {
            assert(pre.last() == buf[buf.len() - w.len() - 1]);
        }
    };
    lemma_last_word_append(pre, m);
    assert(Seq::<char>::empty() + m =~= m);
}

/// What the shell does with a line it read.
pub enum Step {
    /// Leave the shell.
    Exit,
    /// Print this error and read the next line.
    Report(String),
    /// Run this built-in command with these arguments.
    Run(Builtin, Vec<String>),
}

/// What the shell does with the line `line`: a line with an open quote is
/// reported; `exit` leaves; a built-in command runs with the other words as
/// its arguments; any other command is reported as not found.
pub fn run(line: &str) -> (step: Step)
    requires
        words(line@) matches Some(ws) ==> ws.len() > 0,
    ensures
        match words(line@) {
            None => step matches Step::Report(t) && t@ == error_text("osh"@, "Unclosed quote"@),
            Some(ws) => if ws[0] == "exit"@ {
                step is Exit
            } else {
                match builtin_named(ws[0]) {
                    Some(b) => step matches Step::Run(c, args) && c == b && string_views(args@) == ws.drop_first(),
                    None => step matches Step::Report(t) && t@ == "command not found: "@ + ws[0],
                }
            },
        },
{
    let (cmd, args) = match crate::parser::parse(line) {
        Ok(parts) => parts,
        Err(e) => return Step::Report(e.to_text()),
    };
    if crate::text::same_chars(cmd.as_str(), "exit") {
        return Step::Exit;
    }
    match exec(cmd.as_str()) {
        Ok(b) => Step::Run(b, args),
        Err(e) => {
            let t = e.to_text();
            proof {
                reveal_strlit("");
            }
            assert(t@ =~= "command not found: "@ + cmd@);
            Step::Report(t)
        },
    }
}

} // verus!
