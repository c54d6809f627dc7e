use osh::commands::Builtin;
use osh::shell::{
    complete, find_matches, get_completion_dir, get_last_word, prompt, read, reset, run, Completion,
    EscapeState, LineEditor, ReadEvent, Step,
};

fn feed(ed: &mut LineEditor, keys: &[u8]) -> Vec<ReadEvent> {
    keys.iter().map(|k| read(ed, Some(*k))).collect()
}

#[test]
fn reset_clears_screen() {
    assert_eq!(reset(), "\x1b[2J\x1b[3J\x1b[H");
}

#[test]
fn prompt_home_and_elsewhere() {
    let p = prompt(Some("/home/u".to_string()), Some("/home/u".to_string()));
    assert_eq!(p, "\x1b[1m\x1b[38;2;97;175;239m~\x1b[0m \x1b[32m➜\x1b[0m ");
    let p = prompt(Some("/home/u/src".to_string()), Some("/home/u".to_string()));
    assert!(p.contains("~/src\x1b[0m"));
    let p = prompt(Some("/".to_string()), Some("/home/u".to_string()));
    assert!(p.contains("m/\x1b[0m"));
    assert!(!p.contains("~"));
    let p = prompt(Some("/tmp".to_string()), None);
    assert!(p.contains("/tmp\x1b[0m"));
    let p = prompt(None, Some("/home/u".to_string()));
    assert!(p.contains("?\x1b[0m"));
}

#[test]
fn last_words() {
    assert_eq!(get_last_word("cat foo/ba"), "foo/ba");
    assert_eq!(get_last_word("cat a  "), "");
    assert_eq!(get_last_word("cat "), "");
    assert_eq!(get_last_word("   "), "");
    assert_eq!(get_last_word("x\ty"), "y");
    assert_eq!(get_last_word("a\u{a0}b"), "b");
}

#[test]
fn completion_directories() {
    assert_eq!(get_completion_dir("fo"), ".");
    assert_eq!(get_completion_dir("src/ma"), "src/");
    assert_eq!(get_completion_dir("/"), "/");
}

#[test]
fn matches_in_current_directory() {
    let entries = vec![("foo".to_string(), false), ("food".to_string(), true), ("bar".to_string(), false)];
    assert_eq!(find_matches("fo", &entries), vec!["foo", "food/"]);
    assert!(find_matches("z", &entries).is_empty());
}

#[test]
fn matches_keep_directory_part() {
    let entries = vec![("main.rs".to_string(), false), ("lib".to_string(), true)];
    assert_eq!(find_matches("src/ma", &entries), vec!["src/main.rs"]);
    assert_eq!(find_matches("src/", &entries), vec!["src/main.rs", "src/lib/"]);
}

#[test]
fn typing_and_enter() {
    let mut ed = LineEditor::new();
    let evs = feed(&mut ed, b"ls -l");
    assert!(matches!(&evs[0], ReadEvent::Output(o) if o == "l"));
    assert_eq!(ed.buf, "ls -l");
    match read(&mut ed, Some(b'\n')) {
        ReadEvent::Finished(Some(line), echo) => {
            assert_eq!(line, "ls -l");
            assert_eq!(echo, "\r\n");
        }
        _ => panic!("expected the line"),
    }
}

#[test]
fn carriage_return_ends_the_line() {
    let mut ed = LineEditor::new();
    feed(&mut ed, b"pwd");
    assert!(matches!(read(&mut ed, Some(b'\r')), ReadEvent::Finished(Some(l), _) if l == "pwd"));
}

#[test]
fn backspace_erases() {
    let mut ed = LineEditor::new();
    feed(&mut ed, b"ab");
    assert!(matches!(read(&mut ed, Some(127)), ReadEvent::Output(o) if o == "\x08\x1b[K"));
    assert_eq!(ed.buf, "a");
    read(&mut ed, Some(127));
    assert!(matches!(read(&mut ed, Some(127)), ReadEvent::Output(o) if o.is_empty()));
    assert_eq!(ed.buf, "");
}

#[test]
fn end_of_input_and_ctrl_d() {
    let mut ed = LineEditor::new();
    feed(&mut ed, b"abc");
    assert!(matches!(read(&mut ed, Some(4)), ReadEvent::Finished(None, _)));
    let mut ed = LineEditor::new();
    assert!(matches!(read(&mut ed, None), ReadEvent::Finished(None, _)));
}

#[test]
fn control_bytes_are_ignored() {
    let mut ed = LineEditor::new();
    assert!(matches!(read(&mut ed, Some(1)), ReadEvent::Output(o) if o.is_empty()));
    assert!(matches!(read(&mut ed, Some(200)), ReadEvent::Output(o) if o.is_empty()));
    assert_eq!(ed.buf, "");
}

#[test]
fn escape_sequences_are_dropped() {
    let mut ed = LineEditor::new();
    feed(&mut ed, b"x");
    feed(&mut ed, &[0x1b, b'[', b'A']);
    assert_eq!(ed.escape, EscapeState::Idle);
    feed(&mut ed, &[0x1b, b'[', b'3', b'~']);
    assert_eq!(ed.escape, EscapeState::Idle);
    feed(&mut ed, b"y");
    assert_eq!(ed.buf, "xy");
    // an escape not followed by '[' drops just the next byte
    feed(&mut ed, &[0x1b, b'q', b'z']);
    assert_eq!(ed.buf, "xyz");
}

#[test]
fn tab_asks_for_completion_after_a_space() {
    let mut ed = LineEditor::new();
    feed(&mut ed, b"cat");
    assert!(matches!(read(&mut ed, Some(b'\t')), ReadEvent::Output(o) if o.is_empty()));
    feed(&mut ed, b" src/ma");
    assert!(matches!(read(&mut ed, Some(b'\t')), ReadEvent::Complete(w) if w == "src/ma"));
}

#[test]
fn completing_one_candidate() {
    let mut ed = LineEditor::new();
    feed(&mut ed, b"cat src/ma");
    match complete(&mut ed, "src/ma", vec!["src/main.rs".to_string()]) {
        Completion::Insert(s) => assert_eq!(s, "in.rs"),
        _ => panic!("expected an insertion"),
    }
    assert_eq!(ed.buf, "cat src/main.rs");
}

#[test]
fn completion_finishes_the_last_word() {
    let mut ed = LineEditor::new();
    feed(&mut ed, b"cat notes/to");
    let word = match read(&mut ed, Some(b'\t')) {
        ReadEvent::Complete(w) => w,
        _ => panic!("expected a completion request"),
    };
    assert_eq!(word, "notes/to");
    assert!(matches!(complete(&mut ed, &word, vec!["notes/todo.md".to_string()]), Completion::Insert(s) if s == "do.md"));
    assert_eq!(get_last_word(&ed.buf), "notes/todo.md");
    assert_eq!(ed.buf, "cat notes/todo.md");
}

#[test]
fn completion_after_a_trailing_space() {
    let mut ed = LineEditor::new();
    feed(&mut ed, b"cat ");
    let word = match read(&mut ed, Some(b'\t')) {
        ReadEvent::Complete(w) => w,
        _ => panic!("expected a completion request"),
    };
    assert_eq!(word, "");
    assert_eq!(get_completion_dir(&word), ".");
    let entries = vec![("notes.txt".to_string(), false)];
    let ms = find_matches(&word, &entries);
    assert_eq!(ms, vec!["notes.txt".to_string()]);
    assert!(matches!(complete(&mut ed, &word, ms), Completion::Insert(s) if s == "notes.txt"));
    assert_eq!(ed.buf, "cat notes.txt");
}

#[test]
fn completing_several_candidates() {
    let mut ed = LineEditor::new();
    feed(&mut ed, b"cd f");
    match complete(&mut ed, "f", vec!["foo".to_string(), "fun/".to_string()]) {
        Completion::List(l, line) => {
            assert_eq!(l, "\n  foo\n  fun/\n");
            assert_eq!(line, "cd f");
        }
        _ => panic!("expected a list"),
    }
    assert_eq!(ed.buf, "cd f");
    assert!(matches!(complete(&mut ed, "f", vec![]), Completion::Nothing));
}

#[test]
fn shell_steps() {
    assert!(matches!(run("exit"), Step::Exit));
    assert!(matches!(run("  exit now"), Step::Exit));
    match run("ls -l 'my dir'") {
        Step::Run(b, args) => {
            assert_eq!(b, Builtin::Ls);
            assert_eq!(args, vec!["-l", "my dir"]);
        }
        _ => panic!("expected a command"),
    }
    assert!(matches!(run("nope x"), Step::Report(t) if t == "command not found: nope"));
    assert!(matches!(run("echo 'x"), Step::Report(t) if t == "osh: Unclosed quote"));
}
