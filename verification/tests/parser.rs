use osh::error::ShellError;
use osh::parser::{parse, tokenize};

fn words(line: &str) -> Vec<String> {
    match tokenize(line) {
        Ok(v) => v,
        Err(_) => panic!("unexpected error"),
    }
}

#[test]
fn plain_words_are_split_on_spaces() {
    assert_eq!(words("ls -l  /tmp "), vec!["ls", "-l", "/tmp"]);
}

#[test]
fn leading_and_repeated_spaces_are_dropped() {
    assert_eq!(words("   echo    a   b"), vec!["echo", "a", "b"]);
}

#[test]
fn double_quotes_keep_spaces() {
    assert_eq!(words("echo \"hello   world\" x"), vec!["echo", "hello   world", "x"]);
}

#[test]
fn single_quotes_keep_double_quotes() {
    assert_eq!(words("echo 'say \"hi\"'"), vec!["echo", "say \"hi\""]);
}

#[test]
fn empty_quotes_make_an_empty_word() {
    assert_eq!(words("echo \"\" ''"), vec!["echo", "", ""]);
}

#[test]
fn quotes_join_with_adjacent_text() {
    assert_eq!(words("cat a\"b c\"d"), vec!["cat", "ab cd"]);
}

#[test]
fn unclosed_quote_is_an_error() {
    match tokenize("echo \"abc") {
        Err(ShellError::One(e)) => {
            assert_eq!(e.cmd(), "osh");
            assert_eq!(e.msg(), "Unclosed quote");
            assert_eq!(e.to_text(), "osh: Unclosed quote");
        }
        _ => panic!("expected an error"),
    }
}

#[test]
fn empty_line_has_no_words() {
    assert_eq!(words(""), Vec::<String>::new());
    assert_eq!(words("    "), Vec::<String>::new());
}

#[test]
fn parse_splits_command_and_arguments() {
    match parse("cp 'my file' dest") {
        Ok((cmd, args)) => {
            assert_eq!(cmd, "cp");
            assert_eq!(args, vec!["my file", "dest"]);
        }
        Err(_) => panic!("expected words"),
    }
}

#[test]
fn parse_command_alone() {
    match parse("pwd") {
        Ok((cmd, args)) => {
            assert_eq!(cmd, "pwd");
            assert!(args.is_empty());
        }
        Err(_) => panic!("expected words"),
    }
}

#[test]
fn parse_reports_unclosed_quote() {
    assert!(matches!(parse("echo 'x"), Err(ShellError::One(_))));
}

#[test]
fn quoted_round_trip_example() {
    // the words "a b", "" and "it's" written between double quotes
    assert_eq!(words("\"a b\" \"\" \"it's\""), vec!["a b", "", "it's"]);
}

#[test]
fn non_ascii_words() {
    assert_eq!(words("echo héllo \"wörld ✓\""), vec!["echo", "héllo", "wörld ✓"]);
}

#[test]
fn command_with_quoted_argument() {
    for (c, a) in [("echo", "it's a  test"), ("cd", ""), ("cat", " lead and trail ")] {
        let line = format!("{} \"{}\"", c, a);
        match parse(&line) {
            Ok((cmd, args)) => {
                assert_eq!(cmd, c);
                assert_eq!(args, vec![a.to_string()]);
            }
            Err(_) => panic!("unexpected error"),
        }
    }
}
