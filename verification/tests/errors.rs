use osh::error::{CommandError, IoErrorKind, IoFailure, ShellError};

fn fail(kind: IoErrorKind, detail: &str) -> IoFailure {
    IoFailure { kind, detail: detail.to_string() }
}

#[test]
fn command_error_text() {
    let e = CommandError::new("cp", "Missing operand");
    assert_eq!(e.cmd(), "cp");
    assert_eq!(e.msg(), "Missing operand");
    assert_eq!(e.to_text(), "cp: Missing operand");
}

#[test]
fn error_without_command_shows_message_only() {
    assert_eq!(CommandError::new("", "command not found: foo").to_text(), "command not found: foo");
}

#[test]
fn io_messages_per_kind() {
    assert_eq!(CommandError::new_io("cat", "a", &fail(IoErrorKind::NotFound, "x")).msg(), "a: No such file or directory");
    assert_eq!(CommandError::new_io("cat", "a", &fail(IoErrorKind::PermissionDenied, "x")).msg(), "a: Permission denied");
    assert_eq!(CommandError::new_io("mkdir", "d", &fail(IoErrorKind::AlreadyExists, "x")).msg(), "d: File exists");
    assert_eq!(CommandError::new_io("cat", "d", &fail(IoErrorKind::IsADirectory, "x")).msg(), "d: Is a directory");
    assert_eq!(
        CommandError::new_io("mv", "a", &fail(IoErrorKind::Other, "Invalid argument (os error 22)")).to_text(),
        "mv: a: Invalid argument (os error 22)"
    );
    assert_eq!(
        CommandError::new_io("mv", "a", &fail(IoErrorKind::CrossesDevices, "Invalid cross-device link (os error 18)")).msg(),
        "a: Invalid cross-device link (os error 18)"
    );
}

#[test]
fn shell_error_one() {
    match ShellError::one("rm", "Missing operand") {
        ShellError::One(e) => assert_eq!(e.to_text(), "rm: Missing operand"),
        _ => panic!("expected one error"),
    }
    match ShellError::one_io("cd", "/nope", &fail(IoErrorKind::NotFound, "x")) {
        ShellError::One(e) => assert_eq!(e.to_text(), "cd: /nope: No such file or directory"),
        _ => panic!("expected one error"),
    }
}

#[test]
fn many_errors_each_on_a_line() {
    let errs = vec![CommandError::new("rm", "a: Is a directory"), CommandError::new("rm", "b: No such file or directory")];
    let e = ShellError::Many(errs);
    assert_eq!(e.to_text(), "rm: a: Is a directory\nrm: b: No such file or directory\n");
}

#[test]
fn from_errors_outcome() {
    assert!(ShellError::from_errors(Vec::new()).is_ok());
    match ShellError::from_errors(vec![CommandError::new("cat", "x")]) {
        Err(ShellError::Many(v)) => assert_eq!(v.len(), 1),
        _ => panic!("expected errors"),
    }
}
