use osh::commands::rm::Removal;
use osh::commands::{cat, cd, cp, echo, exec, help, mkdir, mv, pwd, rm, Builtin};
use osh::error::{CommandError, IoErrorKind, IoFailure, ShellError};
use osh::path::{file_name, join};

fn s(v: &[&str]) -> Vec<String> {
    v.iter().map(|x| x.to_string()).collect()
}

fn one_text(e: ShellError) -> String {
    match e {
        ShellError::One(c) => c.to_text(),
        ShellError::Many(_) => panic!("expected a single error"),
    }
}

#[test]
fn exec_finds_builtins() {
    assert_eq!(exec("echo").ok(), Some(Builtin::Echo));
    assert_eq!(exec("pwd").ok(), Some(Builtin::Pwd));
    assert_eq!(exec("cd").ok(), Some(Builtin::Cd));
    assert_eq!(exec("mkdir").ok(), Some(Builtin::Mkdir));
    assert_eq!(exec("cat").ok(), Some(Builtin::Cat));
    assert_eq!(exec("cp").ok(), Some(Builtin::Cp));
    assert_eq!(exec("mv").ok(), Some(Builtin::Mv));
    assert_eq!(exec("rm").ok(), Some(Builtin::Rm));
    assert_eq!(exec("ls").ok(), Some(Builtin::Ls));
    assert_eq!(exec("help").ok(), Some(Builtin::Help));
}

#[test]
fn exec_unknown_command() {
    match exec("frobnicate") {
        Err(e) => {
            assert_eq!(e.cmd(), "");
            assert_eq!(e.to_text(), "command not found: frobnicate");
        }
        Ok(_) => panic!("expected an error"),
    }
    assert!(exec("ECHO").is_err());
}

#[test]
fn file_name_cases() {
    assert_eq!(file_name("a/b.txt"), Some("b.txt".to_string()));
    assert_eq!(file_name("b.txt"), Some("b.txt".to_string()));
    assert_eq!(file_name("dir/"), Some("dir".to_string()));
    assert_eq!(file_name("dir/."), Some("dir".to_string()));
    assert_eq!(file_name("a//b//"), Some("b".to_string()));
    assert_eq!(file_name("/"), None);
    assert_eq!(file_name(""), None);
    assert_eq!(file_name("."), None);
    assert_eq!(file_name("./"), None);
    assert_eq!(file_name(".."), None);
    assert_eq!(file_name("a/.."), None);
    assert_eq!(file_name(".hidden"), Some(".hidden".to_string()));
    assert_eq!(file_name("..."), Some("...".to_string()));
}

#[test]
fn join_cases() {
    assert_eq!(join("dir", "f"), "dir/f");
    assert_eq!(join("dir/", "f"), "dir/f");
    assert_eq!(join("", "f"), "f");
    assert_eq!(join("/", "f"), "/f");
}

#[test]
fn cp_missing_operand() {
    assert_eq!(one_text(cp::run(s(&[]), false).err().unwrap()), "cp: Missing operand");
}

#[test]
fn cp_missing_destination() {
    assert_eq!(one_text(cp::run(s(&["a"]), false).err().unwrap()), "cp: Missing destination");
}

#[test]
fn cp_several_sources_need_a_directory() {
    assert_eq!(one_text(cp::run(s(&["a", "b", "c"]), false).err().unwrap()), "cp: c: Not a directory");
}

#[test]
fn cp_into_directory() {
    let plan = cp::run(s(&["x/a.txt", "b", "dest"]), true).ok().unwrap();
    assert_eq!(plan.len(), 2);
    assert_eq!(plan[0].src, "x/a.txt");
    assert_eq!(plan[0].dest.as_ref().ok().unwrap(), "dest/a.txt");
    assert_eq!(plan[1].dest.as_ref().ok().unwrap(), "dest/b");
}

#[test]
fn cp_onto_file() {
    let plan = cp::run(s(&["a", "b"]), false).ok().unwrap();
    assert_eq!(plan.len(), 1);
    assert_eq!(plan[0].dest.as_ref().ok().unwrap(), "b");
}

#[test]
fn cp_source_without_name() {
    let plan = cp::run(s(&["..", "dest"]), true).ok().unwrap();
    assert_eq!(plan[0].dest.as_ref().err().unwrap().to_text(), "cp: ..: Invalid filename");
}

#[test]
fn cp_get_dest_path() {
    assert_eq!(cp::get_dest_path("a/f", "d/", true).ok().unwrap(), "d/f");
    assert_eq!(cp::get_dest_path("a/f", "g", false).ok().unwrap(), "g");
    assert_eq!(cp::get_dest_path("/", "d", true).err().unwrap().to_text(), "cp: /: Invalid filename");
}

#[test]
fn cp_refuses_same_file() {
    assert!(cp::check_same_file("a", "a", false).is_ok());
    let e = cp::check_same_file("a", "./a", true).err().unwrap();
    assert_eq!(e.to_text(), "cp: 'a' and './a' are the same file");
}

#[test]
fn mv_plans() {
    assert_eq!(one_text(mv::run(s(&[]), false).err().unwrap()), "mv: Missing operand");
    assert_eq!(one_text(mv::run(s(&["a"]), false).err().unwrap()), "mv: Missing destination");
    assert_eq!(one_text(mv::run(s(&["a", "b", "c"]), false).err().unwrap()), "mv: c: Not a directory");
    let plan = mv::run(s(&["a", "b", "d"]), true).ok().unwrap();
    assert_eq!(plan[1].dest.as_ref().ok().unwrap(), "d/b");
    assert_eq!(mv::get_dest_path(".", "d", true).err().unwrap().to_text(), "mv: .: Invalid filename");
}

#[test]
fn mv_falls_back_only_across_devices() {
    assert!(mv::copies_across_devices(IoErrorKind::CrossesDevices));
    assert!(!mv::copies_across_devices(IoErrorKind::NotFound));
    assert!(!mv::copies_across_devices(IoErrorKind::Other));
}

#[test]
fn rm_parse_args() {
    let (flags, paths) = rm::parse_args(&s(&["-r", "a", "-", "b"])).ok().unwrap();
    assert!(flags.recursive && !flags.force);
    assert_eq!(paths, vec!["a", "-", "b"]);
    let (flags, paths) = rm::parse_args(&s(&["a"])).ok().unwrap();
    assert!(!flags.recursive && !flags.force);
    assert_eq!(paths, vec!["a"]);
    let (flags, _) = rm::parse_args(&s(&["-rr", "x"])).ok().unwrap();
    assert!(flags.recursive);
    let (flags, _) = rm::parse_args(&s(&["-R", "x"])).ok().unwrap();
    assert!(flags.recursive && !flags.force);
    let (flags, paths) = rm::parse_args(&s(&["-f", "a"])).ok().unwrap();
    assert!(!flags.recursive && flags.force);
    assert_eq!(paths, vec!["a"]);
    let (flags, paths) = rm::run(s(&["a", "-rf"])).ok().unwrap();
    assert!(flags.recursive && flags.force);
    assert_eq!(paths, vec!["a"]);
}

#[test]
fn rm_unknown_option_is_not_a_path() {
    assert_eq!(one_text(rm::parse_args(&s(&["-x", "a"])).err().unwrap()), "rm: invalid option: '-x'");
    assert_eq!(one_text(rm::run(s(&["a", "-rfq"])).err().unwrap()), "rm: invalid option: '-rfq'");
}

#[test]
fn rm_force_ignores_missing_paths() {
    let missing = || IoFailure { kind: IoErrorKind::NotFound, detail: "gone".to_string() };
    let denied = || IoFailure { kind: IoErrorKind::PermissionDenied, detail: "no".to_string() };
    assert!(rm::removed("a", Ok(()), false).is_ok());
    assert!(rm::removed("a", Err(missing()), true).is_ok());
    assert_eq!(rm::removed("a", Err(missing()), false).err().unwrap().to_text(), "rm: a: No such file or directory");
    assert_eq!(rm::removed("a", Err(denied()), true).err().unwrap().to_text(), "rm: a: Permission denied");
}

#[test]
fn rm_missing_operand() {
    assert_eq!(one_text(rm::run(s(&[])).err().unwrap()), "rm: Missing operand");
    assert_eq!(one_text(rm::run(s(&["-r"])).err().unwrap()), "rm: Missing operand");
}

#[test]
fn rm_removal_decision() {
    assert!(matches!(rm::removal("d", true, true), Removal::Tree));
    assert!(matches!(rm::removal("f", false, true), Removal::File));
    assert!(matches!(rm::removal("f", false, false), Removal::File));
    match rm::removal("d", true, false) {
        Removal::Refused(e) => assert_eq!(e.to_text(), "rm: d: Is a directory"),
        _ => panic!("expected a refusal"),
    }
}

#[test]
fn cat_and_mkdir_operands() {
    assert_eq!(one_text(cat::run(s(&[])).err().unwrap()), "cat: Missing operand");
    assert_eq!(cat::run(s(&["a", "b"])).ok().unwrap(), vec!["a", "b"]);
    assert_eq!(one_text(mkdir::run(s(&[])).err().unwrap()), "mkdir: Missing operand");
    assert_eq!(mkdir::run(s(&["x"])).ok().unwrap(), vec!["x"]);
}

#[test]
fn cd_target() {
    assert_eq!(cd::run(s(&[]), Some("/home/u".to_string())).ok().unwrap(), "/home/u");
    assert_eq!(one_text(cd::run(s(&[]), None).err().unwrap()), "cd: HOME not set");
    assert_eq!(cd::run(s(&["/tmp"]), None).ok().unwrap(), "/tmp");
    assert_eq!(one_text(cd::run(s(&["a", "b"]), None).err().unwrap()), "cd: too many arguments");
}

#[test]
fn echo_joins_with_spaces() {
    assert_eq!(echo::run(s(&["hello", "big", "world"])), "hello big world");
    assert_eq!(echo::run(s(&[])), "");
    assert_eq!(echo::run(s(&["", "x"])), " x");
}

#[test]
fn help_lists_commands() {
    let h = help::run();
    assert!(h.starts_with("osh - a minimalist Unix-like shell\n\nBuilt-in commands:\n"));
    assert!(h.contains("  rm [-r] [paths...]      Remove files or directories\n"));
    assert!(h.ends_with("  exit                    Exit the shell\n"));
    assert_eq!(h.lines().count(), 14);
}

#[test]
fn pwd_output() {
    assert_eq!(pwd::run(Ok("/tmp".to_string())).ok().unwrap(), "/tmp");
    assert_eq!(one_text(pwd::run(Err("gone".to_string())).err().unwrap()), "pwd: gone");
}

#[test]
fn joined_name_is_the_file_name() {
    for dir in ["", "/", "a", "a/", "a/b/..", "."] {
        assert_eq!(file_name(&join(dir, "note.txt")), Some("note.txt".to_string()));
    }
}

#[test]
fn finishing_a_command() {
    let checked: Result<Vec<Result<(), CommandError>>, ShellError> = Err(ShellError::one("cp", "Missing operand"));
    assert_eq!(one_text(osh::commands::finish(checked).err().unwrap()), "cp: Missing operand");
    assert!(osh::commands::finish(Ok(vec![Ok(()), Ok(())])).is_ok());
    let outs = vec![
        Err(CommandError::new("cp", "a: No such file or directory")),
        Ok(()),
        Err(CommandError::new("cp", "c: Permission denied")),
    ];
    match osh::commands::finish(Ok(outs)) {
        Err(ShellError::Many(v)) => {
            let texts: Vec<String> = v.iter().map(|e| e.to_text()).collect();
            assert_eq!(texts, vec!["cp: a: No such file or directory", "cp: c: Permission denied"]);
        }
        _ => panic!("expected the failures"),
    }
}
