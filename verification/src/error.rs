//! Errors reported by the shell and its commands.
use vstd::prelude::*;

use crate::text::{copy_string, push_chars};

verus! {

/// An error of one command: which command failed, and why.
pub struct CommandError {
    cmd: String,
    msg: String,
}

/// What an I/O failure was, as far as the messages tell kinds apart.
#[derive(Clone, Copy, PartialEq, Eq, Structural, Debug)]
pub enum IoErrorKind {
    NotFound,
    PermissionDenied,
    AlreadyExists,
    IsADirectory,
    /// Source and destination lie on different file systems.
    CrossesDevices,
    Other,
}

/// An I/O failure: its kind, and the system's own description of it.
pub struct IoFailure {
    pub kind: IoErrorKind,
    pub detail: String,
}

/// The message for an I/O failure on `path`.
pub open spec fn io_message(path: Seq<char>, kind: IoErrorKind, detail: Seq<char>) -> Seq<char> {
    match kind {
        IoErrorKind::NotFound => path + ": No such file or directory"@,
        IoErrorKind::PermissionDenied => path + ": Permission denied"@,
        IoErrorKind::AlreadyExists => path + ": File exists"@,
        IoErrorKind::IsADirectory => path + ": Is a directory"@,
        _ => path + ": "@ + detail,
    }
}

/// How an error of `cmd` saying `msg` is shown.
pub open spec fn error_text(cmd: Seq<char>, msg: Seq<char>) -> Seq<char> {
    if cmd.len() == 0 {
        msg
    } else {
        cmd + ": "@ + msg
    }
}

impl View for CommandError {
    type V = (Seq<char>, Seq<char>);

    closed spec fn view(&self) -> (Seq<char>, Seq<char>) {
        (self.cmd@, self.msg@)
    }
}

impl CommandError {
    /// An error of `cmd` with message `msg`.
    pub fn new(cmd: &str, msg: &str) -> (e: Self)
        ensures
            e@ == (cmd@, msg@),
    {
        CommandError { cmd: copy_string(cmd), msg: copy_string(msg) }
    }

    /// An error of `cmd` for an I/O failure on `path`.
    pub fn new_io(cmd: &str, path: &str, e: &IoFailure) -> (r: Self)
        ensures
            r@ == (cmd@, io_message(path@, e.kind, e.detail@)),
    {
        let mut msg = copy_string(path);
        match e.kind {
            IoErrorKind::NotFound => {
                push_chars(&mut msg, ": No such file or directory");
            },
            IoErrorKind::PermissionDenied => {
                push_chars(&mut msg, ": Permission denied");
            },
            IoErrorKind::AlreadyExists => {
                push_chars(&mut msg, ": File exists");
            },
            IoErrorKind::IsADirectory => {
                push_chars(&mut msg, ": Is a directory");
            },
            _ => {
                push_chars(&mut msg, ": ");
                push_chars(&mut msg, e.detail.as_str());
            },
        }
        CommandError { cmd: copy_string(cmd), msg }
    }

    /// The name of the command that failed.
    pub fn cmd(&self) -> (r: &str)
        ensures
            r@ == self@.0,
    {
        self.cmd.as_str()
    }

    /// Why it failed.
    pub fn msg(&self) -> (r: &str)
        ensures
            r@ == self@.1,
    {
        self.msg.as_str()
    }

    /// The error as the shell prints it: `cmd: msg`, or only `msg` when no
    /// command is named.
    pub fn to_text(&self) -> (s: String)
        ensures
            s@ == error_text(self@.0, self@.1),
    {
        if self.cmd.as_str().is_empty() {
            copy_string(self.msg.as_str())
        } else {
            let mut s = copy_string(self.cmd.as_str());
            push_chars(&mut s, ": ");
            push_chars(&mut s, self.msg.as_str());
            s
        }
    }
}

/// An error of the shell: one command error, or several (one per operand).
pub enum ShellError {
    One(CommandError),
    Many(Vec<CommandError>),
}

/// How a list of command errors is shown: each on a line of its own.
pub open spec fn errors_text(errs: Seq<(Seq<char>, Seq<char>)>) -> Seq<char>
    decreases errs.len(),
{
    if errs.len() == 0 {
        Seq::empty()
    } else {
        errors_text(errs.drop_last()) + error_text(errs.last().0, errs.last().1) + "\n"@
    }
}

/// The views of a list of command errors.
pub open spec fn error_views(errs: Seq<CommandError>) -> Seq<(Seq<char>, Seq<char>)> {
    errs.map_values(|e: CommandError| e@)
}

/// The errors among the outcomes of a command's operands, in order: one for
/// each operand that failed.
pub open spec fn failures(outs: Seq<Result<(), CommandError>>) -> Seq<CommandError>
    decreases outs.len(),
{
    if outs.len() == 0 {
        Seq::empty()
    } else {
        let rest = failures(outs.drop_first());
        match outs[0] {
            Ok(_) => rest,
            Err(e) => seq![e] + rest,
        }
    }
}

/// There is no failure exactly when every operand succeeded.
proof fn lemma_failures_empty(outs: Seq<Result<(), CommandError>>)
    ensures
        failures(outs).len() == 0 <==> forall|i: int| 0 <= i < outs.len() ==> (#[trigger] outs[i]) is Ok,
    decreases outs.len(),
{
    if outs.len() > 0 {
        lemma_failures_empty(outs.drop_first());
        assert forall|i: int| 1 <= i < outs.len() implies outs[i] == outs.drop_first()[i - 1] by {};
        if failures(outs).len() == 0 {
            assert forall|i: int| 0 <= i < outs.len() implies (#[trigger] outs[i]) is Ok by {
                if i > 0 {
                    assert(outs.drop_first()[i - 1] is Ok);
                }
            };
        } else if forall|i: int| 0 <= i < outs.len() ==> (#[trigger] outs[i]) is Ok {
            assert(outs[0] is Ok);
            assert forall|i: int| 0 <= i < outs.drop_first().len() implies (#[trigger] outs.drop_first()[i]) is Ok by {
                assert(outs[i + 1] is Ok);
            };
        }
    }
}

impl ShellError {
    /// A single error of `cmd` with message `msg`.
    pub fn one(cmd: &str, msg: &str) -> (r: Self)
        ensures
            r matches ShellError::One(e) && e@ == (cmd@, msg@),
    {
        ShellError::One(CommandError::new(cmd, msg))
    }

    /// A single error of `cmd` for an I/O failure on `path`.
    pub fn one_io(cmd: &str, path: &str, e: &IoFailure) -> (r: Self)
        ensures
            r matches ShellError::One(c) && c@ == (cmd@, io_message(path@, e.kind, e.detail@)),
    {
        ShellError::One(CommandError::new_io(cmd, path, e))
    }

    /// The outcome of a command that went through all its operands: success
    /// when none failed, else all the errors, in order.
    pub fn from_errors(errors: Vec<CommandError>) -> (r: Result<(), ShellError>)
        ensures
            errors.len() == 0 ==> r is Ok,
            errors.len() > 0 ==> (r matches Err(ShellError::Many(v)) && v@ == errors@),
    {
        if errors.len() == 0 {
            Ok(())
        } else {
            Err(ShellError::Many(errors))
        }
    }

    /// The outcome of a command from the outcomes of its operands, one per
    /// operand in order (a failure does not stop the later operands): success
    /// when every operand succeeded, else all the failures, in order.
    pub fn from_outcomes(outcomes: Vec<Result<(), CommandError>>) -> (r: Result<(), ShellError>)
        ensures
            r is Ok <==> forall|i: int| 0 <= i < outcomes.len() ==> (#[trigger] outcomes@[i]) is Ok,
            r is Err ==> (r matches Err(ShellError::Many(v)) && v@ == failures(outcomes@)),
    {
        let ghost all = outcomes@;
        let mut rest = outcomes;
        let mut errors: Vec<CommandError> = Vec::new();
        proof {
            assert(Seq::<CommandError>::empty() + failures(all) =~= failures(all));
        }
        while rest.len() > 0
            invariant
                failures(all) == errors@ + failures(rest@),
            decreases rest.len(),
        {
            let ghost before = rest@;
            let o = rest.remove(0);
            proof {
                assert(rest@ =~= before.drop_first());
            }
            match o {
                Ok(()) => {},
                Err(e) => {
                    let ghost eg = e;
                    errors.push(e);
                    proof {
                        assert(errors@ + failures(rest@) =~= errors@.drop_last() + (seq![eg] + failures(rest@)));
                    }
                },
            }
        }
        proof {
            assert(errors@ + Seq::<CommandError>::empty() =~= errors@);
            lemma_failures_empty(all);
        }
        ShellError::from_errors(errors)
    }

    /// The error as the shell prints it.
    pub fn to_text(&self) -> (s: String)
        ensures
            s@ == match self {
                ShellError::One(e) => error_text(e@.0, e@.1),
                ShellError::Many(v) => errors_text(error_views(v@)),
            },
    {
        match self {
            ShellError::One(e) => e.to_text(),
            ShellError::Many(v) => {
                let mut s = String::new();
                let mut i: usize = 0;
                while i < v.len()
                    invariant
                        i <= v.len(),
                        s@ == errors_text(error_views(v@.take(i as int))),
                    decreases v.len() - i,
                {
                    let line = v[i].to_text();
                    push_chars(&mut s, line.as_str());
                    push_chars(&mut s, "\n");
                    proof {
                        assert(v@.take(i + 1).drop_last() =~= v@.take(i as int));
                        assert(error_views(v@.take(i + 1)).drop_last() =~= error_views(v@.take(i as int)));
                    }
                    i += 1;
                }
                assert(v@.take(v.len() as int) =~= v@);
                s
            },
        }
    }
}

} // verus!
