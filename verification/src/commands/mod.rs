//! The built-in commands: which names exist, and the rules of each.
pub mod cat;
pub mod cd;
pub mod cp;
pub mod echo;
pub mod help;
pub mod ls;
pub mod mkdir;
pub mod mv;
pub mod pwd;
pub mod rm;
pub mod transfer;

use vstd::prelude::*;

use crate::error::{failures, CommandError, ShellError};
use crate::text::{push_chars, same_chars};

verus! {

/// The built-in commands.
#[derive(Clone, Copy, PartialEq, Eq, Structural, Debug)]
pub enum Builtin {
    Echo,
    Pwd,
    Cd,
    Mkdir,
    Cat,
    Cp,
    Mv,
    Rm,
    Ls,
    Help,
}

/// The built-in command called `name`, if there is one.
pub open spec fn builtin_named(name: Seq<char>) -> Option<Builtin> {
    if name == "echo"@ {
        Some(Builtin::Echo)
    } else if name == "pwd"@ {
        Some(Builtin::Pwd)
    } else if name == "cd"@ {
        Some(Builtin::Cd)
    } else if name == "mkdir"@ {
        Some(Builtin::Mkdir)
    } else if name == "cat"@ {
        Some(Builtin::Cat)
    } else if name == "cp"@ {
        Some(Builtin::Cp)
    } else if name == "mv"@ {
        Some(Builtin::Mv)
    } else if name == "rm"@ {
        Some(Builtin::Rm)
    } else if name == "ls"@ {
        Some(Builtin::Ls)
    } else if name == "help"@ {
        Some(Builtin::Help)
    } else {
        None
    }
}

/// Finds the built-in command `cmd`; an unknown name is the error
/// `command not found: cmd` (shown without a command prefix).
pub fn exec(cmd: &str) -> (r: Result<Builtin, CommandError>)
    ensures
        match builtin_named(cmd@) {
            Some(b) => r == Ok::<Builtin, CommandError>(b),
            None => r matches Err(e) && e@ == (""@, "command not found: "@ + cmd@),
        },
{
    if same_chars(cmd, "echo") {
        Ok(Builtin::Echo)
    } else if same_chars(cmd, "pwd") {
        Ok(Builtin::Pwd)
    } else if same_chars(cmd, "cd") {
        Ok(Builtin::Cd)
    } else if same_chars(cmd, "mkdir") {
        Ok(Builtin::Mkdir)
    } else if same_chars(cmd, "cat") {
        Ok(Builtin::Cat)
    } else if same_chars(cmd, "cp") {
        Ok(Builtin::Cp)
    } else if same_chars(cmd, "mv") {
        Ok(Builtin::Mv)
    } else if same_chars(cmd, "rm") {
        Ok(Builtin::Rm)
    } else if same_chars(cmd, "ls") {
        Ok(Builtin::Ls)
    } else if same_chars(cmd, "help") {
        Ok(Builtin::Help)
    } else {
        let mut msg = String::new();
        push_chars(&mut msg, "command not found: ");
        push_chars(&mut msg, cmd);
        assert(msg@ =~= "command not found: "@ + cmd@);
        Err(CommandError::new("", msg.as_str()))
    }
}

/// The outcome of a command that works through its operands one by one
/// (`mkdir`, `cat`, `cp`, `mv`, `rm`), from what checking its arguments gave:
/// an error of that check is the command's error, unchanged; else the
/// outcomes of the operands, one per operand in order, decide: success when
/// all succeeded, else every failure, in order.
pub fn finish(checked: Result<Vec<Result<(), CommandError>>, ShellError>) -> (r: Result<(), ShellError>)
    ensures
        match checked {
            Err(e) => r == Err::<(), ShellError>(e),
            Ok(outs) => {
                &&& (r is Ok <==> forall|i: int| 0 <= i < outs.len() ==> (#[trigger] outs@[i]) is Ok)
                &&& (r is Err ==> (r matches Err(ShellError::Many(v)) && v@ == failures(outs@)))
            },
        },
{
    match checked {
        Err(e) => Err(e),
        Ok(outs) => ShellError::from_outcomes(outs),
    }
}

} // verus!
