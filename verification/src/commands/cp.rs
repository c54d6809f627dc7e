//! `cp`: copies files.
use vstd::prelude::*;

use crate::error::{CommandError, ShellError};
use crate::parser::string_views;
use crate::text::push_chars;
use super::transfer::{dest_path, dest_path_of, operands_error, plan, same_file_message, transfer_is, Transfer};

verus! {

/// Checks the operands of `cp` and works out where each source goes (see
/// `transfer::plan`); `dest_is_dir` tells whether the last operand is a
/// directory.  The caller then copies each source whose destination is known.
pub fn run(args: Vec<String>, dest_is_dir: bool) -> (r: Result<Vec<Transfer>, ShellError>)
    ensures
        match operands_error(string_views(args@), dest_is_dir) {
            Some(m) => r matches Err(ShellError::One(e)) && e@ == ("cp"@, m),
            None => r matches Ok(v) && v.len() == args.len() - 1 && forall|i: int|
                0 <= i < v.len() ==> transfer_is(
                    #[trigger] v@[i],
                    "cp"@,
                    args@[i]@,
                    args@[args.len() - 1]@,
                    dest_is_dir,
                ),
        },
{
    plan("cp", &args, dest_is_dir)
}

/// Where `cp` puts `src` when the destination operand is `dest`.
pub fn get_dest_path(src: &str, dest: &str, dest_is_dir: bool) -> (r: Result<String, CommandError>)
    ensures
        match dest_path_of("cp"@, src@, dest@, dest_is_dir) {
            Ok(p) => r matches Ok(d) && d@ == p,
            Err(m) => r matches Err(e) && e@ == m,
        },
{
    dest_path("cp", src, dest, dest_is_dir)
}

/// Refuses to copy a file onto itself: `same` tells whether the source and
/// its destination resolve to the same file.
pub fn check_same_file(src: &str, dest_path: &str, same: bool) -> (r: Result<(), CommandError>)
    ensures
        !same ==> r is Ok,
        same ==> (r matches Err(e) && e@ == ("cp"@, same_file_message(src@, dest_path@))),
{
    if same {
        let mut msg = String::new();
        push_chars(&mut msg, "'");
        push_chars(&mut msg, src);
        push_chars(&mut msg, "' and '");
        push_chars(&mut msg, dest_path);
        push_chars(&mut msg, "' are the same file");
        assert(msg@ =~= same_file_message(src@, dest_path@));
        Err(CommandError::new("cp", msg.as_str()))
    } else {
        Ok(())
    }
}

} // verus!
