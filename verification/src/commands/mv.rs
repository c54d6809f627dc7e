//! `mv`: moves files.
use vstd::prelude::*;

use crate::error::{CommandError, IoErrorKind, ShellError};
use crate::parser::string_views;
use super::transfer::{dest_path, dest_path_of, operands_error, plan, transfer_is, Transfer};

verus! {

/// Checks the operands of `mv` and works out where each source goes (see
/// `transfer::plan`); `dest_is_dir` tells whether the last operand is a
/// directory.  The caller then renames each source whose destination is known.
pub fn run(args: Vec<String>, dest_is_dir: bool) -> (r: Result<Vec<Transfer>, ShellError>)
    ensures
        match operands_error(string_views(args@), dest_is_dir) {
            Some(m) => r matches Err(ShellError::One(e)) && e@ == ("mv"@, m),
            None => r matches Ok(v) && v.len() == args.len() - 1 && forall|i: int|
                0 <= i < v.len() ==> transfer_is(
                    #[trigger] v@[i],
                    "mv"@,
                    args@[i]@,
                    args@[args.len() - 1]@,
                    dest_is_dir,
                ),
        },
{
    plan("mv", &args, dest_is_dir)
}

/// Where `mv` puts `src` when the destination operand is `dest`.
pub fn get_dest_path(src: &str, dest: &str, dest_is_dir: bool) -> (r: Result<String, CommandError>)
    ensures
        match dest_path_of("mv"@, src@, dest@, dest_is_dir) {
            Ok(p) => r matches Ok(d) && d@ == p,
            Err(m) => r matches Err(e) && e@ == m,
        },
{
    dest_path("mv", src, dest, dest_is_dir)
}

/// Whether a failed rename is retried as a copy followed by removing the
/// source: exactly when source and destination lie on different file systems.
pub fn copies_across_devices(kind: IoErrorKind) -> (r: bool)
    ensures
        r == (kind == IoErrorKind::CrossesDevices),
{
    match kind {
        IoErrorKind::CrossesDevices => true,
        _ => false,
    }
}

} // verus!
