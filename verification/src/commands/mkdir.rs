//! `mkdir`: creates directories.
use vstd::prelude::*;

use crate::error::ShellError;
use crate::parser::string_views;

verus! {

/// The directories `mkdir` creates, in order; none at all is the error
/// `Missing operand`.
pub fn run(args: Vec<String>) -> (r: Result<Vec<String>, ShellError>)
    ensures
        args.len() == 0 ==> (r matches Err(ShellError::One(e)) && e@ == ("mkdir"@, "Missing operand"@)),
        args.len() > 0 ==> (r matches Ok(v) && string_views(v@) == string_views(args@)),
{
    if args.len() == 0 {
        return Err(ShellError::one("mkdir", "Missing operand"));
    }
    Ok(args)
}

} // verus!
