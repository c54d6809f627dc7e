//! `cat`: prints files.
use vstd::prelude::*;

use crate::error::ShellError;
use crate::parser::string_views;

verus! {

/// The files `cat` prints, in order; none at all is the error `Missing operand`.
pub fn run(args: Vec<String>) -> (r: Result<Vec<String>, ShellError>)
    ensures
        args.len() == 0 ==> (r matches Err(ShellError::One(e)) && e@ == ("cat"@, "Missing operand"@)),
        args.len() > 0 ==> (r matches Ok(v) && string_views(v@) == string_views(args@)),
{
    if args.len() == 0 {
        return Err(ShellError::one("cat", "Missing operand"));
    }
    Ok(args)
}

} // verus!
