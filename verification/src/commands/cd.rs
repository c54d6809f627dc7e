//! `cd`: changes the current directory.
use vstd::prelude::*;

use crate::error::ShellError;
use crate::text::copy_string;

verus! {

/// The directory `cd` changes to: the only argument, or the home directory
/// when there is none.  No home directory, or more than one argument, is an
/// error.
pub fn run(args: Vec<String>, home: Option<String>) -> (r: Result<String, ShellError>)
    ensures
        args.len() == 0 && home is None ==> (r matches Err(ShellError::One(e)) && e@ == ("cd"@, "HOME not set"@)),
        args.len() == 0 && home is Some ==> (r matches Ok(p) && p@ == home->0@),
        args.len() == 1 ==> (r matches Ok(p) && p@ == args@[0]@),
        args.len() > 1 ==> (r matches Err(ShellError::One(e)) && e@ == ("cd"@, "too many arguments"@)),
{
    if args.len() == 0 {
        match home {
            Some(h) => Ok(h),
            None => Err(ShellError::one("cd", "HOME not set")),
        }
    } else if args.len() == 1 {
        Ok(copy_string(args[0].as_str()))
    } else {
        Err(ShellError::one("cd", "too many arguments"))
    }
}

} // verus!
