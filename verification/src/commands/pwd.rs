//! `pwd`: prints the current directory.
use vstd::prelude::*;

use crate::error::ShellError;

verus! {

/// What `pwd` prints: the current directory; when the system could not tell
/// it, an error of `pwd` carrying the system's description.
pub fn run(cwd: Result<String, String>) -> (r: Result<String, ShellError>)
    ensures
        cwd matches Ok(c) ==> (r matches Ok(p) && p@ == c@),
        cwd matches Err(d) ==> (r matches Err(ShellError::One(e)) && e@ == ("pwd"@, d@)),
{
    match cwd {
        Ok(c) => Ok(c),
        Err(d) => Err(ShellError::one("pwd", d.as_str())),
    }
}

} // verus!
