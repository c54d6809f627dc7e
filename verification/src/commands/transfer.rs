//! What `cp` and `mv` share: checking the operands and working out where
//! each source goes.
use vstd::prelude::*;

use crate::error::{CommandError, ShellError};
use crate::parser::string_views;
use crate::path::{file_name, file_name_of, join, join_of};
use crate::text::{copy_string, push_chars};

verus! {

/// One source of a copy or move, and where it goes (or why it cannot).
pub struct Transfer {
    pub src: String,
    pub dest: Result<String, CommandError>,
}

/// Where the source `src` goes when the destination operand is `dest`: into
/// it under the source's final name when `dest` is a directory (an error when
/// the source has no final name), else to `dest` itself.
pub open spec fn dest_path_of(cmd: Seq<char>, src: Seq<char>, dest: Seq<char>, dest_is_dir: bool) -> Result<
    Seq<char>,
    (Seq<char>, Seq<char>),
> {
    if dest_is_dir {
        match file_name_of(src) {
            Some(f) => Ok(join_of(dest, f)),
            None => Err((cmd, src + ": Invalid filename"@)),
        }
    } else {
        Ok(dest)
    }
}

/// Whether a transfer is what `dest_path_of` says.
pub open spec fn transfer_is(t: Transfer, cmd: Seq<char>, src: Seq<char>, dest: Seq<char>, dest_is_dir: bool) -> bool {
    &&& t.src@ == src
    &&& match dest_path_of(cmd, src, dest, dest_is_dir) {
        Ok(p) => t.dest matches Ok(d) && d@ == p,
        Err(m) => t.dest matches Err(e) && e@ == m,
    }
}

/// The error in the operands of `cp` or `mv`, if any: none at all, no
/// destination, or several sources while the destination is no directory.
pub open spec fn operands_error(args: Seq<Seq<char>>, dest_is_dir: bool) -> Option<Seq<char>> {
    if args.len() == 0 {
        Some("Missing operand"@)
    } else if args.len() < 2 {
        Some("Missing destination"@)
    } else if args.len() - 1 > 1 && !dest_is_dir {
        Some(args.last() + ": Not a directory"@)
    } else {
        None
    }
}

/// Where `src` goes when the destination operand is `dest`.
pub fn dest_path(cmd: &str, src: &str, dest: &str, dest_is_dir: bool) -> (r: Result<String, CommandError>)
    ensures
        match dest_path_of(cmd@, src@, dest@, dest_is_dir) {
            Ok(p) => r matches Ok(d) && d@ == p,
            Err(m) => r matches Err(e) && e@ == m,
        },
{
    if dest_is_dir {
        match file_name(src) {
            Some(f) => Ok(join(dest, f.as_str())),
            None => {
                let mut msg = copy_string(src);
                push_chars(&mut msg, ": Invalid filename");
                Err(CommandError::new(cmd, msg.as_str()))
            },
        }
    } else {
        Ok(copy_string(dest))
    }
}

/// Checks the operands of `cp` or `mv` (named `cmd`) and works out where each
/// source goes; `dest_is_dir` tells whether the last operand is a directory.
pub fn plan(cmd: &str, args: &Vec<String>, dest_is_dir: bool) -> (r: Result<Vec<Transfer>, ShellError>)
    ensures
        match operands_error(string_views(args@), dest_is_dir) {
            Some(m) => r matches Err(ShellError::One(e)) && e@ == (cmd@, m),
            None => r matches Ok(v) && v.len() == args.len() - 1 && forall|i: int|
                0 <= i < v.len() ==> transfer_is(
                    #[trigger] v@[i],
                    cmd@,
                    args@[i]@,
                    args@[args.len() - 1]@,
                    dest_is_dir,
                ),
        },
{
    let ghost views = string_views(args@);
    if args.len() == 0 {
        return Err(ShellError::one(cmd, "Missing operand"));
    }
    if args.len() < 2 {
        return Err(ShellError::one(cmd, "Missing destination"));
    }
    let dest = &args[args.len() - 1];
    proof {
        assert(views.last() == dest@);
    }
    if args.len() - 1 > 1 && !dest_is_dir {
        let mut msg = copy_string(dest.as_str());
        push_chars(&mut msg, ": Not a directory");
        return Err(ShellError::one(cmd, msg.as_str()));
    }
    let mut v: Vec<Transfer> = Vec::new();
    let mut i: usize = 0;
    while i < args.len() - 1
        invariant
            args.len() >= 2,
            i <= args.len() - 1,
            v.len() == i,
            dest@ == args@[args.len() - 1]@,
            forall|j: int| 0 <= j < i ==> transfer_is(#[trigger] v@[j], cmd@, args@[j]@, dest@, dest_is_dir),
        decreases args.len() - 1 - i,
    {
        let src = copy_string(args[i].as_str());
        let d = dest_path(cmd, args[i].as_str(), dest.as_str(), dest_is_dir);
        v.push(Transfer { src, dest: d });
        proof {
            assert forall|j: int| 0 <= j < i + 1 implies transfer_is(#[trigger] v@[j], cmd@, args@[j]@, dest@, dest_is_dir) by {
            };
        }
        i += 1;
    }
    Ok(v)
}

/// The error for a source and destination that are the same file.
pub open spec fn same_file_message(src: Seq<char>, dest: Seq<char>) -> Seq<char> {
    "'"@ + src + "' and '"@ + dest + "' are the same file"@
}

} // verus!
