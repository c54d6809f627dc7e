//! `rm`: removes files, and directories with `-r` (or `-R`); `-f` lets
//! paths that do not exist pass.
use vstd::prelude::*;

use crate::error::{io_message, CommandError, IoErrorKind, IoFailure, ShellError};
use crate::parser::string_views;
use crate::text::{chars_of, copy_string, push_chars};

verus! {

/// The options of `rm`: `-r` or `-R` (recursive), `-f` (force: a path that
/// does not exist is no error).
#[derive(Clone, Copy, PartialEq, Eq, Structural, Debug)]
pub struct RmFlags {
    pub recursive: bool,
    pub force: bool,
}

/// Whether an argument of `rm` holds options: `-` followed by something.
pub open spec fn rm_option_arg(a: Seq<char>) -> bool {
    a.len() > 1 && a[0] == '-'
}

/// The option characters of `rm`.
pub open spec fn rm_option_char(c: char) -> bool {
    c == 'r' || c == 'R' || c == 'f'
}

/// Whether all characters are options of `rm`.
pub open spec fn only_options(cs: Seq<char>) -> bool {
    forall|i: int| 0 <= i < cs.len() ==> rm_option_char(#[trigger] cs[i])
}

/// Whether the option characters `cs` ask for recursion.
pub open spec fn asks_recursive(cs: Seq<char>) -> bool {
    exists|i: int| 0 <= i < cs.len() && (#[trigger] cs[i] == 'r' || cs[i] == 'R')
}

/// Whether the option characters `cs` ask for force.
pub open spec fn asks_force(cs: Seq<char>) -> bool {
    exists|i: int| 0 <= i < cs.len() && #[trigger] cs[i] == 'f'
}

/// The flags `f` with the options `cs` added.
pub open spec fn with_options(f: RmFlags, cs: Seq<char>) -> RmFlags {
    RmFlags { recursive: f.recursive || asks_recursive(cs), force: f.force || asks_force(cs) }
}

/// The outcome of reading the arguments of `rm`: the flags and the paths, in
/// order; or the first argument holding a character that is no option.
pub open spec fn rm_scan(args: Seq<Seq<char>>) -> Result<(RmFlags, Seq<Seq<char>>), Seq<char>>
    decreases args.len(),
{
    if args.len() == 0 {
        Ok((RmFlags { recursive: false, force: false }, Seq::empty()))
    } else if rm_option_arg(args[0]) {
        if only_options(args[0].drop_first()) {
            match rm_scan(args.drop_first()) {
                Ok((f, ps)) => Ok((with_options(f, args[0].drop_first()), ps)),
                Err(a) => Err(a),
            }
        } else {
            Err(args[0])
        }
    } else {
        match rm_scan(args.drop_first()) {
            Ok((f, ps)) => Ok((f, seq![args[0]] + ps)),
            Err(a) => Err(a),
        }
    }
}

/// The message for an argument with an unknown option.
pub open spec fn rm_invalid_message(arg: Seq<char>) -> Seq<char> {
    "invalid option: '"@ + arg + "'"@
}

/// A scan result after arguments already read gave `flags` and `paths`.
pub open spec fn rm_after(flags: RmFlags, paths: Seq<Seq<char>>, r: Result<(RmFlags, Seq<Seq<char>>), Seq<char>>) -> Result<(RmFlags, Seq<Seq<char>>), Seq<char>> {
    match r {
        Ok((f, ps)) => Ok((RmFlags { recursive: flags.recursive || f.recursive, force: flags.force || f.force }, paths + ps)),
        Err(a) => Err(a),
    }
}

/// Options are never taken for paths: every path `rm` reads is an argument
/// that does not start with `-`, or is `-` alone.
pub proof fn law_rm_options_are_not_paths(args: Seq<Seq<char>>)
    ensures
        rm_scan(args) matches Ok((_, ps)) ==> forall|i: int|
            0 <= i < ps.len() ==> !rm_option_arg(#[trigger] ps[i]) && args.contains(ps[i]),
    decreases args.len(),
{
    if args.len() > 0 {
        law_rm_options_are_not_paths(args.drop_first());
        if let Ok((_, ps)) = rm_scan(args) {
            assert forall|i: int| 0 <= i < ps.len() implies !rm_option_arg(#[trigger] ps[i]) && args.contains(ps[i]) by {
                if rm_option_arg(args[0]) {
                    let (_, ps2) = rm_scan(args.drop_first())->Ok_0;
                    assert(ps == ps2);
                    assert(args.drop_first().contains(ps[i]));
                    let k = choose|k: int| 0 <= k < args.drop_first().len() && args.drop_first()[k] == ps[i];
                    assert(args[k + 1] == ps[i]);
                } else {
                    let (_, ps2) = rm_scan(args.drop_first())->Ok_0;
                    assert(ps == seq![args[0]] + ps2);
                    if i == 0 {
                        assert(args[0] == ps[i]);
                    } else {
                        assert(ps[i] == ps2[i - 1]);
                        let k = choose|k: int| 0 <= k < args.drop_first().len() && args.drop_first()[k] == ps[i];
                        assert(args[k + 1] == ps[i]);
                    }
                }
            };
        }
    }
}

/// Reads the arguments of `rm`: its flags, and the paths.
pub fn parse_args(args: &[String]) -> (r: Result<(RmFlags, Vec<String>), ShellError>)
    ensures
        match rm_scan(string_views(args@)) {
            Ok((f, ps)) => r matches Ok((g, v)) && g == f && string_views(v@) == ps,
            Err(a) => r matches Err(ShellError::One(e)) && e@ == ("rm"@, rm_invalid_message(a)),
        },
{
    let ghost views = string_views(args@);
    let mut recursive = false;
    let mut force = false;
    let mut paths: Vec<String> = Vec::new();
    let mut i: usize = 0;
    proof {
        assert(views.skip(0) =~= views);
        match rm_scan(views) {
            Ok((f, ps)) => {
                assert(Seq::<Seq<char>>::empty() + ps =~= ps);
            },
            Err(_) => {},
        }
    }
    while i < args.len()
        invariant
            i <= args.len(),
            views == string_views(args@),
            rm_scan(views) == rm_after(RmFlags { recursive, force }, string_views(paths@), rm_scan(views.skip(i as int))),
        decreases args.len() - i,
    {
        let ghost rest = views.skip(i as int);
        proof {
            assert(rest.len() > 0);
            assert(rest[0] == args@[i as int]@);
            assert(rest.drop_first() =~= views.skip(i + 1));
        }
        let arg = chars_of(args[i].as_str());
        if arg.len() > 1 && arg[0] == '-' {
            let mut has_r = false;
            let mut has_f = false;
            let mut j: usize = 1;
            while j < arg.len()
                invariant
                    1 <= j <= arg.len(),
                    i < args.len(),
                    arg@ == args@[i as int]@,
                    rest.len() > 0,
                    rest[0] == arg@,
                    arg@.len() > 1,
                    arg@[0] == '-',
                    views == string_views(args@),
                    rest == views.skip(i as int),
                    rm_scan(views) == rm_after(RmFlags { recursive, force }, string_views(paths@), rm_scan(rest)),
                    forall|k: int| 1 <= k < j ==> rm_option_char(#[trigger] arg@[k]),
                    has_r <==> exists|k: int| 1 <= k < j && (#[trigger] arg@[k] == 'r' || arg@[k] == 'R'),
                    has_f <==> exists|k: int| 1 <= k < j && #[trigger] arg@[k] == 'f',
                decreases arg.len() - j,
            {
                let c = arg[j];
                if c == 'r' || c == 'R' {
                    has_r = true;
                } else if c == 'f' {
                    has_f = true;
                } else {
                    proof {
                        assert(arg@.drop_first()[j - 1] == c);
                        assert(!rm_option_char(arg@.drop_first()[j - 1]));
                        assert(!only_options(rest[0].drop_first()));
                        assert(rm_option_arg(rest[0]));
                        assert(rm_scan(rest) == Err::<(RmFlags, Seq<Seq<char>>), Seq<char>>(rest[0]));
                    }
                    let mut msg = String::new();
                    push_chars(&mut msg, "invalid option: '");
                    push_chars(&mut msg, args[i].as_str());
                    push_chars(&mut msg, "'");
                    assert(msg@ =~= rm_invalid_message(args@[i as int]@));
                    return Err(ShellError::one("rm", msg.as_str()));
                }
                j += 1;
            }
            proof {
                let cs = rest[0].drop_first();
                assert(only_options(cs)) by {
                    assert forall|k: int| 0 <= k < cs.len() implies rm_option_char(#[trigger] cs[k]) by {
                        assert(arg@[k + 1] == cs[k]);
                    };
                };
                assert(has_r == asks_recursive(cs)) by {
                    if has_r {
                        let k = choose|k: int| 1 <= k < j && (#[trigger] arg@[k] == 'r' || arg@[k] == 'R');
                        assert(cs[k - 1] == arg@[k]);
                    }
                    if asks_recursive(cs) {
                        let k = choose|k: int| 0 <= k < cs.len() && (#[trigger] cs[k] == 'r' || cs[k] == 'R');
                        assert(arg@[k + 1] == cs[k]);
                    }
                };
                assert(has_f == asks_force(cs)) by {
                    if has_f {
                        let k = choose|k: int| 1 <= k < j && #[trigger] arg@[k] == 'f';
                        assert(cs[k - 1] == arg@[k]);
                    }
                    if asks_force(cs) {
                        let k = choose|k: int| 0 <= k < cs.len() && #[trigger] cs[k] == 'f';
                        assert(arg@[k + 1] == cs[k]);
                    }
                };
                match rm_scan(rest.drop_first()) {
                    Ok((f, ps)) => {},
                    Err(_) => {},
                }
            }
            recursive = recursive || has_r;
            force = force || has_f;
        } else {
            let ghost before = paths@;
            paths.push(copy_string(args[i].as_str()));
            proof {
                assert(string_views(paths@) =~= string_views(before).push(rest[0]));
                match rm_scan(rest.drop_first()) {
                    Ok((f, ps)) => {
                        assert(string_views(before) + (seq![rest[0]] + ps) =~= string_views(paths@) + ps);
                    },
                    Err(_) => {},
                }
            }
        }
        i += 1;
    }
    proof {
        assert(views.skip(i as int) =~= Seq::<Seq<char>>::empty());
        assert(string_views(paths@) + Seq::<Seq<char>>::empty() =~= string_views(paths@));
    }
    Ok((RmFlags { recursive, force }, paths))
}

/// Reads the arguments of `rm`; no path at all is the error `Missing operand`.
pub fn run(args: Vec<String>) -> (r: Result<(RmFlags, Vec<String>), ShellError>)
    ensures
        match rm_scan(string_views(args@)) {
            Ok((f, ps)) => if ps.len() == 0 {
                r matches Err(ShellError::One(e)) && e@ == ("rm"@, "Missing operand"@)
            } else {
                r matches Ok((g, v)) && g == f && string_views(v@) == ps
            },
            Err(a) => r matches Err(ShellError::One(e)) && e@ == ("rm"@, rm_invalid_message(a)),
        },
{
    let (flags, paths) = parse_args(args.as_slice())?;
    if paths.len() == 0 {
        return Err(ShellError::one("rm", "Missing operand"));
    }
    Ok((flags, paths))
}

/// What removing `path` came to, from the result of the removal: success, or
/// the error for the failure; under `-f` (`force`) a path that does not exist
/// is no error.
pub fn removed(path: &str, result: Result<(), IoFailure>, force: bool) -> (r: Result<(), CommandError>)
    ensures
        match result {
            Ok(_) => r is Ok,
            Err(f) => if force && f.kind == IoErrorKind::NotFound {
                r is Ok
            } else {
                r matches Err(e) && e@ == ("rm"@, io_message(path@, f.kind, f.detail@))
            },
        },
{
    match result {
        Ok(()) => Ok(()),
        Err(f) => {
            if force && f.kind == IoErrorKind::NotFound {
                Ok(())
            } else {
                Err(CommandError::new_io("rm", path, &f))
            }
        },
    }
}

/// What `rm` does with one path.
pub enum Removal {
    /// Remove the directory and everything in it.
    Tree,
    /// Remove the file.
    File,
    /// Leave it, with this error.
    Refused(CommandError),
}

/// What `rm` does with `path`: a directory is removed with its contents under
/// `-r` and refused otherwise; anything else is removed as a file.
pub fn removal(path: &str, is_dir: bool, recursive: bool) -> (r: Removal)
    ensures
        is_dir && recursive ==> r is Tree,
        !is_dir ==> r is File,
        is_dir && !recursive ==> (r matches Removal::Refused(e) && e@ == ("rm"@, path@ + ": Is a directory"@)),
{
    if is_dir {
        if recursive {
            Removal::Tree
        } else {
            let mut msg = copy_string(path);
            push_chars(&mut msg, ": Is a directory");
            Removal::Refused(CommandError::new("rm", msg.as_str()))
        }
    } else {
        Removal::File
    }
}

} // verus!
