//! `help`: lists the built-in commands.
use vstd::prelude::*;

verus! {

/// The text `help` prints.
pub open spec fn help_text() -> Seq<char> {
    "osh - a minimalist Unix-like shell\n\nBuilt-in commands:\n  echo [args...]          Print arguments to stdout\n  cd [dir]                Change directory (default: $HOME)\n  pwd                     Print current directory\n  ls [-l] [-a] [-F]       List directory contents\n  cat [files...]          Print file contents\n  cp [srcs...] dest       Copy files\n  mv [srcs...] dest       Move files\n  rm [-r] [paths...]      Remove files or directories\n  mkdir [dirs...]         Create directories\n  help                    Show this help message\n  exit                    Exit the shell\n"@
}

/// The text `help` prints, one line per command.
pub fn run() -> (s: String)
    ensures
        s@ == help_text(),
{
    crate::text::copy_string(
        "osh - a minimalist Unix-like shell\n\nBuilt-in commands:\n  echo [args...]          Print arguments to stdout\n  cd [dir]                Change directory (default: $HOME)\n  pwd                     Print current directory\n  ls [-l] [-a] [-F]       List directory contents\n  cat [files...]          Print file contents\n  cp [srcs...] dest       Copy files\n  mv [srcs...] dest       Move files\n  rm [-r] [paths...]      Remove files or directories\n  mkdir [dirs...]         Create directories\n  help                    Show this help message\n  exit                    Exit the shell\n",
    )
}

} // verus!
