//! `echo`: prints its arguments.
use vstd::prelude::*;

use crate::parser::{join_plain, string_views};
use crate::text::push_chars;

verus! {

/// The line `echo` prints: its arguments separated by single spaces.
pub fn run(args: Vec<String>) -> (s: String)
    ensures
        s@ == join_plain(string_views(args@)),
{
    let mut s = String::new();
    let mut i: usize = 0;
    while i < args.len()
        invariant
            i <= args.len(),
            s@ == join_plain(string_views(args@.take(i as int))),
        decreases args.len() - i,
    {
        let ghost before = s@;
        if i > 0 {
            crate::text::push_char(&mut s, ' ');
        }
        push_chars(&mut s, args[i].as_str());
        proof {
            let next = string_views(args@.take(i + 1));
            assert(next.drop_last() =~= string_views(args@.take(i as int)));
            assert(next.last() == args@[i as int]@);
            if i == 0 {
                assert(s@ =~= next[0]);
            } else {
                assert(s@ =~= before + seq![' '] + next.last());
            }
        }
        i += 1;
    }
    proof {
        assert(args@.take(args.len() as int) =~= args@);
    }
    s
}

} // verus!
