//! Path names as plain strings: the last component, and joining.
use vstd::prelude::*;

use crate::text::{chars_of, push_char, push_chars, string_of};

verus! {

/// Where the last segment of `p` begins: just after its last `/`, or at 0.
pub open spec fn segment_start(p: Seq<char>) -> nat
    decreases p.len(),
{
    if p.len() == 0 {
        0
    } else if p.last() == '/' {
        p.len()
    } else {
        segment_start(p.drop_last())
    }
}

/// The last component of `p` that is not `.`: trailing slashes and `.`
/// components are skipped; `None` when nothing else is left.
pub open spec fn last_component(p: Seq<char>) -> Option<Seq<char>>
    decreases p.len(),
{
    if p.len() == 0 {
        None
    } else if p.last() == '/' {
        last_component(p.drop_last())
    } else {
        let i = segment_start(p);
        let seg = p.subrange(i as int, p.len() as int);
        if seg == seq!['.'] {
            if i < p.len() {
                last_component(p.subrange(0, i as int))
            } else {
                None
            }
        } else {
            Some(seg)
        }
    }
}

/// The final name of a path (`Path::file_name`): its last component, unless
/// that is `..` or there is none (as for `/`, `.` or the empty path).
pub open spec fn file_name_of(p: Seq<char>) -> Option<Seq<char>> {
    match last_component(p) {
        Some(seg) => if seg == seq!['.', '.'] {
            None
        } else {
            Some(seg)
        },
        None => None,
    }
}

/// `dir` joined with the relative name `name` (`Path::join`): a `/` goes
/// between them unless `dir` is empty or already ends with one.
pub open spec fn join_of(dir: Seq<char>, name: Seq<char>) -> Seq<char> {
    if dir.len() == 0 || dir.last() == '/' {
        dir + name
    } else {
        dir + seq!['/'] + name
    }
}

proof fn lemma_segment_start_prefix(p: Seq<char>, start: int)
    requires
        0 <= start <= p.len(),
        forall|k: int| start <= k < p.len() ==> p[k] != '/',
    ensures
        segment_start(p) == segment_start(p.take(start)),
    decreases p.len() - start,
{
    if start < p.len() {
        lemma_segment_start_prefix(p.drop_last(), start);
        assert(p.drop_last().take(start) =~= p.take(start));
    } else {
        assert(p.take(start) =~= p);
    }
}

proof fn lemma_segment_start_suffix(a: Seq<char>, name: Seq<char>)
    requires
        forall|k: int| 0 <= k < name.len() ==> name[k] != '/',
        a.len() == 0 || a.last() == '/',
    ensures
        segment_start(a + name) == a.len(),
    decreases name.len(),
{
    if name.len() == 0 {
        assert(a + name =~= a);
    } else {
        lemma_segment_start_suffix(a, name.drop_last());
        assert((a + name).drop_last() =~= a + name.drop_last());
        assert((a + name).last() == name.last());
    }
}

/// Joining keeps the name: a plain name (not empty, without `/`, neither
/// `.` nor `..`) joined to any directory is the final name of the result,
/// which is how `cp` and `mv` keep a file's name when they put it into a
/// directory.
pub proof fn law_join_keeps_file_name(dir: Seq<char>, name: Seq<char>)
    requires
        name.len() > 0,
        forall|k: int| 0 <= k < name.len() ==> name[k] != '/',
        name != seq!['.'],
        name != seq!['.', '.'],
    ensures
        file_name_of(join_of(dir, name)) == Some(name),
{
    let a = if dir.len() == 0 || dir.last() == '/' { dir } else { dir + seq!['/'] };
    assert(join_of(dir, name) == a + name);
    assert(a.len() == 0 || a.last() == '/');
    lemma_segment_start_suffix(a, name);
    let p = a + name;
    assert(p.last() == name.last());
    assert(p.subrange(a.len() as int, p.len() as int) =~= name);
}

/// The final name of `p`.
pub fn file_name(p: &str) -> (r: Option<String>)
    ensures
        match r {
            Some(s) => file_name_of(p@) == Some(s@),
            None => file_name_of(p@) is None,
        },
{
    let cs = chars_of(p);
    let mut end: usize = cs.len();
    proof {
        assert(cs@.take(end as int) =~= p@);
    }
    loop
        invariant
            end <= cs.len(),
            cs@ == p@,
            last_component(p@) == last_component(cs@.take(end as int)),
        decreases end,
    {
        let ghost end0 = end;
        while end > 0 && cs[end - 1] == '/'
            invariant
                end <= end0,
                end <= cs.len(),
                cs@ == p@,
                last_component(p@) == last_component(cs@.take(end as int)),
            decreases end,
        {
            proof {
                assert(cs@.take(end as int).drop_last() =~= cs@.take(end - 1));
            }
            end -= 1;
        }
        if end == 0 {
            return None;
        }
        let mut start: usize = end;
        while start > 0 && cs[start - 1] != '/'
            invariant
                start <= end,
                end <= end0,
                end <= cs.len(),
                end > 0,
                cs@[end - 1] != '/',
                forall|k: int| start <= k < end ==> cs@[k] != '/',
            decreases start,
        {
            start -= 1;
        }
        assert(start < end);
        let ghost q = cs@.take(end as int);
        proof {
            lemma_segment_start_prefix(q, start as int);
            assert(q.take(start as int) =~= cs@.take(start as int));
            if start > 0 {
                assert(cs@.take(start as int).last() == '/');
            }
            assert(segment_start(q) == start);
            assert(q.subrange(start as int, end as int) =~= cs@.subrange(start as int, end as int));
        }
        let seg = vstd::slice::slice_subrange(cs.as_slice(), start, end);
        if end - start == 1 && cs[start] == '.' {
            proof {
                assert(seg@ =~= seq!['.']);
                assert(q.subrange(0, start as int) =~= cs@.take(start as int));
            }
            end = start;
        } else {
            proof {
                if seg@ == seq!['.'] {
                    assert(seg@[0] == cs@[start as int]);
                }
            }
            if end - start == 2 && cs[start] == '.' && cs[start + 1] == '.' {
                assert(seg@ =~= seq!['.', '.']);
                return None;
            }
            proof {
                if seg@ == seq!['.', '.'] {
                    assert(seg@.len() == 2);
                    assert(seg@[0] == cs@[start as int]);
                }
            }
            return Some(string_of(seg));
        }
    }
}

/// `dir` joined with the relative name `name`.
pub fn join(dir: &str, name: &str) -> (r: String)
    ensures
        r@ == join_of(dir@, name@),
{
    let cs = chars_of(dir);
    let mut r = string_of(cs.as_slice());
    if cs.len() > 0 && cs[cs.len() - 1] != '/' {
        push_char(&mut r, '/');
    }
    push_chars(&mut r, name);
    r
}

} // verus!
