//! Paths as texts: their parent directory, and one path under another.
use crate::fmt::opt_view;
use crate::text::{chars_of, slice_string};
use vstd::prelude::*;

verus! {

/// A path that starts at the root.
pub open spec fn absolute(path: Seq<char>) -> bool {
    path.len() > 0 && path[0] == '/'
}

/// Whether the first component of a path is the current directory.
pub open spec fn starts_here(path: Seq<char>) -> bool {
    path.len() > 0 && path[0] == '.' && (path.len() == 1 || path[1] == '/')
}

/// Where the components behind the root, or behind a leading `.`, start.
pub open spec fn body_start(path: Seq<char>) -> int {
    if absolute(path) || starts_here(path) {
        1
    } else {
        0
    }
}

/// Where the component that ends at `k` starts: behind a slash, or where the
/// components start.
pub open spec fn component_start(path: Seq<char>, from: int, k: int) -> int
    decreases k - from,
{
    if k <= from || path[k - 1] == '/' {
        k
    } else {
        component_start(path, from, k - 1)
    }
}

/// A component that means nothing: it is empty or `.`.
pub open spec fn idle(path: Seq<char>, start: int, end: int) -> bool {
    start == end || (end == start + 1 && path[start] == '.')
}

/// Where what stands before a component ends: before the slash.
pub open spec fn before_component(from: int, start: int) -> int {
    if start > from {
        start - 1
    } else {
        start
    }
}

/// The end of the first `k` characters without what means nothing behind their
/// last component.
pub open spec fn trimmed_end(path: Seq<char>, from: int, k: int) -> int
    decreases k - from,
{
    if k <= from {
        k
    } else {
        let start = component_start(path, from, k);
        if start < from || start > k {
            k
        } else if idle(path, start, k) {
            trimmed_end(path, from, before_component(from, start))
        } else {
            k
        }
    }
}

/// A path without its last component. The root and the empty path have no
/// parent.
pub open spec fn parent_of(path: Seq<char>) -> Option<Seq<char>> {
    let from = body_start(path);
    let end = trimmed_end(path, from, path.len() as int);
    if end > from {
        let start = component_start(path, from, end);
        Some(path.take(trimmed_end(path, from, before_component(from, start))))
    } else if starts_here(path) {
        Some(Seq::empty())
    } else {
        None
    }
}

/// A path under a directory; an absolute path stays.
pub open spec fn joined_path(dir: Seq<char>, path: Seq<char>) -> Seq<char> {
    if absolute(path) {
        path
    } else if dir.len() > 0 && dir.last() != '/' {
        dir.push('/') + path
    } else {
        dir + path
    }
}

proof fn component_starts_before(path: Seq<char>, from: int, k: int)
    requires
        0 <= from <= k <= path.len(),
    ensures
        from <= component_start(path, from, k) <= k,
        k > from && component_start(path, from, k) == k ==> path[k - 1] == '/',
    decreases k - from,
{
    if k > from && path[k - 1] != '/' {
        component_starts_before(path, from, k - 1);
    }
}

fn find_component(cs: &Vec<char>, from: usize, k: usize) -> (start: usize)
    requires
        from <= k <= cs.len(),
    ensures
        start == component_start(cs@, from as int, k as int),
        from <= start <= k,
{
    let mut at: usize = k;
    while at > from && cs[at - 1] != '/'
        invariant
            from <= at <= k <= cs.len(),
            component_start(cs@, from as int, at as int) == component_start(
                cs@,
                from as int,
                k as int,
            ),
        decreases at,
    {
        at -= 1;
    }
    at
}

fn find_end(cs: &Vec<char>, from: usize, k: usize) -> (end: usize)
    requires
        from <= k <= cs.len(),
    ensures
        end == trimmed_end(cs@, from as int, k as int),
        from <= end <= k,
{
    let mut at: usize = k;
    while at > from
        invariant
            from <= at <= k <= cs.len(),
            trimmed_end(cs@, from as int, at as int) == trimmed_end(cs@, from as int, k as int),
        decreases at,
    {
        let start: usize = find_component(cs, from, at);
        proof {
            component_starts_before(cs@, from as int, at as int);
        }
        if start == at || (at == start + 1 && cs[start] == '.') {
            at = if start > from {
                start - 1
            } else {
                start
            };
        } else {
            return at;
        }
    }
    at
}

pub fn is_absolute(path: &str) -> (res: bool)
    ensures
        res == absolute(path@),
{
    let cs = chars_of(path);
    cs.len() > 0 && cs[0] == '/'
}

/// A path without its last component, if it has one.
pub fn parent_path(path: &str) -> (res: Option<String>)
    ensures
        opt_view(res) == parent_of(path@),
{
    let cs = chars_of(path);
    let here = cs.len() > 0 && cs[0] == '.' && (cs.len() == 1 || cs[1] == '/');
    let from: usize = if here || (cs.len() > 0 && cs[0] == '/') {
        1
    } else {
        0
    };
    let end: usize = find_end(&cs, from, cs.len());
    if end > from {
        let start: usize = find_component(&cs, from, end);
        let before: usize = if start > from {
            start - 1
        } else {
            start
        };
        let stop: usize = find_end(&cs, from, before);
        proof {
            assert(cs@.subrange(0, stop as int) =~= cs@.take(stop as int));
        }
        Some(slice_string(&cs, 0, stop))
    } else if here {
        Some(String::new())
    } else {
        None
    }
}

/// A path under a directory.
pub fn join_path(dir: &str, path: &str) -> (res: String)
    ensures
        res@ == joined_path(dir@, path@),
{
    if is_absolute(path) {
        return path.to_owned();
    }
    let cs = chars_of(dir);
    let mut out = dir.to_owned();
    if cs.len() > 0 && cs[cs.len() - 1] != '/' {
        out.push('/');
    }
    out.append(path);
    out
}

} // verus!
