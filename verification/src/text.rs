//! Characters of strings: conversions, searching and comparison.
use vstd::prelude::*;

verus! {

/// `String::push` appends one character.
pub assume_specification[ std::string::String::push ](s: &mut std::string::String, c: char)
    ensures
        final(s)@ == old(s)@.push(c),
;

/// The characters of `s`, in order.
pub fn chars_of(s: &str) -> (out: Vec<char>)
    ensures
        out@ == s@,
{
    let mut out: Vec<char> = Vec::new();
    for c in it: s.chars()
        invariant
            it.seq() == s@,
            out@ == s@.take(it.index() as int),
    {
        proof {
            assert(s@.take(it.index() as int + 1) == s@.take(it.index() as int).push(
                s@[it.index() as int],
            ));
        }
        out.push(c);
    }
    proof {
        assert(s@.take(s@.len() as int) == s@);
    }
    out
}

/// The string whose characters are `cs`.
pub fn string_of(cs: &Vec<char>) -> (out: String)
    ensures
        out@ == cs@,
{
    slice_string(cs, 0, cs.len())
}

/// The string made of the characters `from..to` of `cs`.
pub fn slice_string(cs: &Vec<char>, from: usize, to: usize) -> (out: String)
    requires
        from <= to <= cs.len(),
    ensures
        out@ == cs@.subrange(from as int, to as int),
{
    let mut out = String::new();
    let mut i: usize = from;
    proof {
        assert(out@ == cs@.subrange(from as int, from as int));
    }
    while i < to
        invariant
            from <= i <= to <= cs.len(),
            out@ == cs@.subrange(from as int, i as int),
        decreases to - i,
    {
        out.push(cs[i]);
        proof {
            assert(cs@.subrange(from as int, i + 1) == cs@.subrange(from as int, i as int).push(
                cs@[i as int],
            ));
        }
        i += 1;
    }
    out
}

/// `pat` stands at position `i` of `cs`.
pub open spec fn matches_at(cs: Seq<char>, i: int, pat: Seq<char>) -> bool {
    0 <= i && i + pat.len() <= cs.len() && cs.subrange(i, i + pat.len()) == pat
}

/// The first position at or after `i` at which `pat` stands.
pub open spec fn find_from(cs: Seq<char>, i: int, pat: Seq<char>) -> Option<int>
    decreases cs.len() - i,
{
    if i + pat.len() > cs.len() || i < 0 {
        None
    } else if matches_at(cs, i, pat) {
        Some(i)
    } else if i >= cs.len() {
        None
    } else {
        find_from(cs, i + 1, pat)
    }
}

/// What `find_from` finds is an occurrence, and no earlier one exists.
pub proof fn find_from_is_first(cs: Seq<char>, i: int, pat: Seq<char>)
    requires
        0 <= i,
    ensures
        match find_from(cs, i, pat) {
            Some(k) => i <= k && matches_at(cs, k, pat) && forall|j: int|
                i <= j < k ==> !matches_at(cs, j, pat),
            None => forall|j: int| i <= j ==> !matches_at(cs, j, pat),
        },
    decreases cs.len() - i,
{
    if i + pat.len() > cs.len() {
    } else if matches_at(cs, i, pat) {
    } else if i >= cs.len() {
    } else {
        find_from_is_first(cs, i + 1, pat);
    }
}

/// Whether `pat` stands at position `i` of `cs`.
pub fn starts_with(cs: &Vec<char>, i: usize, pat: &str) -> (res: bool)
    ensures
        res == matches_at(cs@, i as int, pat@),
{
    let n: usize = pat.unicode_len();
    if i > cs.len() || cs.len() - i < n {
        return false;
    }
    let mut k: usize = 0;
    while k < n
        invariant
            k <= n == pat@.len(),
            i + n <= cs.len(),
            forall|j: int| 0 <= j < k ==> cs@[i + j] == pat@[j],
        decreases n - k,
    {
        if cs[i + k] != pat.get_char(k) {
            proof {
                assert(cs@.subrange(i as int, i + n)[k as int] != pat@[k as int]);
            }
            return false;
        }
        k += 1;
    }
    proof {
        assert(cs@.subrange(i as int, i + n) =~= pat@);
    }
    true
}

/// The first position at or after `i` at which `pat` stands.
pub fn find(cs: &Vec<char>, i: usize, pat: &str) -> (res: Option<usize>)
    requires
        pat@.len() > 0,
    ensures
        match res {
            Some(k) => find_from(cs@, i as int, pat@) == Some(k as int),
            None => find_from(cs@, i as int, pat@) is None,
        },
{
    let mut k: usize = i;
    while k < cs.len()
        invariant
            i <= k,
            pat@.len() > 0,
            find_from(cs@, k as int, pat@) == find_from(cs@, i as int, pat@),
        decreases cs.len() - k,
    {
        if starts_with(cs, k, pat) {
            return Some(k);
        }
        k += 1;
    }
    None
}

/// Whether two strings hold the same characters.
pub fn same_text(a: &str, b: &str) -> (res: bool)
    ensures
        res == (a@ == b@),
{
    let cs = chars_of(a);
    let n: usize = b.unicode_len();
    if cs.len() != n {
        return false;
    }
    let res = starts_with(&cs, 0, b);
    proof {
        assert(a@.subrange(0, a@.len() as int) == a@);
    }
    res
}

} // verus!
