//! Path reasoning over plain strings.
//!
//! Paths are `/`-separated strings. These helpers define what it means for
//! one path to lie under another, what the components of a path are, and
//! how paths are ordered, together with executable functions proved against
//! those definitions.

use vstd::prelude::*;

verus! {

use vstd::string::StrSliceExecFns;
use vstd::string::StringExecFns;

/// `pre` is an initial segment of `s`.
pub open spec fn is_prefix_of(pre: Seq<char>, s: Seq<char>) -> bool {
    pre.len() <= s.len() && s.take(pre.len() as int) == pre
}

/// The prefix that all paths inside directory `dir` share: `dir` itself when
/// it already ends in `/`, otherwise `dir` with a `/` appended.
pub open spec fn dir_prefix(dir: Seq<char>) -> Seq<char> {
    if dir.len() > 0 && dir[dir.len() - 1] == '/' {
        dir
    } else {
        dir.push('/')
    }
}

/// `path` names something strictly inside directory `dir`.
pub open spec fn strictly_under(dir: Seq<char>, path: Seq<char>) -> bool {
    is_prefix_of(dir_prefix(dir), path)
}

/// The half-open index range `[i, j)` delimits one `/`-separated component
/// of `s`.
pub open spec fn is_component_at(s: Seq<char>, i: int, j: int) -> bool {
    &&& 0 <= i <= j <= s.len()
    &&& (i == 0 || s[i - 1] == '/')
    &&& (j == s.len() || s[j] == '/')
    &&& forall|k: int| i <= k < j ==> s[k] != '/'
}

/// Some `/`-separated component of `s` is exactly `name`.
pub open spec fn has_component(s: Seq<char>, name: Seq<char>) -> bool {
    exists|i: int, j: int| is_component_at(s, i, j) && s.subrange(i, j) == name
}

/// Number of `/` characters in `s`.
pub open spec fn slash_count(s: Seq<char>) -> nat
    decreases s.len(),
{
    if s.len() == 0 {
        0
    } else {
        slash_count(s.drop_last()) + if s[s.len() - 1] == '/' { 1nat } else { 0nat }
    }
}

/// Depth of `path` relative to `root`: 0 for the root itself, 1 for an
/// immediate child, and so on; 0 when `path` does not lie under `root`.
pub open spec fn rel_depth(root: Seq<char>, path: Seq<char>) -> nat {
    if path == root {
        0
    } else if strictly_under(root, path) {
        1 + slash_count(path.skip(dir_prefix(root).len() as int))
    } else {
        0
    }
}

/// `path` is an immediate child of directory `dir`: strictly under it with
/// no further separator.
pub open spec fn immediate_child_of(dir: Seq<char>, path: Seq<char>) -> bool {
    strictly_under(dir, path) && forall|k: int|
        dir_prefix(dir).len() <= k < path.len() ==> path[k] != '/'
}

/// Lexicographic order on character sequences, by code point.
pub open spec fn lex_le(a: Seq<char>, b: Seq<char>) -> bool
    decreases a.len(),
{
    if a.len() == 0 {
        true
    } else if b.len() == 0 {
        false
    } else if a[0] == b[0] {
        lex_le(a.skip(1), b.skip(1))
    } else {
        (a[0] as u32) < (b[0] as u32)
    }
}

/// Whether `s` begins with `pre`.
pub fn str_starts_with(s: &str, pre: &str) -> (r: bool)
    ensures
        r == is_prefix_of(pre@, s@),
{
    let n = pre.unicode_len();
    let m = s.unicode_len();
    if n > m {
        return false;
    }
    let mut i: usize = 0;
    while i < n
        invariant
            i <= n,
            n == pre@.len(),
            n <= m,
            m == s@.len(),
            forall|j: int| 0 <= j < i ==> s@[j] == pre@[j],
        decreases n - i,
    {
        if s.get_char(i) != pre.get_char(i) {
            assert(!is_prefix_of(pre@, s@)) by {
                assert(s@.take(n as int)[i as int] == s@[i as int]);
            }
            return false;
        }
        i += 1;
    }
    assert(s@.take(n as int) =~= pre@);
    true
}

/// Whether `path` names something strictly inside directory `dir`.
pub fn strictly_under_exec(dir: &str, path: &str) -> (r: bool)
    ensures
        r == strictly_under(dir@, path@),
{
    let n = dir.unicode_len();
    if n > 0 && dir.get_char(n - 1) == '/' {
        str_starts_with(path, dir)
    } else {
        let pre = dir.to_owned().concat("/");
        proof {
            reveal_strlit("/");
            assert(pre@ =~= dir@.push('/'));
        }
        str_starts_with(path, pre.as_str())
    }
}

/// Whether the components of `s` delimited by `start` and `end` equal `name`.
fn range_equals(s: &str, start: usize, end: usize, name: &str) -> (r: bool)
    requires
        start <= end <= s@.len(),
    ensures
        r == (s@.subrange(start as int, end as int) == name@),
{
    let n = name.unicode_len();
    if end - start != n {
        assert(s@.subrange(start as int, end as int).len() != name@.len());
        return false;
    }
    let mut k: usize = 0;
    while k < n
        invariant
            k <= n,
            n == name@.len(),
            start + n == end,
            end <= s@.len(),
            forall|j: int| 0 <= j < k ==> s@[start + j] == name@[j],
        decreases n - k,
    {
        if s.get_char(start + k) != name.get_char(k) {
            assert(!(s@.subrange(start as int, end as int) == name@)) by {
                assert(s@.subrange(start as int, end as int)[k as int] == s@[start + k]);
            }
            return false;
        }
        k += 1;
    }
    assert(s@.subrange(start as int, end as int) =~= name@);
    true
}

/// Whether some `/`-separated component of `path` is exactly `name`.
pub fn has_component_exec(path: &str, name: &str) -> (r: bool)
    ensures
        r == has_component(path@, name@),
{
    let len = path.unicode_len();
    let mut i: usize = 0;
    let mut start: usize = 0;
    while i < len
        invariant
            start <= i <= len,
            len == path@.len(),
            start == 0 || path@[start - 1] == '/',
            forall|k: int| start <= k < i ==> path@[k] != '/',
            forall|i0: int, j0: int|
                is_component_at(path@, i0, j0) && j0 < i ==> path@.subrange(i0, j0) != name@,
        decreases len - i,
    {
        if path.get_char(i) == '/' {
            if range_equals(path, start, i, name) {
                assert(is_component_at(path@, start as int, i as int));
                return true;
            }
            proof {
                assert forall|i0: int, j0: int|
                    is_component_at(path@, i0, j0) && j0 < i + 1 implies path@.subrange(i0, j0)
                    != name@ by {
                    if j0 == i {
                        assert(i0 == start) by {
                            if i0 < start {
                                assert(path@[start - 1] == '/');
                            }
                            if i0 > start {
                                assert(path@[i0 - 1] != '/');
                            }
                        }
                    }
                }
            }
            start = i + 1;
        }
        i += 1;
    }
    // the final component runs from `start` to the end of the string
    if range_equals(path, start, len, name) {
        assert(is_component_at(path@, start as int, len as int));
        return true;
    }
    proof {
        assert forall|i0: int, j0: int| is_component_at(path@, i0, j0) implies path@.subrange(
            i0,
            j0,
        ) != name@ by {
            if j0 == len {
                assert(i0 == start) by {
                    if i0 < start {
                        assert(path@[start - 1] == '/');
                    }
                    if i0 > start {
                        assert(path@[i0 - 1] != '/');
                    }
                }
            } else {
                assert(j0 < len);
            }
        }
    }
    false
}

/// Whether `path` is an immediate child of directory `dir`.
pub fn immediate_child_exec(dir: &str, path: &str) -> (r: bool)
    ensures
        r == immediate_child_of(dir@, path@),
{
    if !strictly_under_exec(dir, path) {
        return false;
    }
    let dn = dir.unicode_len();
    let plen = path.unicode_len();
    let pre_len: usize = if dn > 0 && dir.get_char(dn - 1) == '/' {
        dn
    } else {
        dn + 1
    };
    assert(pre_len == dir_prefix(dir@).len());
    assert(pre_len <= plen) by {
        assert(is_prefix_of(dir_prefix(dir@), path@));
    }
    let mut k: usize = pre_len;
    while k < plen
        invariant
            pre_len <= k <= plen,
            plen == path@.len(),
            pre_len == dir_prefix(dir@).len(),
            strictly_under(dir@, path@),
            forall|j: int| pre_len <= j < k ==> path@[j] != '/',
        decreases plen - k,
    {
        if path.get_char(k) == '/' {
            return false;
        }
        k += 1;
    }
    true
}

/// Depth of `path` relative to `root`.
pub fn path_depth_exec(root: &str, path: &str) -> (r: usize)
    ensures
        r == rel_depth(root@, path@),
{
    let rn = root.unicode_len();
    let pn = path.unicode_len();
    if range_equals(path, 0, pn, root) {
        assert(path@.subrange(0, pn as int) =~= path@);
        return 0;
    }
    assert(path@ != root@) by {
        assert(path@.subrange(0, pn as int) =~= path@);
    }
    if !strictly_under_exec(root, path) {
        return 0;
    }
    let pre_len: usize = if rn > 0 && root.get_char(rn - 1) == '/' {
        rn
    } else {
        rn + 1
    };
    assert(pre_len == dir_prefix(root@).len());
    assert(pre_len <= pn) by {
        assert(is_prefix_of(dir_prefix(root@), path@));
    }
    let mut k: usize = pre_len;
    let mut slashes: usize = 0;
    while k < pn
        invariant
            pre_len <= k <= pn,
            pn == path@.len(),
            pre_len <= pn,
            slashes == slash_count(path@.skip(pre_len as int).take(k - pre_len)),
            slashes <= k - pre_len,
        decreases pn - k,
    {
        let ghost prev = path@.skip(pre_len as int).take(k - pre_len);
        let c = path.get_char(k);
        proof {
            let cur = path@.skip(pre_len as int).take(k + 1 - pre_len);
            assert(cur.drop_last() =~= prev);
            assert(cur[cur.len() - 1] == path@[k as int]);
        }
        if c == '/' {
            slashes += 1;
        }
        k += 1;
    }
    assert(path@.skip(pre_len as int).take(pn - pre_len) =~= path@.skip(pre_len as int));
    assert(1 + slashes <= usize::MAX) by {
        assert(slashes <= pn - pre_len);
    }
    1 + slashes
}

/// Whether `a` is at or before `b` in lexicographic order by code point.
pub fn lex_le_exec(a: &str, b: &str) -> (r: bool)
    ensures
        r == lex_le(a@, b@),
{
    let an = a.unicode_len();
    let bn = b.unicode_len();
    let mut i: usize = 0;
    proof {
        assert(a@.skip(0) =~= a@);
        assert(b@.skip(0) =~= b@);
    }
    while i < an && i < bn
        invariant
            i <= an,
            i <= bn,
            an == a@.len(),
            bn == b@.len(),
            forall|j: int| 0 <= j < i ==> a@[j] == b@[j],
            lex_le(a@, b@) == lex_le(a@.skip(i as int), b@.skip(i as int)),
        decreases an - i,
    {
        let ca = a.get_char(i);
        let cb = b.get_char(i);
        if ca != cb {
            proof {
                assert(a@.skip(i as int)[0] == a@[i as int]);
                assert(b@.skip(i as int)[0] == b@[i as int]);
            }
            return (ca as u32) < (cb as u32);
        }
        proof {
            assert(a@.skip(i as int)[0] == a@[i as int]);
            assert(b@.skip(i as int)[0] == b@[i as int]);
            assert(a@.skip(i as int).skip(1) =~= a@.skip(i + 1));
            assert(b@.skip(i as int).skip(1) =~= b@.skip(i + 1));
        }
        i += 1;
    }
    proof {
        if i >= an {
            assert(a@.skip(i as int).len() == 0);
        } else {
            assert(b@.skip(i as int).len() == 0);
            assert(a@.skip(i as int).len() > 0);
        }
    }
    i >= an
}

/// Equality of two string slices.
pub fn str_equals(a: &str, b: &str) -> (r: bool)
    ensures
        r == (a@ == b@),
{
    let an = a.unicode_len();
    let r = range_equals(a, 0, an, b);
    proof {
        assert(a@.subrange(0, an as int) =~= a@);
    }
    r
}

} // verus!

verus! {

/// Lexicographic order is total.
pub proof fn lemma_lex_le_total(a: Seq<char>, b: Seq<char>)
    ensures
        lex_le(a, b) || lex_le(b, a),
    decreases a.len(),
{
    if a.len() > 0 && b.len() > 0 {
        if a[0] == b[0] {
            lemma_lex_le_total(a.skip(1), b.skip(1));
        } else {
            lemma_char_code_points(a[0], b[0]);
            assert((a[0] as u32) < (b[0] as u32) || (b[0] as u32) < (a[0] as u32));
        }
    }
}

/// Distinct characters have distinct code points.
proof fn lemma_char_code_points(c: char, d: char)
    ensures
        (c as u32 == d as u32) <==> c == d,
{
}

/// Lexicographic order is transitive.
pub proof fn lemma_lex_le_trans(a: Seq<char>, b: Seq<char>, c: Seq<char>)
    requires
        lex_le(a, b),
        lex_le(b, c),
    ensures
        lex_le(a, c),
    decreases a.len(),
{
    if a.len() > 0 && b.len() > 0 && c.len() > 0 {
        if a[0] == b[0] && b[0] == c[0] {
            lemma_lex_le_trans(a.skip(1), b.skip(1), c.skip(1));
        }
    }
}

} // verus!
