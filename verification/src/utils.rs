//! Sorting, depth filtering and exclude-pattern handling.

use vstd::prelude::*;

verus! {

use crate::cli::SortKey;
use crate::data::{EntryType, FileEntry};
use crate::paths::{
    lemma_lex_le_total,
    lemma_lex_le_trans,
    lex_le,
    lex_le_exec,
    path_depth_exec,
    rel_depth,
};
use vstd::multiset::Multiset;
use vstd::pervasive::unreached;
use vstd::seq_lib::lemma_multiset_commutative;
use vstd::string::StrSliceExecFns;
use vstd::string::StringExecFns;

/// Metadata observed for one directory, as plain values.
#[derive(Debug, Clone, Copy, PartialEq, Eq, Structural)]
pub struct DirMetadata {
    /// Modification time, Unix seconds.
    pub mtime: u64,
    /// Hard-link count.
    pub nlink: u64,
    /// Allocated size in bytes.
    pub size: u64,
    /// Owning user id, when known.
    pub owner: Option<u32>,
}

/// Depth of `path` relative to `root`: the number of path components
/// between them, 0 for the root itself or for a path outside the root.
pub fn path_depth(root: &String, path: &String) -> (r: usize)
    ensures
        r == rel_depth(root@, path@),
{
    path_depth_exec(root.as_str(), path.as_str())
}

/// Whether the depth filter admits `e`: directories up to the given depth,
/// files only at exactly that depth and only when files are shown at all.
pub open spec fn depth_admits(
    root: Seq<char>,
    depth: Option<usize>,
    show_files: bool,
    e: FileEntry,
) -> bool {
    match e.entry_type {
        EntryType::Dir => match depth {
            Some(d) => rel_depth(root, e.path@) <= d,
            None => true,
        },
        EntryType::File => show_files && match depth {
            Some(d) => rel_depth(root, e.path@) == d,
            None => true,
        },
    }
}

/// The entries that the depth filter admits, in their original order.
pub fn filter_by_depth(
    entries: &Vec<FileEntry>,
    root: &String,
    depth: Option<usize>,
    show_files: bool,
) -> (r: Vec<FileEntry>)
    ensures
        r@ == entries@.filter(|e: FileEntry| depth_admits(root@, depth, show_files, e)),
{
    let ghost pred = |e: FileEntry| depth_admits(root@, depth, show_files, e);
    let mut r: Vec<FileEntry> = Vec::new();
    let n = entries.len();
    let mut i: usize = 0;
    proof {
        reveal(Seq::filter);
        assert(entries@.take(0) =~= Seq::<FileEntry>::empty());
        assert(r@ =~= entries@.take(0).filter(pred));
    }
    while i < n
        invariant
            i <= n,
            n == entries@.len(),
            r@ == entries@.take(i as int).filter(pred),
            pred == (|e: FileEntry| depth_admits(root@, depth, show_files, e)),
        decreases n - i,
    {
        let e = &entries[i];
        let admitted = match e.entry_type {
            EntryType::Dir => match depth {
                Some(d) => path_depth(root, &e.path) <= d,
                None => true,
            },
            EntryType::File => show_files && (match depth {
                Some(d) => path_depth(root, &e.path) == d,
                None => true,
            }),
        };
        if admitted {
            r.push(e.clone());
        }
        proof {
            reveal(Seq::filter);
            let prefix = entries@.take(i as int);
            let cur = entries@.take(i + 1);
            assert(cur =~= prefix.push(entries@[i as int]));
            assert(cur.drop_last() =~= prefix);
            assert(cur.last() == entries@[i as int]);
            assert(cur.filter(pred) == if pred(cur.last()) {
                prefix.filter(pred).push(cur.last())
            } else {
                prefix.filter(pred)
            });
        }
        i += 1;
    }
    proof {
        assert(entries@.take(n as int) =~= entries@);
    }
    r
}

/// Order of two entries under a sort key: descending size, or ascending
/// path.
pub open spec fn entry_le(k: SortKey, a: FileEntry, b: FileEntry) -> bool {
    match k {
        SortKey::Size => a.size >= b.size,
        SortKey::Name => lex_le(a.path@, b.path@),
    }
}

/// The sequence is ordered under the sort key.
pub open spec fn sorted_by(k: SortKey, s: Seq<FileEntry>) -> bool {
    forall|i: int, j: int| 0 <= i < j < s.len() ==> entry_le(k, #[trigger] s[i], #[trigger] s[j])
}

fn entry_le_exec(k: SortKey, a: &FileEntry, b: &FileEntry) -> (r: bool)
    ensures
        r == entry_le(k, *a, *b),
{
    match k {
        SortKey::Size => a.size >= b.size,
        SortKey::Name => lex_le_exec(a.path.as_str(), b.path.as_str()),
    }
}

proof fn lemma_entry_le_total(k: SortKey, a: FileEntry, b: FileEntry)
    ensures
        entry_le(k, a, b) || entry_le(k, b, a),
{
    if k == SortKey::Name {
        lemma_lex_le_total(a.path@, b.path@);
    }
}

proof fn lemma_entry_le_trans(k: SortKey, a: FileEntry, b: FileEntry, c: FileEntry)
    requires
        entry_le(k, a, b),
        entry_le(k, b, c),
    ensures
        entry_le(k, a, c),
{
    if k == SortKey::Name {
        lemma_lex_le_trans(a.path@, b.path@, c.path@);
    }
}

proof fn lemma_to_multiset_insert(s: Seq<FileEntry>, p: int, e: FileEntry)
    requires
        0 <= p <= s.len(),
    ensures
        s.insert(p, e).to_multiset() == s.to_multiset().insert(e),
{
    broadcast use vstd::seq_lib::group_to_multiset_ensures;

    assert(s.insert(p, e) =~= s.take(p) + (seq![e] + s.skip(p)));
    lemma_multiset_commutative(s.take(p), seq![e] + s.skip(p));
    lemma_multiset_commutative(seq![e], s.skip(p));
    assert(s =~= s.take(p) + s.skip(p));
    lemma_multiset_commutative(s.take(p), s.skip(p));
    assert(seq![e] =~= Seq::<FileEntry>::empty().push(e));
    assert(Seq::<FileEntry>::empty().to_multiset() =~= Multiset::<FileEntry>::empty());
    assert(seq![e].to_multiset() =~= Multiset::<FileEntry>::empty().insert(e));
    assert(s.insert(p, e).to_multiset() =~= s.to_multiset().insert(e));
}

fn insert_sorted(sorted: &mut Vec<FileEntry>, e: FileEntry, k: SortKey)
    requires
        sorted_by(k, old(sorted)@),
    ensures
        sorted_by(k, final(sorted)@),
        final(sorted)@.to_multiset() == old(sorted)@.to_multiset().insert(e),
{
    let n = sorted.len();
    let mut p: usize = 0;
    let ghost s = sorted@;
    while p < n
        invariant
            p <= n,
            n == s.len(),
            sorted@ == s,
            forall|i: int| 0 <= i < p ==> entry_le(k, #[trigger] s[i], e),
        ensures
            p <= n,
            sorted@ == s,
            forall|i: int| 0 <= i < p ==> entry_le(k, #[trigger] s[i], e),
            p < n ==> !entry_le(k, s[p as int], e),
        decreases n - p,
    {
        if !entry_le_exec(k, &sorted[p], &e) {
            break ;
        }
        p += 1;
    }
    sorted.insert(p, e);
    proof {
        lemma_to_multiset_insert(s, p as int, e);
        let t = s.insert(p as int, e);
        assert forall|i: int, j: int| 0 <= i < j < t.len() implies entry_le(
            k,
            #[trigger] t[i],
            #[trigger] t[j],
        ) by {
            if p < s.len() {
                lemma_entry_le_total(k, s[p as int], e);
            }
            if i < p && j == p {
                assert(t[i] == s[i] && t[j] == e);
            } else if i == p {
                assert(t[i] == e && t[j] == s[j - 1]);
                if j - 1 > p {
                    lemma_entry_le_trans(k, e, s[p as int], s[j - 1]);
                }
            } else if i < p && j > p {
                assert(t[i] == s[i] && t[j] == s[j - 1]);
            } else if i > p {
                assert(t[i] == s[i - 1] && t[j] == s[j - 1]);
            }
        }
    }
}

/// Sort the entries in place: by descending size, or by ascending path.
/// The result is ordered and holds exactly the entries given.
pub fn sort_entries(entries: &mut Vec<FileEntry>, sort_key: SortKey)
    ensures
        sorted_by(sort_key, final(entries)@),
        final(entries)@.to_multiset() == old(entries)@.to_multiset(),
{
    broadcast use vstd::seq_lib::group_to_multiset_ensures;

    let mut sorted: Vec<FileEntry> = Vec::new();
    proof {
        assert(sorted@.to_multiset() =~= Multiset::<FileEntry>::empty());
    }
    while entries.len() > 0
        invariant
            sorted_by(sort_key, sorted@),
            entries@.to_multiset().add(sorted@.to_multiset()) == old(entries)@.to_multiset(),
        decreases entries@.len(),
    {
        let ghost before = entries@;
        let e = match entries.pop() {
            Some(e) => e,
            None => unreached(),
        };
        proof {
            broadcast use vstd::seq_lib::group_to_multiset_ensures;

            assert(entries@ =~= before.drop_last());
            assert(before =~= entries@.push(e));
            assert(entries@.push(e).to_multiset() =~= entries@.to_multiset().insert(e));
            assert(before.to_multiset() =~= entries@.to_multiset().insert(e));
        }
        insert_sorted(&mut sorted, e, sort_key);
        proof {
            assert(entries@.to_multiset().add(sorted@.to_multiset()) =~= old(
                entries,
            )@.to_multiset());
        }
    }
    proof {
        assert(entries@.to_multiset() =~= Multiset::<FileEntry>::empty());
        assert(entries@.to_multiset().add(sorted@.to_multiset()) =~= sorted@.to_multiset());
    }
    *entries = sorted;
}

} // verus!

verus! {

/// Whitespace as trimmed from the edges of a user-supplied pattern.
pub open spec fn is_space(c: char) -> bool {
    c == ' ' || c == '\t' || c == '\n' || c == '\r'
}

/// `s` with leading whitespace removed.
pub open spec fn trim_front(s: Seq<char>) -> Seq<char>
    decreases s.len(),
{
    if s.len() > 0 && is_space(s[0]) {
        trim_front(s.skip(1))
    } else {
        s
    }
}

/// `s` with trailing whitespace removed.
pub open spec fn trim_back(s: Seq<char>) -> Seq<char>
    decreases s.len(),
{
    if s.len() > 0 && is_space(s[s.len() - 1]) {
        trim_back(s.drop_last())
    } else {
        s
    }
}

/// `s` with whitespace removed from both edges.
pub open spec fn trimmed(s: Seq<char>) -> Seq<char> {
    trim_back(trim_front(s))
}

/// A pattern that passes through verbatim: it holds a `*`, ends with `/`,
/// or holds a `.`.
pub open spec fn pattern_verbatim(t: Seq<char>) -> bool {
    ||| exists|i: int| 0 <= i < t.len() && t[i] == '*'
    ||| (t.len() > 0 && t[t.len() - 1] == '/')
    ||| exists|i: int| 0 <= i < t.len() && t[i] == '.'
}

/// What one user pattern expands to: itself when verbatim, else the two
/// recursive glob forms that match the name anywhere in a tree.
pub open spec fn expand_one(p: Seq<char>) -> Seq<Seq<char>> {
    let t = trimmed(p);
    if pattern_verbatim(t) {
        seq![t]
    } else {
        seq!["**/"@ + t, "**/"@ + t + "/**"@]
    }
}

/// The expansion of a whole pattern list, in order.
pub open spec fn expand_all(ps: Seq<Seq<char>>) -> Seq<Seq<char>>
    decreases ps.len(),
{
    if ps.len() == 0 {
        Seq::empty()
    } else {
        expand_one(ps[0]) + expand_all(ps.skip(1))
    }
}

proof fn lemma_expand_all_app(a: Seq<Seq<char>>, b: Seq<Seq<char>>)
    ensures
        expand_all(a + b) == expand_all(a) + expand_all(b),
    decreases a.len(),
{
    if a.len() == 0 {
        assert(a + b =~= b);
        assert(expand_all(a) + expand_all(b) =~= expand_all(b));
    } else {
        assert((a + b).skip(1) =~= a.skip(1) + b);
        assert((a + b)[0] == a[0]);
        lemma_expand_all_app(a.skip(1), b);
        assert(expand_one(a[0]) + (expand_all(a.skip(1)) + expand_all(b)) =~= (expand_one(a[0])
            + expand_all(a.skip(1))) + expand_all(b));
    }
}

/// Whether `s` holds the character `c`.
fn contains_char(s: &str, c: char) -> (r: bool)
    ensures
        r == exists|i: int| 0 <= i < s@.len() && s@[i] == c,
{
    let n = s.unicode_len();
    let mut i: usize = 0;
    while i < n
        invariant
            i <= n,
            n == s@.len(),
            forall|j: int| 0 <= j < i ==> s@[j] != c,
        decreases n - i,
    {
        if s.get_char(i) == c {
            return true;
        }
        i += 1;
    }
    false
}

/// `s` with whitespace removed from both edges.
fn trim_exec(s: &str) -> (r: String)
    ensures
        r@ == trimmed(s@),
{
    let n = s.unicode_len();
    let mut a: usize = 0;
    proof {
        assert(s@.skip(0) =~= s@);
    }
    while a < n && is_space_exec(s.get_char(a))
        invariant
            a <= n,
            n == s@.len(),
            trim_front(s@) == trim_front(s@.skip(a as int)),
        decreases n - a,
    {
        proof {
            assert(s@.skip(a as int)[0] == s@[a as int]);
            assert(s@.skip(a as int).skip(1) =~= s@.skip(a + 1));
        }
        a += 1;
    }
    proof {
        if a < n {
            assert(s@.skip(a as int)[0] == s@[a as int]);
        }
        assert(trim_front(s@) == s@.skip(a as int));
    }
    let ghost u = s@.skip(a as int);
    let mut b: usize = n;
    proof {
        assert(u.take(n - a) =~= u);
    }
    while b > a && is_space_exec(s.get_char(b - 1))
        invariant
            a <= b <= n,
            n == s@.len(),
            u == s@.skip(a as int),
            trim_back(u) == trim_back(u.take(b - a)),
        decreases b,
    {
        proof {
            let w = u.take(b - a);
            assert(w[w.len() - 1] == s@[b - 1]);
            assert(w.drop_last() =~= u.take(b - 1 - a));
        }
        b -= 1;
    }
    proof {
        let w = u.take(b - a);
        if b > a {
            assert(w[w.len() - 1] == s@[b - 1]);
        }
        assert(trim_back(u) == w);
    }
    let r = s.substring_char(a, b).to_owned();
    proof {
        assert(s@.subrange(a as int, b as int) =~= u.take(b - a));
    }
    r
}

fn is_space_exec(c: char) -> (r: bool)
    ensures
        r == is_space(c),
{
    c == ' ' || c == '\t' || c == '\n' || c == '\r'
}

/// Expand the user-supplied exclude patterns into glob form: a pattern
/// holding a `*`, ending with `/` or holding a `.` passes through
/// verbatim; any other name expands to the two patterns that match it
/// anywhere in the tree.
pub fn expand_exclude_patterns(patterns: &Vec<String>) -> (r: Vec<String>)
    ensures
        r.deep_view() == expand_all(patterns.deep_view()),
{
    let mut r: Vec<String> = Vec::new();
    let n = patterns.len();
    let mut i: usize = 0;
    proof {
        assert(patterns.deep_view().take(0) =~= Seq::<Seq<char>>::empty());
        assert(r.deep_view() =~= expand_all(patterns.deep_view().take(0)));
    }
    while i < n
        invariant
            i <= n,
            n == patterns@.len(),
            r.deep_view() == expand_all(patterns.deep_view().take(i as int)),
        decreases n - i,
    {
        let ghost r_before = r.deep_view();
        let t = trim_exec(patterns[i].as_str());
        let verbatim = contains_char(t.as_str(), '*') || (t.as_str().unicode_len() > 0
            && t.as_str().get_char(t.as_str().unicode_len() - 1) == '/') || contains_char(
            t.as_str(),
            '.',
        );
        assert(verbatim == pattern_verbatim(trimmed(patterns@[i as int]@)));
        if verbatim {
            r.push(t);
            proof {
                assert(r.deep_view() =~= r_before + expand_one(patterns.deep_view()[i as int]));
            }
        } else {
            let first = String::from_str("**/").concat(t.as_str());
            let second = first.clone().concat("/**");
            proof {
                reveal_strlit("**/");
                reveal_strlit("/**");
            }
            r.push(first);
            r.push(second);
            proof {
                assert(r.deep_view() =~= r_before + expand_one(patterns.deep_view()[i as int]));
            }
        }
        proof {
            let dv = patterns.deep_view();
            assert(dv.take(i + 1) =~= dv.take(i as int) + seq![dv[i as int]]);
            lemma_expand_all_app(dv.take(i as int), seq![dv[i as int]]);
            assert(seq![dv[i as int]].skip(1) =~= Seq::<Seq<char>>::empty());
            assert(expand_all(seq![dv[i as int]]) == expand_one(dv[i as int]) + expand_all(
                Seq::<Seq<char>>::empty(),
            ));
            assert(expand_all(seq![dv[i as int]]) =~= expand_one(dv[i as int]));
            assert(dv[i as int] == patterns@[i as int]@);
        }
        i += 1;
    }
    proof {
        assert(patterns.deep_view().take(n as int) =~= patterns.deep_view());
    }
    r
}

} // verus!

verus! {

use crate::cli::CsvEntry;

/// The human-readable form of a byte count, as the humansize crate renders
/// it in decimal units; a function of the value alone.
pub uninterp spec fn human_size_of(bytes: u64) -> Seq<char>;

/// Relies on humansize's format_size with decimal units: the rendering
/// depends on the byte count alone.
#[verifier::external_body]
pub fn format_size_decimal(bytes: u64) -> (r: String)
    ensures
        r@ == human_size_of(bytes),
{
    humansize::format_size(bytes, humansize::DECIMAL)
}

/// The CSV record for one scan entry: its kind tag, raw and human-readable
/// sizes, owner, path and child count.
pub fn csv_entry_for(entry: &FileEntry) -> (r: CsvEntry)
    ensures
        r.entry_type@ == (if entry.entry_type == EntryType::File {
            "FILE"@
        } else {
            "DIR"@
        }),
        r.size_bytes == entry.size,
        r.size_human@ == human_size_of(entry.size),
        r.owner == entry.owner,
        r.path == entry.path,
        r.inodes == entry.inodes,
{
    CsvEntry {
        entry_type: entry.entry_type.as_str().to_owned(),
        size_bytes: entry.size,
        size_human: format_size_decimal(entry.size),
        owner: match &entry.owner {
            Some(o) => Some(o.clone()),
            None => None,
        },
        path: entry.path.clone(),
        inodes: entry.inodes,
    }
}

} // verus!

verus! {

use crate::cli::Args;

/// Apply the output filters to raw scan entries: directories up to the
/// configured depth, files only at exactly that depth and only when files
/// are shown.
pub fn process_entries(root: &String, args: &Args, raw: Vec<FileEntry>) -> (r: Vec<FileEntry>)
    ensures
        r@ == raw@.filter(|e: FileEntry| depth_admits(root@, args.depth, args.show_files, e)),
{
    filter_by_depth(&raw, root, args.depth, args.show_files)
}

} // verus!
