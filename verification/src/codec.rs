//! The on-disk form of the cache.
//!
//! A cache file is a single self-describing blob. The current format is a
//! magic tag, the header, and the entries; a legacy file is a bare entry
//! list with no header and is accepted on load. All integers are
//! little-endian; a string is a character count followed by one 32-bit
//! code point per character, so any path a `String` can hold survives the
//! trip unchanged.
//!
//! Encoding and decoding are specified against ghost models of the cache
//! (`CacheModel`, `EntryModel`), and the decoder is proved to invert the
//! encoder; a truncated encoding decodes to nothing.

use vstd::prelude::*;

verus! {

use crate::cache::{Cache, CacheEntry, CacheHeader};
use crate::data::EntryType;
use vstd::bytes::{
    lemma_auto_spec_u32_to_from_le_bytes,
    lemma_auto_spec_u64_to_from_le_bytes,
    spec_u32_from_le_bytes,
    spec_u32_to_le_bytes,
    spec_u64_from_le_bytes,
    spec_u64_to_le_bytes,
    u32_from_le_bytes,
    u32_to_le_bytes,
    u64_from_le_bytes,
    u64_to_le_bytes,
};
use vstd::slice::slice_subrange;

/// Tag that opens a current-format cache file.
pub const CACHE_MAGIC: u64 = 0x7275647563616331;

/// Relies on char::from_u32 of core: it returns the character with the
/// given code point exactly when the value is a Unicode scalar value
/// (not a surrogate and at most 0x10FFFF).
pub assume_specification[ char::from_u32 ](v: u32) -> (r: Option<char>)
    ensures
        (v < 0xD800 || (0xE000 <= v && v <= 0x10FFFF)) <==> r is Some,
        r matches Some(c) ==> c == v as char,
;

/// Relies on String::push of std: it appends the one character.
#[verifier::external_body]
pub(crate) fn push_char(s: &mut String, c: char)
    ensures
        final(s)@ == old(s)@.push(c),
{
    s.push(c);
}

/// Ghost form of one cache entry.
pub struct EntryModel {
    pub path_hash: u64,
    pub path: Seq<char>,
    pub size: u64,
    pub mtime: u64,
    pub nlink: u64,
    pub inode_cnt: Option<u64>,
    pub owner: Option<u32>,
    pub entry_type: EntryType,
}

/// Ghost form of a cache header.
pub struct HeaderModel {
    pub root_path: Seq<char>,
    pub creation_time: u64,
    pub rudu_version: Seq<char>,
    pub root_mtime: Option<u64>,
}

/// Ghost form of a whole cache.
pub struct CacheModel {
    pub header: HeaderModel,
    pub entries: Seq<EntryModel>,
}

/// What a cache file holds: a current-format cache, or a bare legacy
/// entry list.
pub enum LoadModel {
    Current(CacheModel),
    Legacy(Seq<EntryModel>),
}

pub open spec fn entry_model(e: CacheEntry) -> EntryModel {
    EntryModel {
        path_hash: e.path_hash,
        path: e.path@,
        size: e.size,
        mtime: e.mtime,
        nlink: e.nlink,
        inode_cnt: e.inode_cnt,
        owner: e.owner,
        entry_type: e.entry_type,
    }
}

pub open spec fn header_model(h: CacheHeader) -> HeaderModel {
    HeaderModel {
        root_path: h.root_path@,
        creation_time: h.creation_time,
        rudu_version: h.rudu_version@,
        root_mtime: h.root_mtime,
    }
}

pub open spec fn entry_models(es: Seq<CacheEntry>) -> Seq<EntryModel> {
    Seq::new(es.len(), |i: int| entry_model(es[i]))
}

pub open spec fn cache_model(c: Cache) -> CacheModel {
    CacheModel { header: header_model(c.header), entries: entry_models(c.entries@) }
}

// ------------------------------------------------------------------
// Spec-level encoders
// ------------------------------------------------------------------
pub open spec fn enc_u64(v: u64) -> Seq<u8> {
    spec_u64_to_le_bytes(v)
}

pub open spec fn enc_u32(v: u32) -> Seq<u8> {
    spec_u32_to_le_bytes(v)
}

pub open spec fn enc_opt_u64(o: Option<u64>) -> Seq<u8> {
    match o {
        None => seq![0u8],
        Some(v) => seq![1u8] + enc_u64(v),
    }
}

pub open spec fn enc_opt_u32(o: Option<u32>) -> Seq<u8> {
    match o {
        None => seq![0u8],
        Some(v) => seq![1u8] + enc_u32(v),
    }
}

pub open spec fn enc_entry_type(t: EntryType) -> Seq<u8> {
    match t {
        EntryType::File => seq![0u8],
        EntryType::Dir => seq![1u8],
    }
}

pub open spec fn enc_chars(cs: Seq<char>) -> Seq<u8>
    decreases cs.len(),
{
    if cs.len() == 0 {
        Seq::empty()
    } else {
        enc_u32(cs[0] as u32) + enc_chars(cs.skip(1))
    }
}

pub open spec fn enc_str(cs: Seq<char>) -> Seq<u8> {
    enc_u64(cs.len() as u64) + enc_chars(cs)
}

pub open spec fn enc_entry(m: EntryModel) -> Seq<u8> {
    enc_u64(m.path_hash) + enc_str(m.path) + enc_u64(m.size) + enc_u64(m.mtime) + enc_u64(m.nlink)
        + enc_opt_u64(m.inode_cnt) + enc_opt_u32(m.owner) + enc_entry_type(m.entry_type)
}

pub open spec fn enc_entries(es: Seq<EntryModel>) -> Seq<u8>
    decreases es.len(),
{
    if es.len() == 0 {
        Seq::empty()
    } else {
        enc_entry(es[0]) + enc_entries(es.skip(1))
    }
}

pub open spec fn enc_header(h: HeaderModel) -> Seq<u8> {
    enc_str(h.root_path) + enc_u64(h.creation_time) + enc_str(h.rudu_version) + enc_opt_u64(
        h.root_mtime,
    )
}

pub open spec fn enc_cache(m: CacheModel) -> Seq<u8> {
    enc_u64(CACHE_MAGIC) + enc_header(m.header) + enc_u64(m.entries.len() as u64) + enc_entries(
        m.entries,
    )
}

pub open spec fn enc_legacy(es: Seq<EntryModel>) -> Seq<u8> {
    enc_u64(es.len() as u64) + enc_entries(es)
}

/// Encodability: every counted collection fits its length field. Anything
/// an in-memory cache can hold satisfies this; it matters only for the
/// ghost models the proofs quantify over.
pub open spec fn wf_entry_model(m: EntryModel) -> bool {
    m.path.len() <= u64::MAX
}

pub open spec fn wf_entries(es: Seq<EntryModel>) -> bool {
    es.len() <= u64::MAX && forall|i: int| 0 <= i < es.len() ==> wf_entry_model(#[trigger] es[i])
}

pub open spec fn wf_cache_model(m: CacheModel) -> bool {
    &&& m.header.root_path.len() <= u64::MAX
    &&& m.header.rudu_version.len() <= u64::MAX
    &&& wf_entries(m.entries)
}

// ------------------------------------------------------------------
// Spec-level readers: a reader takes the bytes and a position and gives
// the decoded value with the position after it, or nothing.
// ------------------------------------------------------------------
pub open spec fn rd_u64(s: Seq<u8>, i: int) -> Option<(u64, int)> {
    if 0 <= i && i + 8 <= s.len() {
        Some((spec_u64_from_le_bytes(s.subrange(i, i + 8)), i + 8))
    } else {
        None
    }
}

pub open spec fn rd_u32(s: Seq<u8>, i: int) -> Option<(u32, int)> {
    if 0 <= i && i + 4 <= s.len() {
        Some((spec_u32_from_le_bytes(s.subrange(i, i + 4)), i + 4))
    } else {
        None
    }
}

pub open spec fn rd_u8(s: Seq<u8>, i: int) -> Option<(u8, int)> {
    if 0 <= i && i + 1 <= s.len() {
        Some((s[i], i + 1))
    } else {
        None
    }
}

pub open spec fn rd_opt_u64(s: Seq<u8>, i: int) -> Option<(Option<u64>, int)> {
    match rd_u8(s, i) {
        None => None,
        Some((tag, j)) => if tag == 0 {
            Some((None, j))
        } else if tag == 1 {
            match rd_u64(s, j) {
                None => None,
                Some((v, k)) => Some((Some(v), k)),
            }
        } else {
            None
        },
    }
}

pub open spec fn rd_opt_u32(s: Seq<u8>, i: int) -> Option<(Option<u32>, int)> {
    match rd_u8(s, i) {
        None => None,
        Some((tag, j)) => if tag == 0 {
            Some((None, j))
        } else if tag == 1 {
            match rd_u32(s, j) {
                None => None,
                Some((v, k)) => Some((Some(v), k)),
            }
        } else {
            None
        },
    }
}

pub open spec fn rd_entry_type(s: Seq<u8>, i: int) -> Option<(EntryType, int)> {
    match rd_u8(s, i) {
        None => None,
        Some((tag, j)) => if tag == 0 {
            Some((EntryType::File, j))
        } else if tag == 1 {
            Some((EntryType::Dir, j))
        } else {
            None
        },
    }
}

/// Whether a 32-bit value is a Unicode scalar value, i.e. the code point
/// of some character.
pub open spec fn is_scalar_value(v: u32) -> bool {
    v < 0xD800 || (0xE000 <= v && v <= 0x10FFFF)
}

pub open spec fn rd_chars(s: Seq<u8>, i: int, n: nat) -> Option<(Seq<char>, int)>
    decreases n,
{
    if n == 0 {
        Some((Seq::empty(), i))
    } else {
        match rd_u32(s, i) {
            None => None,
            Some((w, j)) => if is_scalar_value(w) {
                match rd_chars(s, j, (n - 1) as nat) {
                    None => None,
                    Some((cs, k)) => Some((seq![w as char] + cs, k)),
                }
            } else {
                None
            },
        }
    }
}

pub open spec fn rd_str(s: Seq<u8>, i: int) -> Option<(Seq<char>, int)> {
    match rd_u64(s, i) {
        None => None,
        Some((n, j)) => rd_chars(s, j, n as nat),
    }
}

pub open spec fn rd_entry(s: Seq<u8>, i: int) -> Option<(EntryModel, int)> {
    match rd_u64(s, i) {
        None => None,
        Some((path_hash, i1)) => match rd_str(s, i1) {
            None => None,
            Some((path, i2)) => match rd_u64(s, i2) {
                None => None,
                Some((size, i3)) => match rd_u64(s, i3) {
                    None => None,
                    Some((mtime, i4)) => match rd_u64(s, i4) {
                        None => None,
                        Some((nlink, i5)) => match rd_opt_u64(s, i5) {
                            None => None,
                            Some((inode_cnt, i6)) => match rd_opt_u32(s, i6) {
                                None => None,
                                Some((owner, i7)) => match rd_entry_type(s, i7) {
                                    None => None,
                                    Some((entry_type, i8)) => Some(
                                        (
                                            EntryModel {
                                                path_hash,
                                                path,
                                                size,
                                                mtime,
                                                nlink,
                                                inode_cnt,
                                                owner,
                                                entry_type,
                                            },
                                            i8,
                                        ),
                                    ),
                                },
                            },
                        },
                    },
                },
            },
        },
    }
}

pub open spec fn rd_entries(s: Seq<u8>, i: int, n: nat) -> Option<(Seq<EntryModel>, int)>
    decreases n,
{
    if n == 0 {
        Some((Seq::empty(), i))
    } else {
        match rd_entry(s, i) {
            None => None,
            Some((e, j)) => match rd_entries(s, j, (n - 1) as nat) {
                None => None,
                Some((es, k)) => Some((seq![e] + es, k)),
            },
        }
    }
}

pub open spec fn rd_header(s: Seq<u8>, i: int) -> Option<(HeaderModel, int)> {
    match rd_str(s, i) {
        None => None,
        Some((root_path, i1)) => match rd_u64(s, i1) {
            None => None,
            Some((creation_time, i2)) => match rd_str(s, i2) {
                None => None,
                Some((rudu_version, i3)) => match rd_opt_u64(s, i3) {
                    None => None,
                    Some((root_mtime, i4)) => Some(
                        (HeaderModel { root_path, creation_time, rudu_version, root_mtime }, i4),
                    ),
                },
            },
        },
    }
}

pub open spec fn rd_cache(s: Seq<u8>, i: int) -> Option<(CacheModel, int)> {
    match rd_header(s, i) {
        None => None,
        Some((header, i1)) => match rd_u64(s, i1) {
            None => None,
            Some((n, i2)) => match rd_entries(s, i2, n as nat) {
                None => None,
                Some((entries, i3)) => Some((CacheModel { header, entries }, i3)),
            },
        },
    }
}

/// The whole-file judgment: a current-format cache when the magic tag
/// opens the file, a legacy entry list otherwise; in either case every
/// byte must be consumed.
pub open spec fn dec_file(s: Seq<u8>) -> Option<LoadModel> {
    match rd_u64(s, 0) {
        None => None,
        Some((tag, _)) => if tag == CACHE_MAGIC {
            match rd_cache(s, 8) {
                None => None,
                Some((m, end)) => if end == s.len() {
                    Some(LoadModel::Current(m))
                } else {
                    None
                },
            }
        } else {
            match rd_entries(s, 8, tag as nat) {
                None => None,
                Some((es, end)) => if end == s.len() {
                    Some(LoadModel::Legacy(es))
                } else {
                    None
                },
            }
        },
    }
}

} // verus!

verus! {

// ------------------------------------------------------------------
// Sequence lemmas about the encoders
// ------------------------------------------------------------------
/// Character encoding distributes over concatenation.
pub proof fn lemma_enc_chars_app(a: Seq<char>, b: Seq<char>)
    ensures
        enc_chars(a + b) == enc_chars(a) + enc_chars(b),
    decreases a.len(),
{
    if a.len() == 0 {
        assert(a + b =~= b);
        assert(enc_chars(a) + enc_chars(b) =~= enc_chars(b));
    } else {
        assert((a + b).skip(1) =~= a.skip(1) + b);
        assert((a + b)[0] == a[0]);
        assert((a + b).len() > 0);
        lemma_enc_chars_app(a.skip(1), b);
        assert(enc_chars(a + b) == enc_u32(a[0] as u32) + (enc_chars(a.skip(1)) + enc_chars(b)));
        assert(enc_u32(a[0] as u32) + (enc_chars(a.skip(1)) + enc_chars(b)) =~= (enc_u32(
            a[0] as u32,
        ) + enc_chars(a.skip(1))) + enc_chars(b));
    }
}

/// Entry-list encoding distributes over concatenation.
pub proof fn lemma_enc_entries_app(a: Seq<EntryModel>, b: Seq<EntryModel>)
    ensures
        enc_entries(a + b) == enc_entries(a) + enc_entries(b),
    decreases a.len(),
{
    if a.len() == 0 {
        assert(a + b =~= b);
        assert(enc_entries(a) + enc_entries(b) =~= enc_entries(b));
    } else {
        assert((a + b).skip(1) =~= a.skip(1) + b);
        assert((a + b)[0] == a[0]);
        lemma_enc_entries_app(a.skip(1), b);
        assert(enc_entries(a + b) == enc_entry(a[0]) + (enc_entries(a.skip(1)) + enc_entries(b)));
        assert(enc_entry(a[0]) + (enc_entries(a.skip(1)) + enc_entries(b)) =~= (enc_entry(a[0])
            + enc_entries(a.skip(1))) + enc_entries(b));
    }
}

// ------------------------------------------------------------------
// Executable encoders
// ------------------------------------------------------------------
fn push_u64(out: &mut Vec<u8>, v: u64)
    ensures
        final(out)@ == old(out)@ + enc_u64(v),
{
    let mut b = u64_to_le_bytes(v);
    out.append(&mut b);
}

fn push_u32(out: &mut Vec<u8>, v: u32)
    ensures
        final(out)@ == old(out)@ + enc_u32(v),
{
    let mut b = u32_to_le_bytes(v);
    out.append(&mut b);
}

fn push_opt_u64(out: &mut Vec<u8>, o: Option<u64>)
    ensures
        final(out)@ == old(out)@ + enc_opt_u64(o),
{
    match o {
        None => {
            out.push(0u8);
            assert(final(out)@ =~= old(out)@ + enc_opt_u64(o));
        },
        Some(v) => {
            out.push(1u8);
            push_u64(out, v);
            assert(final(out)@ =~= old(out)@ + enc_opt_u64(o));
        },
    }
}

fn push_opt_u32(out: &mut Vec<u8>, o: Option<u32>)
    ensures
        final(out)@ == old(out)@ + enc_opt_u32(o),
{
    match o {
        None => {
            out.push(0u8);
            assert(final(out)@ =~= old(out)@ + enc_opt_u32(o));
        },
        Some(v) => {
            out.push(1u8);
            push_u32(out, v);
            assert(final(out)@ =~= old(out)@ + enc_opt_u32(o));
        },
    }
}

fn push_entry_type(out: &mut Vec<u8>, t: EntryType)
    ensures
        final(out)@ == old(out)@ + enc_entry_type(t),
{
    match t {
        EntryType::File => out.push(0u8),
        EntryType::Dir => out.push(1u8),
    }
    assert(final(out)@ =~= old(out)@ + enc_entry_type(t));
}

fn push_str(out: &mut Vec<u8>, s: &String)
    ensures
        final(out)@ == old(out)@ + enc_str(s@),
{
    let ghost base = out@;
    let n = s.as_str().unicode_len();
    push_u64(out, n as u64);
    let mut i: usize = 0;
    proof {
        assert(s@.take(0) =~= Seq::<char>::empty());
    }
    while i < n
        invariant
            i <= n,
            n == s@.len(),
            out@ == base + enc_u64(n as u64) + enc_chars(s@.take(i as int)),
        decreases n - i,
    {
        let c = s.as_str().get_char(i);
        push_u32(out, c as u32);
        proof {
            let single = seq![s@[i as int]];
            assert(single.skip(1) =~= Seq::<char>::empty());
            assert(enc_chars(single) == enc_u32(s@[i as int] as u32) + enc_chars(single.skip(1)));
            assert(enc_chars(single) =~= enc_u32(s@[i as int] as u32));
            assert(s@.take(i + 1) =~= s@.take(i as int) + single);
            lemma_enc_chars_app(s@.take(i as int), single);
            assert(out@ =~= base + enc_u64(n as u64) + enc_chars(s@.take(i + 1)));
        }
        i += 1;
    }
    proof {
        assert(s@.take(n as int) =~= s@);
        assert(out@ =~= base + enc_str(s@));
    }
}

fn push_entry(out: &mut Vec<u8>, e: &CacheEntry)
    ensures
        final(out)@ == old(out)@ + enc_entry(entry_model(*e)),
{
    let ghost base = out@;
    push_u64(out, e.path_hash);
    push_str(out, &e.path);
    push_u64(out, e.size);
    push_u64(out, e.mtime);
    push_u64(out, e.nlink);
    push_opt_u64(out, e.inode_cnt);
    push_opt_u32(out, e.owner);
    push_entry_type(out, e.entry_type);
    assert(out@ =~= base + enc_entry(entry_model(*e)));
}

fn push_entries(out: &mut Vec<u8>, entries: &Vec<CacheEntry>)
    ensures
        final(out)@ == old(out)@ + enc_u64(entries@.len() as u64) + enc_entries(
            entry_models(entries@),
        ),
{
    let ghost base = out@;
    let n = entries.len();
    push_u64(out, n as u64);
    let mut i: usize = 0;
    proof {
        assert(entry_models(entries@).take(0) =~= Seq::<EntryModel>::empty());
    }
    while i < n
        invariant
            i <= n,
            n == entries@.len(),
            out@ == base + enc_u64(n as u64) + enc_entries(entry_models(entries@).take(i as int)),
        decreases n - i,
    {
        push_entry(out, &entries[i]);
        proof {
            let ms = entry_models(entries@);
            let single = seq![ms[i as int]];
            assert(single.skip(1) =~= Seq::<EntryModel>::empty());
            assert(enc_entries(single) == enc_entry(ms[i as int]) + enc_entries(single.skip(1)));
            assert(enc_entries(single) =~= enc_entry(ms[i as int]));
            assert(ms.take(i + 1) =~= ms.take(i as int) + single);
            lemma_enc_entries_app(ms.take(i as int), single);
            assert(out@ =~= base + enc_u64(n as u64) + enc_entries(ms.take(i + 1)));
        }
        i += 1;
    }
    proof {
        assert(entry_models(entries@).take(n as int) =~= entry_models(entries@));
    }
}

/// Serialize a cache in the current format.
pub fn encode_cache(c: &Cache) -> (out: Vec<u8>)
    ensures
        out@ == enc_cache(cache_model(*c)),
{
    let mut out: Vec<u8> = Vec::new();
    proof {
        assert(out@ =~= Seq::<u8>::empty());
    }
    push_u64(&mut out, CACHE_MAGIC);
    push_str(&mut out, &c.header.root_path);
    push_u64(&mut out, c.header.creation_time);
    push_str(&mut out, &c.header.rudu_version);
    push_opt_u64(&mut out, c.header.root_mtime);
    push_entries(&mut out, &c.entries);
    proof {
        assert(out@ =~= enc_cache(cache_model(*c)));
    }
    out
}

/// Serialize a bare entry list in the legacy format.
pub fn encode_legacy(entries: &Vec<CacheEntry>) -> (out: Vec<u8>)
    ensures
        out@ == enc_legacy(entry_models(entries@)),
{
    let mut out: Vec<u8> = Vec::new();
    proof {
        assert(out@ =~= Seq::<u8>::empty());
    }
    push_entries(&mut out, entries);
    proof {
        assert(out@ =~= enc_legacy(entry_models(entries@)));
    }
    out
}

} // verus!

verus! {

// ------------------------------------------------------------------
// Executable decoders, each proved to agree with its spec reader.
// ------------------------------------------------------------------
fn read_u64(bytes: &Vec<u8>, i: usize) -> (r: Option<(u64, usize)>)
    ensures
        rd_u64(bytes@, i as int) matches Some(p) ==> r matches Some(q) && q.0 == p.0 && q.1 == p.1,
        rd_u64(bytes@, i as int) is None ==> r is None,
{
    if i <= bytes.len() && bytes.len() - i >= 8 {
        let sl = slice_subrange(bytes.as_slice(), i, i + 8);
        let v = u64_from_le_bytes(sl);
        Some((v, i + 8))
    } else {
        None
    }
}

fn read_u32(bytes: &Vec<u8>, i: usize) -> (r: Option<(u32, usize)>)
    ensures
        rd_u32(bytes@, i as int) matches Some(p) ==> r matches Some(q) && q.0 == p.0 && q.1 == p.1,
        rd_u32(bytes@, i as int) is None ==> r is None,
{
    if i <= bytes.len() && bytes.len() - i >= 4 {
        let sl = slice_subrange(bytes.as_slice(), i, i + 4);
        let v = u32_from_le_bytes(sl);
        Some((v, i + 4))
    } else {
        None
    }
}

fn read_u8(bytes: &Vec<u8>, i: usize) -> (r: Option<(u8, usize)>)
    ensures
        rd_u8(bytes@, i as int) matches Some(p) ==> r matches Some(q) && q.0 == p.0 && q.1 == p.1,
        rd_u8(bytes@, i as int) is None ==> r is None,
{
    if i < bytes.len() {
        Some((bytes[i], i + 1))
    } else {
        None
    }
}

fn read_opt_u64(bytes: &Vec<u8>, i: usize) -> (r: Option<(Option<u64>, usize)>)
    ensures
        rd_opt_u64(bytes@, i as int) matches Some(p) ==> r matches Some(q) && q.0 == p.0 && q.1
            == p.1,
        rd_opt_u64(bytes@, i as int) is None ==> r is None,
{
    match read_u8(bytes, i) {
        None => None,
        Some((tag, j)) => {
            if tag == 0 {
                Some((None, j))
            } else if tag == 1 {
                match read_u64(bytes, j) {
                    None => None,
                    Some((v, k)) => Some((Some(v), k)),
                }
            } else {
                None
            }
        },
    }
}

fn read_opt_u32(bytes: &Vec<u8>, i: usize) -> (r: Option<(Option<u32>, usize)>)
    ensures
        rd_opt_u32(bytes@, i as int) matches Some(p) ==> r matches Some(q) && q.0 == p.0 && q.1
            == p.1,
        rd_opt_u32(bytes@, i as int) is None ==> r is None,
{
    match read_u8(bytes, i) {
        None => None,
        Some((tag, j)) => {
            if tag == 0 {
                Some((None, j))
            } else if tag == 1 {
                match read_u32(bytes, j) {
                    None => None,
                    Some((v, k)) => Some((Some(v), k)),
                }
            } else {
                None
            }
        },
    }
}

fn read_entry_type(bytes: &Vec<u8>, i: usize) -> (r: Option<(EntryType, usize)>)
    ensures
        rd_entry_type(bytes@, i as int) matches Some(p) ==> r matches Some(q) && q.0 == p.0 && q.1
            == p.1,
        rd_entry_type(bytes@, i as int) is None ==> r is None,
{
    match read_u8(bytes, i) {
        None => None,
        Some((tag, j)) => {
            if tag == 0 {
                Some((EntryType::File, j))
            } else if tag == 1 {
                Some((EntryType::Dir, j))
            } else {
                None
            }
        },
    }
}

#[verifier::loop_isolation(false)]
fn read_str(bytes: &Vec<u8>, i: usize) -> (r: Option<(String, usize)>)
    ensures
        rd_str(bytes@, i as int) matches Some(p) ==> r matches Some(q) && q.0@ == p.0 && q.1
            == p.1,
        rd_str(bytes@, i as int) is None ==> r is None,
{
    let (n, start) = match read_u64(bytes, i) {
        None => {
            return None;
        },
        Some(p) => p,
    };
    let mut acc = String::new();
    let mut pos: usize = start;
    let mut k: u64 = 0;
    proof {
        assert(acc@ =~= Seq::<char>::empty());
    }
    while k < n
        invariant
            k <= n,
            acc@.len() == k,
            match rd_chars(bytes@, pos as int, (n - k) as nat) {
                Some(p) => rd_chars(bytes@, start as int, n as nat) == Some(
                    (acc@ + p.0, p.1),
                ),
                None => rd_chars(bytes@, start as int, n as nat) is None,
            },
        decreases n - k,
    {
        let (w, next) = match read_u32(bytes, pos) {
            None => {
                return None;
            },
            Some(p) => p,
        };
        match char::from_u32(w) {
            None => {
                return None;
            },
            Some(c) => {
                push_char(&mut acc, c);
                proof {
                    match rd_chars(bytes@, next as int, (n - k - 1) as nat) {
                        Some(p) => {
                            assert(acc@ + p.0 =~= acc@.drop_last() + (seq![c] + p.0));
                        },
                        None => {},
                    }
                }
                pos = next;
            },
        }
        k += 1;
    }
    proof {
        assert(rd_chars(bytes@, pos as int, 0) == Some((Seq::<char>::empty(), pos as int)));
        assert(acc@ + Seq::<char>::empty() =~= acc@);
    }
    Some((acc, pos))
}

fn read_entry(bytes: &Vec<u8>, i: usize) -> (r: Option<(CacheEntry, usize)>)
    ensures
        rd_entry(bytes@, i as int) matches Some(p) ==> r matches Some(q) && entry_model(q.0) == p.0
            && q.1 == p.1,
        rd_entry(bytes@, i as int) is None ==> r is None,
{
    let (path_hash, i1) = match read_u64(bytes, i) {
        None => {
            return None;
        },
        Some(p) => p,
    };
    let (path, i2) = match read_str(bytes, i1) {
        None => {
            return None;
        },
        Some(p) => p,
    };
    let (size, i3) = match read_u64(bytes, i2) {
        None => {
            return None;
        },
        Some(p) => p,
    };
    let (mtime, i4) = match read_u64(bytes, i3) {
        None => {
            return None;
        },
        Some(p) => p,
    };
    let (nlink, i5) = match read_u64(bytes, i4) {
        None => {
            return None;
        },
        Some(p) => p,
    };
    let (inode_cnt, i6) = match read_opt_u64(bytes, i5) {
        None => {
            return None;
        },
        Some(p) => p,
    };
    let (owner, i7) = match read_opt_u32(bytes, i6) {
        None => {
            return None;
        },
        Some(p) => p,
    };
    let (entry_type, i8) = match read_entry_type(bytes, i7) {
        None => {
            return None;
        },
        Some(p) => p,
    };
    Some((CacheEntry { path_hash, path, size, mtime, nlink, inode_cnt, owner, entry_type }, i8))
}

#[verifier::loop_isolation(false)]
fn read_entries(bytes: &Vec<u8>, i: usize, n: u64) -> (r: Option<(Vec<CacheEntry>, usize)>)
    ensures
        rd_entries(bytes@, i as int, n as nat) matches Some(p) ==> r matches Some(q)
            && entry_models(q.0@) == p.0 && q.1 == p.1,
        rd_entries(bytes@, i as int, n as nat) is None ==> r is None,
{
    let mut acc: Vec<CacheEntry> = Vec::new();
    let mut pos: usize = i;
    let mut k: u64 = 0;
    proof {
        assert(entry_models(acc@) =~= Seq::<EntryModel>::empty());
    }
    while k < n
        invariant
            k <= n,
            acc@.len() == k,
            match rd_entries(bytes@, pos as int, (n - k) as nat) {
                Some(p) => rd_entries(bytes@, i as int, n as nat) == Some(
                    (entry_models(acc@) + p.0, p.1),
                ),
                None => rd_entries(bytes@, i as int, n as nat) is None,
            },
        decreases n - k,
    {
        let (e, next) = match read_entry(bytes, pos) {
            None => {
                return None;
            },
            Some(p) => p,
        };
        let ghost m = entry_model(e);
        acc.push(e);
        proof {
            assert(entry_models(acc@) =~= entry_models(acc@.drop_last()).push(m));
            match rd_entries(bytes@, next as int, (n - k - 1) as nat) {
                Some(p) => {
                    assert(entry_models(acc@) + p.0 =~= entry_models(acc@.drop_last()) + (seq![m]
                        + p.0));
                },
                None => {},
            }
        }
        pos = next;
        k += 1;
    }
    proof {
        assert(rd_entries(bytes@, pos as int, 0) == Some((Seq::<EntryModel>::empty(), pos as int)));
        assert(entry_models(acc@) + Seq::<EntryModel>::empty() =~= entry_models(acc@));
    }
    Some((acc, pos))
}

fn read_header(bytes: &Vec<u8>, i: usize) -> (r: Option<(CacheHeader, usize)>)
    ensures
        rd_header(bytes@, i as int) matches Some(p) ==> r matches Some(q) && header_model(q.0)
            == p.0 && q.1 == p.1,
        rd_header(bytes@, i as int) is None ==> r is None,
{
    let (root_path, i1) = match read_str(bytes, i) {
        None => {
            return None;
        },
        Some(p) => p,
    };
    let (creation_time, i2) = match read_u64(bytes, i1) {
        None => {
            return None;
        },
        Some(p) => p,
    };
    let (rudu_version, i3) = match read_str(bytes, i2) {
        None => {
            return None;
        },
        Some(p) => p,
    };
    let (root_mtime, i4) = match read_opt_u64(bytes, i3) {
        None => {
            return None;
        },
        Some(p) => p,
    };
    Some((CacheHeader { root_path, creation_time, rudu_version, root_mtime }, i4))
}

/// What a decoded cache file holds: a current-format cache or a bare
/// legacy entry list.
#[derive(Debug)]
pub enum LoadedCache {
    Current(Cache),
    Legacy(Vec<CacheEntry>),
}

/// Decode a whole cache file. Returns nothing when the bytes are not a
/// complete, well-formed encoding in either format.
pub fn decode_cache_file(bytes: &Vec<u8>) -> (r: Option<LoadedCache>)
    ensures
        dec_file(bytes@) matches Some(LoadModel::Current(m)) ==> r matches Some(
            LoadedCache::Current(c),
        ) && cache_model(c) == m,
        dec_file(bytes@) matches Some(LoadModel::Legacy(ms)) ==> r matches Some(
            LoadedCache::Legacy(es),
        ) && entry_models(es@) == ms,
        dec_file(bytes@) is None ==> r is None,
{
    let (tag, _after_tag) = match read_u64(bytes, 0) {
        None => {
            return None;
        },
        Some(p) => p,
    };
    if tag == CACHE_MAGIC {
        let (header, i1) = match read_header(bytes, 8) {
            None => {
                return None;
            },
            Some(p) => p,
        };
        let (n, i2) = match read_u64(bytes, i1) {
            None => {
                return None;
            },
            Some(p) => p,
        };
        let (entries, i3) = match read_entries(bytes, i2, n) {
            None => {
                return None;
            },
            Some(p) => p,
        };
        if i3 == bytes.len() {
            Some(LoadedCache::Current(Cache { header, entries }))
        } else {
            None
        }
    } else {
        let (entries, i1) = match read_entries(bytes, 8, tag) {
            None => {
                return None;
            },
            Some(p) => p,
        };
        if i1 == bytes.len() {
            Some(LoadedCache::Legacy(entries))
        } else {
            None
        }
    }
}

} // verus!

verus! {

// ------------------------------------------------------------------
// Prefix lifting: a read that succeeds on a prefix of the bytes succeeds
// identically on the whole.
// ------------------------------------------------------------------
proof fn lemma_lift_rd_u64(s: Seq<u8>, k: int, i: int)
    requires
        0 <= k <= s.len(),
    ensures
        rd_u64(s.take(k), i) matches Some(p) ==> rd_u64(s, i) == Some(p),
{
    let t = s.take(k);
    if rd_u64(t, i) is Some {
        assert(t.subrange(i, i + 8) =~= s.subrange(i, i + 8));
    }
}

proof fn lemma_lift_rd_u32(s: Seq<u8>, k: int, i: int)
    requires
        0 <= k <= s.len(),
    ensures
        rd_u32(s.take(k), i) matches Some(p) ==> rd_u32(s, i) == Some(p),
{
    let t = s.take(k);
    if rd_u32(t, i) is Some {
        assert(t.subrange(i, i + 4) =~= s.subrange(i, i + 4));
    }
}

proof fn lemma_lift_rd_u8(s: Seq<u8>, k: int, i: int)
    requires
        0 <= k <= s.len(),
    ensures
        rd_u8(s.take(k), i) matches Some(p) ==> rd_u8(s, i) == Some(p),
{
}

proof fn lemma_lift_rd_opt_u64(s: Seq<u8>, k: int, i: int)
    requires
        0 <= k <= s.len(),
    ensures
        rd_opt_u64(s.take(k), i) matches Some(p) ==> rd_opt_u64(s, i) == Some(p),
{
    lemma_lift_rd_u8(s, k, i);
    match rd_u8(s.take(k), i) {
        Some((tag, j)) => {
            lemma_lift_rd_u64(s, k, j);
        },
        None => {},
    }
}

proof fn lemma_lift_rd_opt_u32(s: Seq<u8>, k: int, i: int)
    requires
        0 <= k <= s.len(),
    ensures
        rd_opt_u32(s.take(k), i) matches Some(p) ==> rd_opt_u32(s, i) == Some(p),
{
    lemma_lift_rd_u8(s, k, i);
    match rd_u8(s.take(k), i) {
        Some((tag, j)) => {
            lemma_lift_rd_u32(s, k, j);
        },
        None => {},
    }
}

proof fn lemma_lift_rd_entry_type(s: Seq<u8>, k: int, i: int)
    requires
        0 <= k <= s.len(),
    ensures
        rd_entry_type(s.take(k), i) matches Some(p) ==> rd_entry_type(s, i) == Some(p),
{
    lemma_lift_rd_u8(s, k, i);
}

proof fn lemma_lift_rd_chars(s: Seq<u8>, k: int, i: int, n: nat)
    requires
        0 <= k <= s.len(),
    ensures
        rd_chars(s.take(k), i, n) matches Some(p) ==> rd_chars(s, i, n) == Some(p),
    decreases n,
{
    if n > 0 {
        lemma_lift_rd_u32(s, k, i);
        match rd_u32(s.take(k), i) {
            Some((w, j)) => {
                lemma_lift_rd_chars(s, k, j, (n - 1) as nat);
            },
            None => {},
        }
    }
}

proof fn lemma_lift_rd_str(s: Seq<u8>, k: int, i: int)
    requires
        0 <= k <= s.len(),
    ensures
        rd_str(s.take(k), i) matches Some(p) ==> rd_str(s, i) == Some(p),
{
    lemma_lift_rd_u64(s, k, i);
    match rd_u64(s.take(k), i) {
        Some((n, j)) => {
            lemma_lift_rd_chars(s, k, j, n as nat);
        },
        None => {},
    }
}

proof fn lemma_lift_rd_entry(s: Seq<u8>, k: int, i: int)
    requires
        0 <= k <= s.len(),
    ensures
        rd_entry(s.take(k), i) matches Some(p) ==> rd_entry(s, i) == Some(p),
{
    let t = s.take(k);
    lemma_lift_rd_u64(s, k, i);
    match rd_u64(t, i) {
        Some((_, i1)) => {
            lemma_lift_rd_str(s, k, i1);
            match rd_str(t, i1) {
                Some((_, i2)) => {
                    lemma_lift_rd_u64(s, k, i2);
                    match rd_u64(t, i2) {
                        Some((_, i3)) => {
                            lemma_lift_rd_u64(s, k, i3);
                            match rd_u64(t, i3) {
                                Some((_, i4)) => {
                                    lemma_lift_rd_u64(s, k, i4);
                                    match rd_u64(t, i4) {
                                        Some((_, i5)) => {
                                            lemma_lift_rd_opt_u64(s, k, i5);
                                            match rd_opt_u64(t, i5) {
                                                Some((_, i6)) => {
                                                    lemma_lift_rd_opt_u32(s, k, i6);
                                                    match rd_opt_u32(t, i6) {
                                                        Some((_, i7)) => {
                                                            lemma_lift_rd_entry_type(s, k, i7);
                                                        },
                                                        None => {},
                                                    }
                                                },
                                                None => {},
                                            }
                                        },
                                        None => {},
                                    }
                                },
                                None => {},
                            }
                        },
                        None => {},
                    }
                },
                None => {},
            }
        },
        None => {},
    }
}

proof fn lemma_lift_rd_entries(s: Seq<u8>, k: int, i: int, n: nat)
    requires
        0 <= k <= s.len(),
    ensures
        rd_entries(s.take(k), i, n) matches Some(p) ==> rd_entries(s, i, n) == Some(p),
    decreases n,
{
    if n > 0 {
        lemma_lift_rd_entry(s, k, i);
        match rd_entry(s.take(k), i) {
            Some((e, j)) => {
                lemma_lift_rd_entries(s, k, j, (n - 1) as nat);
            },
            None => {},
        }
    }
}

proof fn lemma_lift_rd_header(s: Seq<u8>, k: int, i: int)
    requires
        0 <= k <= s.len(),
    ensures
        rd_header(s.take(k), i) matches Some(p) ==> rd_header(s, i) == Some(p),
{
    let t = s.take(k);
    lemma_lift_rd_str(s, k, i);
    match rd_str(t, i) {
        Some((_, i1)) => {
            lemma_lift_rd_u64(s, k, i1);
            match rd_u64(t, i1) {
                Some((_, i2)) => {
                    lemma_lift_rd_str(s, k, i2);
                    match rd_str(t, i2) {
                        Some((_, i3)) => {
                            lemma_lift_rd_opt_u64(s, k, i3);
                        },
                        None => {},
                    }
                },
                None => {},
            }
        },
        None => {},
    }
}

proof fn lemma_lift_rd_cache(s: Seq<u8>, k: int, i: int)
    requires
        0 <= k <= s.len(),
    ensures
        rd_cache(s.take(k), i) matches Some(p) ==> rd_cache(s, i) == Some(p),
{
    let t = s.take(k);
    lemma_lift_rd_header(s, k, i);
    match rd_header(t, i) {
        Some((_, i1)) => {
            lemma_lift_rd_u64(s, k, i1);
            match rd_u64(t, i1) {
                Some((n, i2)) => {
                    lemma_lift_rd_entries(s, k, i2, n as nat);
                },
                None => {},
            }
        },
        None => {},
    }
}

/// No strict prefix of a decodable cache file decodes: a file truncated
/// anywhere yields nothing rather than a different cache.
pub proof fn lemma_truncated_file_decodes_to_none(s: Seq<u8>, k: int)
    requires
        dec_file(s) is Some,
        0 <= k < s.len(),
    ensures
        dec_file(s.take(k)) is None,
{
    let t = s.take(k);
    if dec_file(t) is Some {
        lemma_lift_rd_u64(s, k, 0);
        let (tag, _) = rd_u64(t, 0).unwrap();
        assert(rd_u64(s, 0) == Some((tag, 8int)));
        if tag == CACHE_MAGIC {
            let (m, end_t) = rd_cache(t, 8).unwrap();
            assert(end_t == t.len());
            lemma_lift_rd_cache(s, k, 8);
            assert(rd_cache(s, 8) == Some((m, end_t)));
            let (m2, end_s) = rd_cache(s, 8).unwrap();
            assert(end_s == s.len());
            assert(end_t == end_s);
            assert(false);
        } else {
            let (es, end_t) = rd_entries(t, 8, tag as nat).unwrap();
            assert(end_t == t.len());
            lemma_lift_rd_entries(s, k, 8, tag as nat);
            assert(rd_entries(s, 8, tag as nat) == Some((es, end_t)));
            let (es2, end_s) = rd_entries(s, 8, tag as nat).unwrap();
            assert(end_s == s.len());
            assert(false);
        }
    }
}

} // verus!

verus! {

// ------------------------------------------------------------------
// Agreement: reading an encoding back yields the encoded value. Together
// these give the save/load round trip.
// ------------------------------------------------------------------
proof fn lemma_split(s: Seq<u8>, i: int, a: Seq<u8>, b: Seq<u8>)
    requires
        0 <= i,
        i + a.len() + b.len() <= s.len(),
        s.subrange(i, i + a.len() + b.len()) == a + b,
    ensures
        s.subrange(i, i + a.len()) == a,
        s.subrange(i + a.len(), i + a.len() + b.len()) == b,
{
    assert forall|x: int| 0 <= x < a.len() implies s.subrange(i, i + a.len())[x] == a[x] by {
        assert(s.subrange(i, i + a.len() + b.len())[x] == (a + b)[x]);
    }
    assert(s.subrange(i, i + a.len()) =~= a);
    assert forall|x: int| 0 <= x < b.len() implies s.subrange(
        i + a.len(),
        i + a.len() + b.len(),
    )[x] == b[x] by {
        assert(s.subrange(i + a.len(), i + a.len() + b.len())[x] == s[i + a.len() + x]);
        assert(s.subrange(i, i + a.len() + b.len())[a.len() + x] == (a + b)[a.len() + x]);
        assert(s.subrange(i, i + a.len() + b.len())[a.len() + x] == s[i + a.len() + x]);
    }
    assert(s.subrange(i + a.len(), i + a.len() + b.len()) =~= b);
}

/// Every character is a Unicode scalar value and survives the cast to
/// its code point and back.
proof fn lemma_char_scalar(c: char)
    ensures
        is_scalar_value(c as u32),
        (c as u32) as char == c,
{
}

proof fn lemma_enc_chars_len(cs: Seq<char>)
    ensures
        enc_chars(cs).len() == 4 * cs.len(),
    decreases cs.len(),
{
    lemma_auto_spec_u32_to_from_le_bytes();
    if cs.len() > 0 {
        lemma_enc_chars_len(cs.skip(1));
    }
}

proof fn lemma_rd_u64_enc(s: Seq<u8>, i: int, v: u64)
    requires
        0 <= i,
        i + 8 <= s.len(),
        s.subrange(i, i + 8) == enc_u64(v),
    ensures
        rd_u64(s, i) == Some((v, i + 8)),
{
    lemma_auto_spec_u64_to_from_le_bytes();
}

proof fn lemma_rd_u32_enc(s: Seq<u8>, i: int, v: u32)
    requires
        0 <= i,
        i + 4 <= s.len(),
        s.subrange(i, i + 4) == enc_u32(v),
    ensures
        rd_u32(s, i) == Some((v, i + 4)),
{
    lemma_auto_spec_u32_to_from_le_bytes();
    assert(enc_u32(v).len() == 4);
}

proof fn lemma_rd_opt_u64_enc(s: Seq<u8>, i: int, o: Option<u64>)
    requires
        0 <= i,
        i + enc_opt_u64(o).len() <= s.len(),
        s.subrange(i, i + enc_opt_u64(o).len()) == enc_opt_u64(o),
    ensures
        rd_opt_u64(s, i) == Some((o, i + enc_opt_u64(o).len())),
{
    lemma_auto_spec_u64_to_from_le_bytes();
    match o {
        None => {
            assert(s[i] == enc_opt_u64(o)[0]);
        },
        Some(v) => {
            lemma_split(s, i, seq![1u8], enc_u64(v));
            assert(s[i] == seq![1u8][0]);
            lemma_rd_u64_enc(s, i + 1, v);
        },
    }
}

proof fn lemma_rd_opt_u32_enc(s: Seq<u8>, i: int, o: Option<u32>)
    requires
        0 <= i,
        i + enc_opt_u32(o).len() <= s.len(),
        s.subrange(i, i + enc_opt_u32(o).len()) == enc_opt_u32(o),
    ensures
        rd_opt_u32(s, i) == Some((o, i + enc_opt_u32(o).len())),
{
    lemma_auto_spec_u32_to_from_le_bytes();
    match o {
        None => {
            assert(s[i] == enc_opt_u32(o)[0]);
        },
        Some(v) => {
            lemma_split(s, i, seq![1u8], enc_u32(v));
            assert(s[i] == seq![1u8][0]);
            lemma_rd_u32_enc(s, i + 1, v);
        },
    }
}

proof fn lemma_rd_entry_type_enc(s: Seq<u8>, i: int, t: EntryType)
    requires
        0 <= i,
        i + 1 <= s.len(),
        s.subrange(i, i + 1) == enc_entry_type(t),
    ensures
        rd_entry_type(s, i) == Some((t, i + 1)),
{
    assert(s[i] == enc_entry_type(t)[0]);
}

proof fn lemma_rd_chars_enc(s: Seq<u8>, i: int, cs: Seq<char>)
    requires
        0 <= i,
        i + enc_chars(cs).len() <= s.len(),
        s.subrange(i, i + enc_chars(cs).len()) == enc_chars(cs),
    ensures
        rd_chars(s, i, cs.len()) == Some((cs, i + enc_chars(cs).len())),
    decreases cs.len(),
{
    lemma_auto_spec_u32_to_from_le_bytes();
    lemma_enc_chars_len(cs);
    if cs.len() == 0 {
        assert(rd_chars(s, i, 0) == Some((Seq::<char>::empty(), i)));
        assert(cs =~= Seq::<char>::empty());
    } else {
        lemma_char_scalar(cs[0]);
        let w = cs[0] as u32;
        let e1 = enc_u32(w);
        let rest = enc_chars(cs.skip(1));
        lemma_enc_chars_len(cs.skip(1));
        lemma_split(s, i, e1, rest);
        lemma_rd_u32_enc(s, i, w);
        lemma_rd_chars_enc(s, i + 4, cs.skip(1));
        assert(seq![w as char] + cs.skip(1) =~= cs);
    }
}

proof fn lemma_rd_str_enc(s: Seq<u8>, i: int, cs: Seq<char>)
    requires
        0 <= i,
        cs.len() <= u64::MAX,
        i + enc_str(cs).len() <= s.len(),
        s.subrange(i, i + enc_str(cs).len()) == enc_str(cs),
    ensures
        rd_str(s, i) == Some((cs, i + enc_str(cs).len())),
{
    lemma_auto_spec_u64_to_from_le_bytes();
    let n = cs.len() as u64;
    lemma_split(s, i, enc_u64(n), enc_chars(cs));
    lemma_rd_u64_enc(s, i, n);
    lemma_rd_chars_enc(s, i + 8, cs);
    assert(n as nat == cs.len());
}

proof fn lemma_rd_entry_enc(s: Seq<u8>, i: int, m: EntryModel)
    requires
        0 <= i,
        wf_entry_model(m),
        i + enc_entry(m).len() <= s.len(),
        s.subrange(i, i + enc_entry(m).len()) == enc_entry(m),
    ensures
        rd_entry(s, i) == Some((m, i + enc_entry(m).len())),
{
    lemma_auto_spec_u64_to_from_le_bytes();
    let e1 = enc_u64(m.path_hash);
    let e2 = enc_str(m.path);
    let e3 = enc_u64(m.size);
    let e4 = enc_u64(m.mtime);
    let e5 = enc_u64(m.nlink);
    let e6 = enc_opt_u64(m.inode_cnt);
    let e7 = enc_opt_u32(m.owner);
    let e8 = enc_entry_type(m.entry_type);
    let t8 = e8;
    let t7 = e7 + t8;
    let t6 = e6 + t7;
    let t5 = e5 + t6;
    let t4 = e4 + t5;
    let t3 = e3 + t4;
    let t2 = e2 + t3;
    let t1 = e1 + t2;
    assert(enc_entry(m) =~= t1);
    let i1 = i + e1.len();
    let i2 = i1 + e2.len();
    let i3 = i2 + e3.len();
    let i4 = i3 + e4.len();
    let i5 = i4 + e5.len();
    let i6 = i5 + e6.len();
    let i7 = i6 + e7.len();
    let i8 = i7 + e8.len();
    lemma_split(s, i, e1, t2);
    lemma_split(s, i1, e2, t3);
    lemma_split(s, i2, e3, t4);
    lemma_split(s, i3, e4, t5);
    lemma_split(s, i4, e5, t6);
    lemma_split(s, i5, e6, t7);
    lemma_split(s, i6, e7, t8);
    lemma_rd_u64_enc(s, i, m.path_hash);
    lemma_rd_str_enc(s, i1, m.path);
    lemma_rd_u64_enc(s, i2, m.size);
    lemma_rd_u64_enc(s, i3, m.mtime);
    lemma_rd_u64_enc(s, i4, m.nlink);
    lemma_rd_opt_u64_enc(s, i5, m.inode_cnt);
    lemma_rd_opt_u32_enc(s, i6, m.owner);
    lemma_rd_entry_type_enc(s, i7, m.entry_type);
}

proof fn lemma_rd_entries_enc(s: Seq<u8>, i: int, es: Seq<EntryModel>)
    requires
        0 <= i,
        forall|x: int| 0 <= x < es.len() ==> wf_entry_model(#[trigger] es[x]),
        i + enc_entries(es).len() <= s.len(),
        s.subrange(i, i + enc_entries(es).len()) == enc_entries(es),
    ensures
        rd_entries(s, i, es.len()) == Some((es, i + enc_entries(es).len())),
    decreases es.len(),
{
    if es.len() == 0 {
        assert(rd_entries(s, i, 0) == Some((Seq::<EntryModel>::empty(), i)));
        assert(es =~= Seq::<EntryModel>::empty());
    } else {
        let e1 = enc_entry(es[0]);
        let rest = enc_entries(es.skip(1));
        lemma_split(s, i, e1, rest);
        lemma_rd_entry_enc(s, i, es[0]);
        lemma_rd_entries_enc(s, i + e1.len(), es.skip(1));
        assert(seq![es[0]] + es.skip(1) =~= es);
    }
}

proof fn lemma_rd_header_enc(s: Seq<u8>, i: int, h: HeaderModel)
    requires
        0 <= i,
        h.root_path.len() <= u64::MAX,
        h.rudu_version.len() <= u64::MAX,
        i + enc_header(h).len() <= s.len(),
        s.subrange(i, i + enc_header(h).len()) == enc_header(h),
    ensures
        rd_header(s, i) == Some((h, i + enc_header(h).len())),
{
    let e1 = enc_str(h.root_path);
    let e2 = enc_u64(h.creation_time);
    let e3 = enc_str(h.rudu_version);
    let e4 = enc_opt_u64(h.root_mtime);
    let t4 = e4;
    let t3 = e3 + t4;
    let t2 = e2 + t3;
    let t1 = e1 + t2;
    assert(enc_header(h) =~= t1);
    let i1 = i + e1.len();
    let i2 = i1 + e2.len();
    let i3 = i2 + e3.len();
    lemma_split(s, i, e1, t2);
    lemma_split(s, i1, e2, t3);
    lemma_split(s, i2, e3, t4);
    lemma_rd_str_enc(s, i, h.root_path);
    lemma_auto_spec_u64_to_from_le_bytes();
    lemma_rd_u64_enc(s, i1, h.creation_time);
    lemma_rd_str_enc(s, i2, h.rudu_version);
    lemma_rd_opt_u64_enc(s, i3, h.root_mtime);
}

/// The save/load round trip in the current format: decoding an encoded
/// cache yields exactly the cache that was encoded.
pub proof fn lemma_cache_file_round_trip(m: CacheModel)
    requires
        wf_cache_model(m),
    ensures
        dec_file(enc_cache(m)) == Some(LoadModel::Current(m)),
{
    lemma_auto_spec_u64_to_from_le_bytes();
    let s = enc_cache(m);
    let e1 = enc_u64(CACHE_MAGIC);
    let e2 = enc_header(m.header);
    let e3 = enc_u64(m.entries.len() as u64);
    let e4 = enc_entries(m.entries);
    let t4 = e4;
    let t3 = e3 + t4;
    let t2 = e2 + t3;
    let t1 = e1 + t2;
    assert(s =~= t1);
    let i1: int = e1.len() as int;
    let i2: int = i1 + e2.len();
    let i3: int = i2 + e3.len();
    assert(s.subrange(0, s.len() as int) =~= s);
    lemma_split(s, 0, e1, t2);
    lemma_split(s, i1, e2, t3);
    lemma_split(s, i2, e3, t4);
    lemma_rd_u64_enc(s, 0, CACHE_MAGIC);
    lemma_rd_header_enc(s, i1, m.header);
    lemma_rd_u64_enc(s, i2, m.entries.len() as u64);
    lemma_rd_entries_enc(s, i3, m.entries);
    assert((m.entries.len() as u64) as nat == m.entries.len());
}

/// The load path for the legacy format: decoding an encoded bare entry
/// list yields exactly that list.
pub proof fn lemma_legacy_file_round_trip(es: Seq<EntryModel>)
    requires
        wf_entries(es),
        es.len() != CACHE_MAGIC,
    ensures
        dec_file(enc_legacy(es)) == Some(LoadModel::Legacy(es)),
{
    lemma_auto_spec_u64_to_from_le_bytes();
    let s = enc_legacy(es);
    let e1 = enc_u64(es.len() as u64);
    let e2 = enc_entries(es);
    assert(s =~= e1 + e2);
    assert(s.subrange(0, s.len() as int) =~= s);
    lemma_split(s, 0, e1, e2);
    lemma_rd_u64_enc(s, 0, es.len() as u64);
    assert(es.len() as u64 != CACHE_MAGIC);
    lemma_rd_entries_enc(s, 8, es);
    assert((es.len() as u64) as nat == es.len());
}

} // verus!
