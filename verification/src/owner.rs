//! Owner-name resolution state.
//!
//! Translating a user id to a name needs the host's password database; the
//! library holds the decision logic around it: a per-process memo of
//! resolved names, a flag recording that the primary lookup has crashed
//! before (after which every id resolves to its decimal form), the parsing
//! of a password-database line, and the decimal fallback itself.

use vstd::prelude::*;

verus! {

use crate::codec::push_char;
use vstd::string::StrSliceExecFns;

/// Decimal form of a user id.
pub open spec fn u32_decimal(v: u32) -> Seq<char>
    decreases v,
{
    if v < 10 {
        seq![(48 + v) as char]
    } else {
        u32_decimal(v / 10).push((48 + v % 10) as char)
    }
}

/// The decimal-string fallback for an unresolvable user id.
pub fn uid_fallback_name(uid: u32) -> (r: String)
    ensures
        r@ == u32_decimal(uid),
    decreases uid,
{
    if uid < 10 {
        let mut s = String::new();
        match char::from_u32(48 + uid) {
            Some(c) => {
                push_char(&mut s, c);
                assert(s@ =~= u32_decimal(uid));
            },
            None => {
                assert(false);
            },
        }
        s
    } else {
        let mut s = uid_fallback_name(uid / 10);
        match char::from_u32(48 + uid % 10) {
            Some(c) => {
                push_char(&mut s, c);
            },
            None => {
                assert(false);
            },
        }
        s
    }
}

/// The name field of a password-database line: everything before the first
/// colon.
pub open spec fn passwd_name_of(line: Seq<char>) -> Seq<char>
    decreases line.len(),
{
    if line.len() == 0 {
        line
    } else if line[0] == ':' {
        Seq::empty()
    } else {
        seq![line[0]] + passwd_name_of(line.skip(1))
    }
}

/// Parse the user name out of one password-database line, colon-delimited.
pub fn passwd_entry_name(line: &String) -> (r: String)
    ensures
        r@ == passwd_name_of(line@),
{
    let n = line.as_str().unicode_len();
    let mut s = String::new();
    let mut i: usize = 0;
    proof {
        assert(line@.skip(0) =~= line@);
        assert(s@ =~= Seq::<char>::empty());
        assert(s@ + passwd_name_of(line@) =~= passwd_name_of(line@));
    }
    while i < n
        invariant
            i <= n,
            n == line@.len(),
            forall|j: int| 0 <= j < i ==> line@[j] != ':',
            s@ + passwd_name_of(line@.skip(i as int)) == passwd_name_of(line@),
            s@.len() == i,
        decreases n - i,
    {
        let c = line.as_str().get_char(i);
        proof {
            assert(line@.skip(i as int)[0] == line@[i as int]);
            assert(line@.skip(i as int).skip(1) =~= line@.skip(i + 1));
        }
        if c == ':' {
            proof {
                assert(passwd_name_of(line@.skip(i as int)) =~= Seq::<char>::empty());
                assert(s@ + Seq::<char>::empty() =~= s@);
            }
            return s;
        }
        push_char(&mut s, c);
        proof {
            assert(s@ + passwd_name_of(line@.skip(i + 1)) =~= s@.drop_last() + (seq![line@[i as int]]
                + passwd_name_of(line@.skip(i + 1))));
        }
        i += 1;
    }
    proof {
        assert(line@.skip(n as int).len() == 0);
        assert(s@ + passwd_name_of(line@.skip(n as int)) =~= s@);
    }
    s
}

/// First position in the memo holding `uid`.
pub open spec fn find_uid_index(s: Seq<(u32, String)>, uid: u32) -> Option<int>
    decreases s.len(),
{
    if s.len() == 0 {
        None
    } else if s[0].0 == uid {
        Some(0)
    } else {
        match find_uid_index(s.skip(1), uid) {
            Some(i) => Some(i + 1),
            None => None,
        }
    }
}

/// The per-process memo of resolved owner names, with the flag that records
/// a crashed primary lookup.
#[derive(Debug)]
pub struct OwnerCache {
    /// Resolved names, keyed by user id; ids are mutually distinct.
    pub entries: Vec<(u32, String)>,
    /// Whether the primary lookup has crashed before; after that every id
    /// resolves straight to its decimal form.
    pub broken: bool,
}

impl OwnerCache {
    /// An empty memo with a healthy primary lookup.
    pub fn new() -> (r: Self)
        ensures
            r.entries@.len() == 0,
            !r.broken,
    {
        OwnerCache { entries: Vec::new(), broken: false }
    }

    /// What the memo alone can answer for `uid`: the decimal form when the
    /// primary lookup is known to crash, the memoized name when one is
    /// recorded, and nothing otherwise - the host must then perform the
    /// lookup and record its outcome.
    pub fn probe(&self, uid: u32) -> (r: Option<String>)
        ensures
            self.broken ==> (r matches Some(s) && s@ == u32_decimal(uid)),
            !self.broken ==> match find_uid_index(self.entries@, uid) {
                Some(i) => r matches Some(s) && s == self.entries@[i].1,
                None => r is None,
            },
    {
        if self.broken {
            return Some(uid_fallback_name(uid));
        }
        let n = self.entries.len();
        let mut i: usize = 0;
        proof {
            assert(self.entries@.skip(0) =~= self.entries@);
        }
        while i < n
            invariant
                i <= n,
                !self.broken,
                n == self.entries@.len(),
                forall|j: int| 0 <= j < i ==> self.entries@[j].0 != uid,
                match find_uid_index(self.entries@.skip(i as int), uid) {
                    Some(idx) => find_uid_index(self.entries@, uid) == Some(idx + i),
                    None => find_uid_index(self.entries@, uid) is None,
                },
            decreases n - i,
        {
            proof {
                assert(self.entries@.skip(i as int)[0] == self.entries@[i as int]);
                assert(self.entries@.skip(i as int).skip(1) =~= self.entries@.skip(i + 1));
            }
            if self.entries[i].0 == uid {
                return Some(self.entries[i].1.clone());
            }
            i += 1;
        }
        proof {
            assert(self.entries@.skip(n as int).len() == 0);
        }
        None
    }

    /// Record a name the host resolved for `uid`, replacing any earlier
    /// record, and hand the name back.
    #[verifier::loop_isolation(false)]
    pub fn record_resolved(&mut self, uid: u32, name: String) -> (r: String)
        ensures
            r == name,
            final(self).broken == old(self).broken,
            match find_uid_index(old(self).entries@, uid) {
                Some(i) => final(self).entries@ == old(self).entries@.update(i, (uid, name)),
                None => final(self).entries@ == old(self).entries@.push((uid, name)),
            },
    {
        let ghost orig = *self;
        let n = self.entries.len();
        let mut i: usize = 0;
        proof {
            assert(self.entries@.skip(0) =~= self.entries@);
        }
        while i < n
            invariant
                i <= n,
                *self == orig,
                n == self.entries@.len(),
                forall|j: int| 0 <= j < i ==> self.entries@[j].0 != uid,
                match find_uid_index(self.entries@.skip(i as int), uid) {
                    Some(idx) => find_uid_index(self.entries@, uid) == Some(idx + i),
                    None => find_uid_index(self.entries@, uid) is None,
                },
            decreases n - i,
        {
            proof {
                assert(self.entries@.skip(i as int)[0] == self.entries@[i as int]);
                assert(self.entries@.skip(i as int).skip(1) =~= self.entries@.skip(i + 1));
            }
            if self.entries[i].0 == uid {
                let r = name.clone();
                self.entries.set(i, (uid, name));
                return r;
            }
            i += 1;
        }
        proof {
            assert(self.entries@.skip(n as int).len() == 0);
        }
        let r = name.clone();
        self.entries.push((uid, name));
        r
    }

    /// Record that both lookups failed for `uid`: the id resolves to its
    /// decimal form, which is memoized and returned.
    pub fn record_failed(&mut self, uid: u32) -> (r: String)
        ensures
            r@ == u32_decimal(uid),
            final(self).broken == old(self).broken,
            match find_uid_index(old(self).entries@, uid) {
                Some(i) => final(self).entries@ == old(self).entries@.update(i, (uid, r)),
                None => final(self).entries@ == old(self).entries@.push((uid, r)),
            },
    {
        let name = uid_fallback_name(uid);
        self.record_resolved(uid, name)
    }

    /// Record that the primary lookup crashed: every lookup from now on
    /// goes straight to the decimal form, including this one.
    pub fn record_crash(&mut self, uid: u32) -> (r: String)
        ensures
            r@ == u32_decimal(uid),
            final(self).broken,
            match find_uid_index(old(self).entries@, uid) {
                Some(i) => final(self).entries@ == old(self).entries@.update(i, (uid, r)),
                None => final(self).entries@ == old(self).entries@.push((uid, r)),
            },
    {
        self.broken = true;
        let name = uid_fallback_name(uid);
        self.record_resolved(uid, name)
    }
}

} // verus!
