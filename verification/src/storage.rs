//! An in-memory model of the byte storage collaborator: one byte object
//! per locator.  Contracts speak of `get_spec`, the map from locators to
//! the bytes most recently written for them.

use crate::objects::ContributionLocator;
use crate::objects::ContributionSignatureLocator;
use vstd::prelude::*;

verus! {

/// A name for one byte object held in storage.
#[derive(Clone, Copy, PartialEq, Eq, Structural, Debug)]
pub enum Locator {
    /// The raw bytes of one contribution.
    ContributionFile(ContributionLocator),
    /// The detached signature over one contribution.
    ContributionFileSignature(ContributionSignatureLocator),
}

/// Byte storage keyed by [`Locator`], kept as an append-only log of
/// writes where the latest write for a locator wins.
pub struct MemoryStorage {
    entries: Vec<(Locator, Vec<u8>)>,
}

/// The bytes most recently written for `loc` in the log `s`.
spec fn lookup(s: Seq<(Locator, Vec<u8>)>, loc: Locator) -> Option<Seq<u8>>
    decreases s.len(),
{
    if s.len() == 0 {
        None
    } else if s.last().0 == loc {
        Some(s.last().1@)
    } else {
        lookup(s.drop_last(), loc)
    }
}

proof fn lemma_lookup_push(s: Seq<(Locator, Vec<u8>)>, loc: Locator, entry: (Locator, Vec<u8>))
    ensures
        entry.0 == loc ==> lookup(s.push(entry), loc) == Some(entry.1@),
        entry.0 != loc ==> lookup(s.push(entry), loc) == lookup(s, loc),
{
    let t = s.push(entry);
    assert(t.last() == entry);
    assert(t.drop_last() =~= s);
}

impl MemoryStorage {
    /// The contents of this storage, as a partial map from locators to
    /// byte sequences.
    pub closed spec fn get_spec(&self, loc: Locator) -> Option<Seq<u8>> {
        lookup(self.entries@, loc)
    }

    /// Whether an object exists for `loc`.
    pub open spec fn contains_spec(&self, loc: Locator) -> bool {
        self.get_spec(loc) is Some
    }

    /// An empty storage: no locator holds an object.
    pub fn new() -> (r: MemoryStorage)
        ensures
            forall|loc: Locator| r.get_spec(loc) is None,
    {
        MemoryStorage { entries: Vec::new() }
    }

    /// Creates the object for `loc`, filled with `size` zero bytes.
    /// Overwrites whatever the locator held.
    pub fn initialize(&mut self, loc: Locator, size: usize)
        ensures
            final(self).get_spec(loc) == Some(Seq::<u8>::new(size as nat, |i: int| 0u8)),
            forall|l: Locator| l != loc ==> final(self).get_spec(l) == old(self).get_spec(l),
    {
        let bytes: Vec<u8> = vec![0u8; size];
        self.write(loc, bytes);
    }

    /// Replaces the object for `loc` with `bytes`.
    pub fn write(&mut self, loc: Locator, bytes: Vec<u8>)
        ensures
            final(self).get_spec(loc) == Some(bytes@),
            forall|l: Locator| l != loc ==> final(self).get_spec(l) == old(self).get_spec(l),
    {
        let ghost pre = self.entries@;
        let ghost entry_view = bytes@;
        self.entries.push((loc, bytes));
        proof {
            assert forall|l: Locator| #[trigger] final(self).get_spec(l) == if l == loc {
                Some(entry_view)
            } else {
                lookup(pre, l)
            } by {
                lemma_lookup_push(pre, l, (loc, final(self).entries@.last().1));
            }
        }
    }

    /// Whether an object exists for `loc`.
    pub fn contains(&self, loc: &Locator) -> (r: bool)
        ensures
            r == self.contains_spec(*loc),
    {
        self.reader(loc).is_some()
    }

    /// The object for `loc`, if one exists.
    pub fn reader(&self, loc: &Locator) -> (r: Option<&Vec<u8>>)
        ensures
            match r {
                Some(v) => self.get_spec(*loc) == Some(v@),
                None => self.get_spec(*loc) is None,
            },
    {
        let n = self.entries.len();
        let mut i = n;
        proof {
            assert(self.entries@.take(n as int) =~= self.entries@);
        }
        while i > 0
            invariant
                i <= n,
                n == self.entries@.len(),
                lookup(self.entries@, *loc) == lookup(self.entries@.take(i as int), *loc),
            decreases i,
        {
            i = i - 1;
            let entry = &self.entries[i];
            if entry.0 == *loc {
                proof {
                    let t = self.entries@.take(i as int + 1);
                    assert(t.last() == self.entries@[i as int]);
                }
                return Some(&entry.1);
            }
            proof {
                let t = self.entries@.take(i as int + 1);
                assert(t.last() == self.entries@[i as int]);
                assert(t.drop_last() =~= self.entries@.take(i as int));
            }
        }
        proof {
            assert(self.entries@.take(0) =~= Seq::<(Locator, Vec<u8>)>::empty());
        }
        None
    }

    /// Copies the object under `src` over the object under `dst`,
    /// overwriting the latter.  Fails if `src` holds nothing.
    pub fn copy(&mut self, src: &Locator, dst: Locator) -> (r: Result<(), ()>)
        ensures
            r is Ok <==> old(self).get_spec(*src) is Some,
            r is Ok ==> final(self).get_spec(dst) == old(self).get_spec(*src) && (forall|
                l: Locator,
            |
                l != dst ==> final(self).get_spec(l) == old(self).get_spec(l)),
            r is Err ==> *final(self) == *old(self),
    {
        let bytes = match self.reader(src) {
            Some(v) => clone_bytes(v),
            None => {
                return Err(());
            },
        };
        self.write(dst, bytes);
        Ok(())
    }
}

/// A copy of the given bytes.
pub fn clone_bytes(v: &Vec<u8>) -> (r: Vec<u8>)
    ensures
        r@ == v@,
{
    let mut out: Vec<u8> = Vec::new();
    let n = v.len();
    let mut i: usize = 0;
    while i < n
        invariant
            i <= n,
            n == v@.len(),
            out@ == v@.take(i as int),
        decreases n - i,
    {
        out.push(v[i]);
        proof {
            assert(v@.take(i as int).push(v@[i as int]) =~= v@.take(i as int + 1));
        }
        i = i + 1;
    }
    proof {
        assert(v@.take(n as int) =~= v@);
    }
    out
}

} // verus!
