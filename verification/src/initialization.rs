//! Round initialization for one chunk: the initial challenge file is
//! assembled from a blank transcript digest and the externally
//! produced parameter bytes, stored, copied forward to the next
//! round's slot, and the copy is checked by digest comparison.

use crate::digests::blake2b_digest;
use crate::digests::blake2b_of;
use crate::errors::CoordinatorError;
use crate::objects::ContributionLocator;
use crate::storage::clone_bytes;
use crate::storage::Locator;
use crate::storage::MemoryStorage;
use vstd::prelude::*;

verus! {

/// The transcript digest of nothing: what a fresh challenge file
/// starts with.
pub fn blank_hash() -> (r: Vec<u8>)
    ensures
        r@ == blake2b_of(Seq::<u8>::empty()),
{
    let empty: Vec<u8> = Vec::new();
    blake2b_digest(empty.as_slice())
}

/// Runs chunk initialization for a given round height and chunk id.
pub struct Initialization;

impl Initialization {
    /// The contents of a fresh challenge file: the blank transcript
    /// digest followed by the externally produced parameter bytes.
    pub fn initialization(params: &Vec<u8>) -> (r: Vec<u8>)
        ensures
            r@ == blake2b_of(Seq::<u8>::empty()) + params@,
    {
        let mut out = blank_hash();
        let n = params.len();
        let mut i: usize = 0;
        proof {
            assert(out@ + params@.take(0) =~= out@);
        }
        let ghost blank = out@;
        while i < n
            invariant
                i <= n,
                n == params@.len(),
                out@ == blank + params@.take(i as int),
            decreases n - i,
        {
            out.push(params[i]);
            proof {
                assert((blank + params@.take(i as int)).push(params@[i as int]) =~= blank
                    + params@.take(i as int + 1));
            }
            i = i + 1;
        }
        proof {
            assert(params@.take(n as int) =~= params@);
        }
        out
    }

    /// Computes both contribution digests and checks them for
    /// equivalence: the copy must be byte-identical to the original.
    pub fn check_hash(storage: &MemoryStorage, current: &Locator, next: &Locator) -> (r: Result<
        Vec<u8>,
        CoordinatorError,
    >)
        ensures
            match r {
                Ok(h) => {
                    &&& storage.get_spec(*current) is Some
                    &&& storage.get_spec(*next) is Some
                    &&& blake2b_of(storage.get_spec(*current)->Some_0) == blake2b_of(
                        storage.get_spec(*next)->Some_0,
                    )
                    &&& h@ == blake2b_of(storage.get_spec(*next)->Some_0)
                },
                Err(e) => match e {
                    CoordinatorError::StorageObjectMissing => storage.get_spec(*current) is None
                        || storage.get_spec(*next) is None,
                    CoordinatorError::InitializationTranscriptsDiffer => blake2b_of(
                        storage.get_spec(*current)->Some_0,
                    ) != blake2b_of(storage.get_spec(*next)->Some_0),
                    _ => false,
                },
            },
    {
        let h0 = match storage.reader(current) {
            Some(v) => blake2b_digest(v.as_slice()),
            None => {
                return Err(CoordinatorError::StorageObjectMissing);
            },
        };
        let h1 = match storage.reader(next) {
            Some(v) => blake2b_digest(v.as_slice()),
            None => {
                return Err(CoordinatorError::StorageObjectMissing);
            },
        };
        if crate::coordinator::bytes_equal(&h0, &h1) {
            Ok(h1)
        } else {
            Err(CoordinatorError::InitializationTranscriptsDiffer)
        }
    }

    /// Initializes the chunk: stores the fresh challenge under the
    /// round's first verified slot, copies it forward to the next
    /// round, checks the copy by digest, and returns the challenge
    /// digest.
    pub fn run(storage: &mut MemoryStorage, round_height: u64, chunk_id: u64, params: &Vec<u8>)
        -> (r: Result<Vec<u8>, CoordinatorError>)
        requires
            round_height < 0xffffffffffffffff,
        ensures
            ({
                let content = blake2b_of(Seq::<u8>::empty()) + params@;
                let current = Locator::ContributionFile(
                    ContributionLocator { round_height, chunk_id, contribution_id: 0, is_verified: true },
                );
                let next = Locator::ContributionFile(
                    ContributionLocator {
                        round_height: (round_height + 1) as u64,
                        chunk_id,
                        contribution_id: 0,
                        is_verified: true,
                    },
                );
                &&& r matches Ok(h) && h@ == blake2b_of(content)
                &&& final(storage).get_spec(current) == Some(content)
                &&& final(storage).get_spec(next) == Some(content)
                &&& forall|l: Locator|
                    l != current && l != next ==> final(storage).get_spec(l) == old(
                        storage,
                    ).get_spec(l)
            }),
    {
        let content = Self::initialization(params);
        let current = ContributionLocator::new(round_height, chunk_id, 0, true);
        let next = ContributionLocator::new(round_height + 1, chunk_id, 0, true);
        storage.write(Locator::ContributionFile(current), content);
        let copied = storage.copy(
            &Locator::ContributionFile(current),
            Locator::ContributionFile(next),
        );
        proof {
            assert(copied is Ok);
        }
        // the copy must digest identically to the original
        match Self::check_hash(
            storage,
            &Locator::ContributionFile(current),
            &Locator::ContributionFile(next),
        ) {
            Ok(h) => Ok(h),
            Err(e) => {
                proof {
                    assert(false);
                }
                Err(e)
            },
        }
    }
}

} // verus!
