//! The proof of work by which a node may be asked to show that it spent
//! effort before it is admitted.
//!
//! A token is a time and a number. It is a proof where the position of its
//! bytes starts with as many zero bytes as the difficulty asks for, and it
//! is valid for a few seconds after its time.

use crate::constants::{POW_DIFFICULTY, POW_TOKEN_LIVE_TIME};
use crate::conversions::{be_bytes, pos_to_bytes, position_bytes, push_u64};
use crate::crypto::{hash, spec_hash};
use crate::ring::HashPos;
use crate::time::{expired_at, now};
use vstd::prelude::*;

verus! {

/// A proof of work.
#[derive(Clone, Copy, Debug, Default, PartialEq, Eq, Structural)]
pub struct PowToken {
    /// When the search for the token began, in seconds since the epoch.
    pub timestamp: u64,
    /// The number that was found.
    pub nonce: u64,
}

/// The bytes of a token: its time, then its number, eight bytes each with
/// the highest first.
pub open spec fn token_bytes(token: PowToken) -> Seq<u8> {
    be_bytes(token.timestamp as nat, 8) + be_bytes(token.nonce as nat, 8)
}

/// Whether the first `difficulty` bytes of `bytes` are zero; where there
/// are fewer bytes, whether all of them are.
pub open spec fn leading_zeros(bytes: Seq<u8>, difficulty: int) -> bool {
    forall|i: int| 0 <= i < difficulty && i < bytes.len() ==> #[trigger] bytes[i] == 0
}

/// Whether `token` is a proof of work of the given difficulty.
pub open spec fn spec_meets(token: PowToken, difficulty: int) -> bool {
    leading_zeros(position_bytes(spec_hash(token_bytes(token)) as HashPos), difficulty)
}

/// Whether `token` is too old at the time `now_secs`.
pub open spec fn spec_expired(token: PowToken, now_secs: int) -> bool {
    now_secs > token.timestamp + POW_TOKEN_LIVE_TIME
}

/// The token with the given time whose number lies `steps` strides behind
/// `start`.
pub open spec fn candidate(timestamp: u64, start: u64, stride: u64, steps: int) -> PowToken {
    PowToken { timestamp, nonce: (start + steps * stride) as u64 }
}

impl PowToken {
    /// The bytes of the token.
    pub fn serialize(&self) -> (bytes: Vec<u8>)
        ensures
            bytes@ == token_bytes(*self),
    {
        let mut bytes: Vec<u8> = Vec::new();
        push_u64(&mut bytes, self.timestamp);
        push_u64(&mut bytes, self.nonce);
        assert(bytes@ =~= token_bytes(*self));
        bytes
    }

    /// Whether the token is a proof of work of the given difficulty.
    pub fn check_trailing_zeros(&self, difficulty: usize) -> (proved: bool)
        ensures
            proved == spec_meets(*self, difficulty as int),
    {
        let serialized = self.serialize();
        let pos: HashPos = hash(serialized.as_slice());
        let bytes = pos_to_bytes(pos);
        assert(spec_hash(token_bytes(*self)) as HashPos == pos);
        let mut i: usize = 0;
        while i < bytes.len() && i < difficulty
            invariant
                i <= bytes@.len(),
                bytes@ == position_bytes(spec_hash(token_bytes(*self)) as HashPos),
                forall|j: int| 0 <= j < i ==> #[trigger] bytes@[j] == 0,
            decreases bytes@.len() - i,
        {
            if bytes[i] != 0 {
                assert(bytes@[i as int] != 0);
                return false;
            }
            i = i + 1;
        }
        true
    }

    /// Whether the token is too old at the time `now_secs`.
    pub fn has_expired_at(&self, now_secs: u64) -> (expired: bool)
        ensures
            expired == spec_expired(*self, now_secs as int),
    {
        expired_at(now_secs, self.timestamp.saturating_add(POW_TOKEN_LIVE_TIME))
    }

    /// Whether the token is too old at the time `now_secs`, and whether it
    /// is a proof of work of the given difficulty.
    pub fn validate_at(&self, now_secs: u64, difficulty: usize) -> (verdict: (bool, bool))
        ensures
            verdict.0 == spec_expired(*self, now_secs as int),
            verdict.1 == spec_meets(*self, difficulty as int),
    {
        (self.has_expired_at(now_secs), self.check_trailing_zeros(difficulty))
    }

    /// Whether the token is too old by the clock of this machine, and
    /// whether it is a proof of work of the usual difficulty.
    pub fn validate(&self) -> (verdict: (bool, bool))
        ensures
            verdict.1 == spec_meets(*self, POW_DIFFICULTY as int),
    {
        self.validate_at(now().as_secs(), POW_DIFFICULTY)
    }

    /// Looks for a proof of work among the tokens of the given time whose
    /// numbers are `start`, `start + stride`, and so on, `steps` of them at
    /// most, and returns the first one. The search ends early where the
    /// numbers leave the range of a token's number.
    pub fn mine(timestamp: u64, difficulty: usize, start: u64, stride: u64, steps: u64) -> (found:
        Option<PowToken>)
        ensures
            match found {
                Some(token) => exists|k: int|
                    {
                        &&& 0 <= k < steps
                        &&& start + k * stride <= u64::MAX
                        &&& token == #[trigger] candidate(timestamp, start, stride, k)
                        &&& spec_meets(token, difficulty as int)
                        &&& forall|j: int|
                            0 <= j < k ==> !spec_meets(
                                #[trigger] candidate(timestamp, start, stride, j),
                                difficulty as int,
                            )
                    },
                None => forall|j: int|
                    0 <= j < steps && start + j * stride <= u64::MAX ==> !spec_meets(
                        #[trigger] candidate(timestamp, start, stride, j),
                        difficulty as int,
                    ),
            },
    {
        let mut nonce: u64 = start;
        let mut k: u64 = 0;
        while k < steps
            invariant
                k <= steps,
                nonce == start + k * stride,
                forall|j: int|
                    0 <= j < k ==> !spec_meets(
                        #[trigger] candidate(timestamp, start, stride, j),
                        difficulty as int,
                    ),
            decreases steps - k,
        {
            let token = PowToken { timestamp, nonce };
            assert(token == candidate(timestamp, start, stride, k as int));
            if token.check_trailing_zeros(difficulty) {
                return Some(token);
            }
            match nonce.checked_add(stride) {
                Some(next) => {
                    assert((k + 1) * stride == k * stride + stride) by (nonlinear_arith);
                    nonce = next;
                },
                None => {
                    assert forall|j: int|
                        0 <= j < steps && start + j * stride <= u64::MAX implies !spec_meets(
                        #[trigger] candidate(timestamp, start, stride, j),
                        difficulty as int,
                    ) by {
                        if j > k {
                            assert(j * stride >= (k + 1) * stride) by (nonlinear_arith)
                                requires
                                    j >= k + 1,
                                    stride >= 0,
                            ;
                            assert((k + 1) * stride == k * stride + stride) by (nonlinear_arith);
                        }
                    }
                    return None;
                },
            }
            k = k + 1;
        }
        None
    }

    /// Looks for a proof of work of the usual difficulty, with the time of
    /// this machine's clock: the first proof among the numbers from 0 up.
    /// Where the time that a token is valid for runs out before, it gives
    /// up and returns the token with the number 0, which is then no proof.
    pub fn new() -> (token: PowToken)
        ensures
            token.nonce == 0 || spec_meets(token, POW_DIFFICULTY as int),
            spec_meets(token, POW_DIFFICULTY as int) ==> forall|j: int|
                0 <= j < token.nonce ==> !spec_meets(
                    #[trigger] candidate(token.timestamp, 0, 1, j),
                    POW_DIFFICULTY as int,
                ),
    {
        let timestamp: u64 = now().as_secs();
        let mut tried = PowToken { timestamp, nonce: 0 };
        while tried.nonce < u64::MAX
            invariant
                tried.timestamp == timestamp,
                forall|j: int|
                    0 <= j < tried.nonce ==> !spec_meets(
                        #[trigger] candidate(timestamp, 0, 1, j),
                        POW_DIFFICULTY as int,
                    ),
            decreases u64::MAX - tried.nonce,
        {
            assert(tried == candidate(timestamp, 0, 1, tried.nonce as int));
            if tried.check_trailing_zeros(POW_DIFFICULTY) {
                return tried;
            }
            if tried.has_expired_at(now().as_secs()) {
                assert(PowToken { timestamp, nonce: 0 } == candidate(timestamp, 0, 1, 0));
                return PowToken { timestamp, nonce: 0 };
            }
            tried = PowToken { timestamp, nonce: tried.nonce + 1 };
        }
        assert(PowToken { timestamp, nonce: 0 } == candidate(timestamp, 0, 1, 0));
        PowToken { timestamp, nonce: 0 }
    }
}

} // verus!
