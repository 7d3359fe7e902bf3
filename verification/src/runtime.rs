//! What the pallets share with the runtime around them: accounts, origins, dispatch outcomes,
//! weights and the effects they ask of the system pallet.
use vstd::prelude::*;

use crate::reality::{ContextualAlias, PersonalId};

verus! {

/// An account: 32 bytes, as the statement store and the signature schemes identify accounts.
pub type AccountId = [u8; 32];

/// The caller of a dispatched call: the origins of the system and of the people pallets.
#[derive(Clone, Copy, Debug, PartialEq, Eq)]
pub enum Origin {
    /// The root origin.
    Root,
    /// A signed origin.
    Signed(AccountId),
    /// An unsigned origin.
    Unsigned,
    /// A registered lite person.
    LitePerson(AccountId),
    /// An account registering as a lite person.
    LitePersonRegistration(AccountId),
    /// A person by their personal identity.
    PersonalIdentity(PersonalId),
    /// A person by their alias within a context.
    PersonalAlias(ContextualAlias),
}

/// Why a dispatched call failed.
#[derive(Clone, Copy, Debug, PartialEq, Eq)]
pub enum DispatchError<E> {
    /// The origin is not allowed to make this call.
    BadOrigin,
    /// An arithmetic operation overflowed.
    Overflow,
    /// The pallet refused the call.
    Module(E),
}

/// Whether the caller pays the fee of a call.
#[derive(Clone, Copy, Debug, PartialEq, Eq)]
pub enum Pays {
    Yes,
    No,
}

/// A change to the reference counts of the system pallet that a call asks for.
#[derive(Clone, Copy, Debug, PartialEq, Eq)]
pub enum SystemEffect {
    /// Increment the sufficient references of the account.
    IncSufficients(AccountId),
    /// Decrement the sufficient references of the account.
    DecSufficients(AccountId),
}

/// Why a transaction is not valid.
#[derive(Clone, Copy, Debug, PartialEq, Eq)]
pub enum ValidityError {
    /// The signer is not the expected one.
    BadSigner,
    /// A proof or a signature does not verify.
    BadProof,
    /// The call cannot be applied.
    Call,
    /// The nonce of the transaction is too low.
    Stale,
    /// The nonce of the transaction is too high.
    Future,
    /// The account cannot pay for the transaction.
    Payment,
    /// A validity error of a pallet, by its code.
    Custom(u8),
}

/// How a valid transaction is to be handled by the pool.
#[derive(Clone, Debug, PartialEq, Eq)]
pub struct ValidTransaction {
    pub priority: u64,
    pub required_tags: Vec<Vec<u8>>,
    pub provided_tags: Vec<Vec<u8>>,
    pub longevity: u64,
    pub propagate: bool,
}

/// The tags a transaction's nonce requires and provides.
#[derive(Clone, Debug, PartialEq, Eq)]
pub struct NonceInfo {
    pub required_tags: Vec<Vec<u8>>,
    pub provided_tags: Vec<Vec<u8>>,
}

impl ValidTransaction {
    /// The validity with these tags and otherwise the defaults: priority zero, the longest
    /// longevity, and propagated.
    pub fn with_tags(required_tags: Vec<Vec<u8>>, provided_tags: Vec<Vec<u8>>) -> (v: ValidTransaction)
        ensures
            v.priority == 0,
            v.required_tags == required_tags,
            v.provided_tags == provided_tags,
            v.longevity == u64::MAX,
            v.propagate,
    {
        ValidTransaction {
            priority: 0,
            required_tags,
            provided_tags,
            longevity: u64::MAX,
            propagate: true,
        }
    }

    /// The default validity: no tags, priority zero, the longest longevity, and propagated.
    pub fn default_validity() -> (v: ValidTransaction)
        ensures
            v.priority == 0,
            v.required_tags@.len() == 0,
            v.provided_tags@.len() == 0,
            v.longevity == u64::MAX,
            v.propagate,
    {
        ValidTransaction::with_tags(Vec::new(), Vec::new())
    }
}

/// A signature of a ring member, checked against the member's key.
///
/// The runtime chooses the scheme; nothing is assumed of it.
pub trait MemberSignature {
    /// Whether `self` is a valid signature of `msg` by the member with key `member`.
    fn verify_member(&self, msg: &[u8], member: &[u8; 32]) -> bool;
}

/// A weight: computation time and proof size.
#[derive(Clone, Copy, Debug, PartialEq, Eq)]
pub struct Weight {
    pub ref_time: u64,
    pub proof_size: u64,
}

impl Weight {
    /// The weight of nothing.
    pub fn zero() -> (w: Weight)
        ensures
            w.ref_time == 0,
            w.proof_size == 0,
    {
        Weight { ref_time: 0, proof_size: 0 }
    }

    /// The sum of two weights, each part saturating at its largest value.
    pub fn saturating_add(self, other: Weight) -> (w: Weight)
        ensures
            w.ref_time == if self.ref_time + other.ref_time > u64::MAX {
                u64::MAX as int
            } else {
                self.ref_time + other.ref_time
            },
            w.proof_size == if self.proof_size + other.proof_size > u64::MAX {
                u64::MAX as int
            } else {
                self.proof_size + other.proof_size
            },
    {
        Weight {
            ref_time: self.ref_time.saturating_add(other.ref_time),
            proof_size: self.proof_size.saturating_add(other.proof_size),
        }
    }
}

impl Weight {
    /// Each part the smaller of the two.
    pub fn min(self, other: Weight) -> (w: Weight)
        ensures
            w.ref_time == if self.ref_time <= other.ref_time {
                self.ref_time
            } else {
                other.ref_time
            },
            w.proof_size == if self.proof_size <= other.proof_size {
                self.proof_size
            } else {
                other.proof_size
            },
    {
        Weight {
            ref_time: if self.ref_time <= other.ref_time {
                self.ref_time
            } else {
                other.ref_time
            },
            proof_size: if self.proof_size <= other.proof_size {
                self.proof_size
            } else {
                other.proof_size
            },
        }
    }
}

/// What is known of a call before it is dispatched: its declared weight and the weight of the
/// transaction extensions.
#[derive(Clone, Copy, Debug, PartialEq, Eq)]
pub struct DispatchInfo {
    pub call_weight: Weight,
    pub extension_weight: Weight,
}

/// The sum of two weights, each part saturating at its largest value.
pub open spec fn weight_sum(a: Weight, b: Weight) -> Weight {
    Weight {
        ref_time: if a.ref_time + b.ref_time > u64::MAX {
            u64::MAX
        } else {
            (a.ref_time + b.ref_time) as u64
        },
        proof_size: if a.proof_size + b.proof_size > u64::MAX {
            u64::MAX
        } else {
            (a.proof_size + b.proof_size) as u64
        },
    }
}

/// Each part the smaller of the two.
pub open spec fn weight_min(a: Weight, b: Weight) -> Weight {
    Weight {
        ref_time: if a.ref_time <= b.ref_time {
            a.ref_time
        } else {
            b.ref_time
        },
        proof_size: if a.proof_size <= b.proof_size {
            a.proof_size
        } else {
            b.proof_size
        },
    }
}

impl DispatchInfo {
    /// The weight of the call and of the extensions together.
    pub fn total_weight(&self) -> (w: Weight)
        ensures
            w == weight_sum(self.call_weight, self.extension_weight),
    {
        self.call_weight.saturating_add(self.extension_weight)
    }
}

/// The weight a dispatched call used: the weight it reports, `actual`, bounded part by part by
/// the total weight declared before dispatch, or that total when it reports none.
pub open spec fn actual_weight_of(actual: Option<Weight>, info: DispatchInfo) -> Weight {
    match actual {
        Some(a) => weight_min(a, weight_sum(info.call_weight, info.extension_weight)),
        None => weight_sum(info.call_weight, info.extension_weight),
    }
}

/// The weight a dispatched call used, from the weight it reports, if any, and what was
/// declared before dispatch.
pub fn extract_actual_weight(actual: Option<Weight>, info: &DispatchInfo) -> (w: Weight)
    ensures
        w == actual_weight_of(actual, *info),
{
    match actual {
        Some(a) => a.min(info.total_weight()),
        None => info.total_weight(),
    }
}

/// A signature that can be checked against a message and the account that signed it.
///
/// The runtime chooses the signature scheme; nothing is assumed of it.
pub trait Verify {
    /// Whether `self` is a valid signature of `msg` by `signer`.
    fn verify(&self, msg: &[u8], signer: &AccountId) -> bool;
}

/// A point in time since the UNIX epoch: whole seconds, and nanoseconds below one billion.
#[derive(Clone, Copy, Debug, PartialEq, Eq)]
pub struct UnixTime {
    pub secs: u64,
    pub subsec_nanos: u32,
}

/// The account of a signed origin.
pub fn ensure_signed(origin: Origin) -> (r: Result<AccountId, ()>)
    ensures
        r == match origin {
            Origin::Signed(who) => Ok::<AccountId, ()>(who),
            _ => Err(()),
        },
{
    match origin {
        Origin::Signed(who) => Ok(who),
        _ => Err(()),
    }
}

/// Whether the origin is the root origin.
pub fn ensure_root(origin: Origin) -> (r: Result<(), ()>)
    ensures
        r is Ok <==> origin is Root,
{
    match origin {
        Origin::Root => Ok(()),
        _ => Err(()),
    }
}

} // verus!
