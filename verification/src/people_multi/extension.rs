//! The transaction extension that lets a transaction act as a person: under the alias its
//! signer is held under, under an alias proved by membership in a ring, or as a person by a
//! signature of their key.
use vstd::prelude::*;

use crate::encoding::{blake2_256, blake2_256_of};
use crate::people_multi::{People, RingCrypto};
use crate::reality::{Alias, Context, ContextualAlias, PersonalId, RingIndex};
use crate::runtime::{AccountId, NonceInfo, Origin, ValidTransaction, ValidityError, Weight};

verus! {

/// How a transaction asks to act as a person.
pub enum AsPersonInfo<C: RingCrypto> {
    /// Under the alias its signer is held under, with the signer's nonce.
    AsPersonalAliasWithAccount(u64),
    /// Under the alias in the context that the proof of membership in the ring gives.
    AsPersonalAliasWithProof(C::Proof, RingIndex, Context),
    /// As the person, by a signature of their key.
    AsPersonalIdentityWithProof(C::Signature, PersonalId),
}

/// The transaction extension: how the transaction asks to act as a person, if it does.
pub struct AsPerson<C: RingCrypto>(pub Option<AsPersonInfo<C>>);

/// What validation hands to preparation.
#[derive(Clone, Copy, Debug, PartialEq, Eq)]
pub enum Val {
    NotUsing,
    UsingAliasWithAccount(AccountId, u64),
    UsingAliasWithProof,
    UsingIdentityWithProof,
}

/// What a transaction asks for, without its proofs.
#[derive(Clone, Copy, Debug, PartialEq, Eq)]
pub enum AsPersonClaim {
    AliasWithAccount { nonce: u64 },
    AliasWithProof { ring: RingIndex, context: Context },
    IdentityWithProof { index: PersonalId },
}

/// Where validation stands.
#[derive(Clone, Copy, Debug, PartialEq, Eq)]
pub enum Validation {
    /// The transaction is invalid.
    Invalid(ValidityError),
    /// The transaction is valid, with the default validity, and goes on with this value and
    /// origin.
    Valid(Val, Origin),
    /// The nonce of `who` is to be checked; the transaction then goes on as the alias `origin`.
    CheckNonce { who: AccountId, nonce: u64, origin: Origin },
}

/// What a transaction asks for.
pub open spec fn claim_of<C: RingCrypto>(info: Option<AsPersonInfo<C>>) -> Option<AsPersonClaim> {
    match info {
        None => None,
        Some(AsPersonInfo::AsPersonalAliasWithAccount(nonce)) => Some(
            AsPersonClaim::AliasWithAccount { nonce },
        ),
        Some(AsPersonInfo::AsPersonalAliasWithProof(_, ring, context)) => Some(
            AsPersonClaim::AliasWithProof { ring, context },
        ),
        Some(AsPersonInfo::AsPersonalIdentityWithProof(_, index)) => Some(
            AsPersonClaim::IdentityWithProof { index },
        ),
    }
}

/// What validation decides, `proof_alias` being the alias the proof of membership gives, if it
/// is valid, and `signature_valid` whether the person's signature verifies.
pub open spec fn as_person_outcome<C: RingCrypto>(
    people: People<C>,
    claim: Option<AsPersonClaim>,
    origin: Origin,
    proof_alias: Option<Alias>,
    signature_valid: bool,
) -> Validation {
    match claim {
        None => Validation::Valid(Val::NotUsing, origin),
        Some(AsPersonClaim::AliasWithAccount { nonce }) => match origin {
            Origin::Signed(who) => if !people.account_aliases().dom().contains(who@) {
                Validation::Invalid(ValidityError::BadSigner)
            } else {
                Validation::CheckNonce {
                    who,
                    nonce,
                    origin: Origin::PersonalAlias(people.account_aliases()[who@]),
                }
            },
            _ => Validation::Invalid(ValidityError::BadSigner),
        },
        Some(AsPersonClaim::AliasWithProof { ring, context }) => match origin {
            Origin::Unsigned => if !people.roots().dom().contains(ring) {
                Validation::Invalid(ValidityError::Call)
            } else {
                match proof_alias {
                    None => Validation::Invalid(ValidityError::BadProof),
                    Some(alias) => Validation::Valid(
                        Val::UsingAliasWithProof,
                        Origin::PersonalAlias(ContextualAlias { alias, context }),
                    ),
                }
            },
            _ => Validation::Invalid(ValidityError::BadSigner),
        },
        Some(AsPersonClaim::IdentityWithProof { index }) => match origin {
            Origin::Unsigned => if !people.records().dom().contains(index) {
                Validation::Invalid(ValidityError::BadSigner)
            } else if !signature_valid {
                Validation::Invalid(ValidityError::BadProof)
            } else {
                Validation::Valid(Val::UsingIdentityWithProof, Origin::PersonalIdentity(index))
            },
            _ => Validation::Invalid(ValidityError::BadSigner),
        },
    }
}

/// Whether `proof_alias` and `signature_valid` are the ring crypto's answers for a transaction
/// with the encoded implication `implication`: the proof of membership checked against the root
/// of its ring, its context and the BLAKE2-256 hash of the implication, and the person's
/// signature checked against that hash and the key in the person's record.
pub open spec fn crypto_answers<C: RingCrypto>(
    people: People<C>,
    info: Option<AsPersonInfo<C>>,
    origin: Origin,
    implication: Seq<u8>,
    proof_alias: Option<Alias>,
    signature_valid: bool,
) -> bool {
    match (info, origin) {
        (Some(AsPersonInfo::AsPersonalAliasWithProof(proof, ring, context)), Origin::Unsigned) =>
            people.roots().dom().contains(ring) ==> exists|c: &[u8], m: &[u8]|
                c@ == context@ && m@ == blake2_256_of(implication) && #[trigger] call_ensures(
                    C::validate,
                    (&proof, &people.roots()[ring].root, c, m),
                    proof_alias,
                ),
        (Some(AsPersonInfo::AsPersonalIdentityWithProof(signature, index)), Origin::Unsigned) =>
            people.records().dom().contains(index) ==> exists|m: &[u8]|
                m@ == blake2_256_of(implication) && #[trigger] call_ensures(
                    C::verify_signature,
                    (&signature, m, &people.records()[index].key),
                    signature_valid,
                ),
        _ => true,
    }
}

impl<C: RingCrypto> AsPerson<C> {
    /// The extension asking for `explicit`.
    pub fn new(explicit: Option<AsPersonInfo<C>>) -> (e: Self)
        ensures
            e.0 == explicit,
    {
        AsPerson(explicit)
    }

    /// The weight of the extension: none.
    pub fn weight() -> (w: Weight)
        ensures
            w == (Weight { ref_time: 0, proof_size: 0 }),
    {
        Weight::zero()
    }

    /// After dispatch: the weight refunded, none when the extension was used and its own
    /// weight when it was not.
    pub fn post_dispatch_details(pre: bool) -> (w: Weight)
        ensures
            w == (Weight { ref_time: 0, proof_size: 0 }),
    {
        if pre {
            Weight::zero()
        } else {
            Self::weight()
        }
    }

    /// What the transaction asks for.
    pub fn claim(&self) -> (c: Option<AsPersonClaim>)
        ensures
            c == claim_of(self.0),
    {
        match &self.0 {
            None => None,
            Some(AsPersonInfo::AsPersonalAliasWithAccount(nonce)) => Some(
                AsPersonClaim::AliasWithAccount { nonce: *nonce },
            ),
            Some(AsPersonInfo::AsPersonalAliasWithProof(_, ring, context)) => Some(
                AsPersonClaim::AliasWithProof { ring: *ring, context: *context },
            ),
            Some(AsPersonInfo::AsPersonalIdentityWithProof(_, index)) => Some(
                AsPersonClaim::IdentityWithProof { index: *index },
            ),
        }
    }

    /// Validates a transaction with origin `origin`, given the alias the proof of membership
    /// gives, if it is valid, and whether the person's signature verifies.
    pub fn validate_checked(
        &self,
        people: &People<C>,
        origin: Origin,
        proof_alias: Option<Alias>,
        signature_valid: bool,
    ) -> (r: Validation)
        requires
            people.wf(),
        ensures
            r == as_person_outcome(*people, claim_of(self.0), origin, proof_alias, signature_valid),
    {
        match self.claim() {
            None => Validation::Valid(Val::NotUsing, origin),
            Some(AsPersonClaim::AliasWithAccount { nonce }) => {
                let who = match origin {
                    Origin::Signed(who) => who,
                    _ => return Validation::Invalid(ValidityError::BadSigner),
                };
                match people.account_alias(&who) {
                    Some(ca) => Validation::CheckNonce {
                        who,
                        nonce,
                        origin: Origin::PersonalAlias(ca),
                    },
                    None => Validation::Invalid(ValidityError::BadSigner),
                }
            },
            Some(AsPersonClaim::AliasWithProof { ring, context }) => {
                match origin {
                    Origin::Unsigned => {},
                    _ => return Validation::Invalid(ValidityError::BadSigner),
                }
                if people.ring_root(ring).is_none() {
                    return Validation::Invalid(ValidityError::Call);
                }
                match proof_alias {
                    None => Validation::Invalid(ValidityError::BadProof),
                    Some(alias) => Validation::Valid(
                        Val::UsingAliasWithProof,
                        Origin::PersonalAlias(ContextualAlias { alias, context }),
                    ),
                }
            },
            Some(AsPersonClaim::IdentityWithProof { index }) => {
                match origin {
                    Origin::Unsigned => {},
                    _ => return Validation::Invalid(ValidityError::BadSigner),
                }
                if people.person(index).is_none() {
                    return Validation::Invalid(ValidityError::BadSigner);
                }
                if !signature_valid {
                    return Validation::Invalid(ValidityError::BadProof);
                }
                Validation::Valid(Val::UsingIdentityWithProof, Origin::PersonalIdentity(index))
            },
        }
    }

    /// Validates a transaction with origin `origin` whose encoded implication is `implication`:
    /// the proof of membership, or the person's signature, is checked against the BLAKE2-256
    /// hash of the implication.
    ///
    /// Whether the proof or the signature is valid is the ring crypto's answer: the outcome is
    /// that of [`Self::validate_checked`] for its answer on that hash.
    pub fn validate(&self, people: &People<C>, origin: Origin, implication: &[u8]) -> (r:
        Validation)
        requires
            people.wf(),
        ensures
            exists|proof_alias: Option<Alias>, signature_valid: bool|
                r == #[trigger] as_person_outcome(
                    *people,
                    claim_of(self.0),
                    origin,
                    proof_alias,
                    signature_valid,
                ) && crypto_answers(*people, self.0, origin, implication@, proof_alias, signature_valid),
    {
        let mut proof_alias: Option<Alias> = None;
        let mut signature_valid = false;
        match (&self.0, origin) {
            (Some(AsPersonInfo::AsPersonalAliasWithProof(proof, ring, context)), Origin::Unsigned) => {
                match people.ring_root(*ring) {
                    Some(members) => {
                        let msg = blake2_256(implication);
                        let hashed: &[u8] = msg.as_slice();
                        let ctx: &[u8] = context.as_slice();
                        proof_alias = C::validate(proof, members, ctx, hashed);
                        proof {
                            assert(call_ensures(C::validate, (proof, members, ctx, hashed), proof_alias));
                        }
                    },
                    None => {},
                }
            },
            (Some(AsPersonInfo::AsPersonalIdentityWithProof(signature, index)), Origin::Unsigned) => {
                if people.person(*index).is_some() {
                    let msg = blake2_256(implication);
                    let hashed: &[u8] = msg.as_slice();
                    signature_valid = people.verify_signature(*index, hashed, signature);
                }
            },
            _ => {},
        }
        self.validate_checked(people, origin, proof_alias, signature_valid)
    }

    /// Completes a validation that asked for the nonce check of `who`, with the outcome of that
    /// check.
    pub fn finish_validation(
        who: AccountId,
        nonce: u64,
        origin: Origin,
        nonce_check: Result<NonceInfo, ValidityError>,
    ) -> (r: Result<(ValidTransaction, Val, Origin), ValidityError>)
        ensures
            match nonce_check {
                Err(e) => r == Err::<(ValidTransaction, Val, Origin), ValidityError>(e),
                Ok(info) => r is Ok && r->Ok_0.0.required_tags == info.required_tags && r->Ok_0.0.provided_tags
                    == info.provided_tags && r->Ok_0.0.priority == 0 && r->Ok_0.0.longevity == u64::MAX
                    && r->Ok_0.0.propagate && r->Ok_0.1 == Val::UsingAliasWithAccount(who, nonce)
                    && r->Ok_0.2 == origin,
            },
    {
        match nonce_check {
            Err(e) => Err(e),
            Ok(info) => Ok(
                (
                    ValidTransaction::with_tags(info.required_tags, info.provided_tags),
                    Val::UsingAliasWithAccount(who, nonce),
                    origin,
                ),
            ),
        }
    }

    /// The account whose nonce preparation must prepare, with the nonce, if any.
    pub fn nonce_to_prepare(val: Val) -> (r: Option<(AccountId, u64)>)
        ensures
            r == match val {
                Val::UsingAliasWithAccount(who, nonce) => Some((who, nonce)),
                _ => None,
            },
    {
        match val {
            Val::UsingAliasWithAccount(who, nonce) => Some((who, nonce)),
            _ => None,
        }
    }

    /// Whether the extension is used, once the nonce of the account in `val`, if any, was prepared
    /// with the outcome `nonce_prepared`.
    pub fn prepare(self, val: Val, nonce_prepared: Result<(), ValidityError>) -> (r: Result<
        bool,
        ValidityError,
    >)
        ensures
            r == match val {
                Val::NotUsing => Ok::<bool, ValidityError>(false),
                Val::UsingAliasWithAccount(_, _) => match nonce_prepared {
                    Err(e) => Err(e),
                    Ok(_) => Ok(true),
                },
                _ => Ok(true),
            },
    {
        match val {
            Val::NotUsing => Ok(false),
            Val::UsingAliasWithAccount(_, _) => match nonce_prepared {
                Err(e) => Err(e),
                Ok(_) => Ok(true),
            },
            Val::UsingAliasWithProof => Ok(true),
            Val::UsingIdentityWithProof => Ok(true),
        }
    }
}

} // verus!
