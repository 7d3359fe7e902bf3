//! The transaction extension that lets a signed origin act as a lite person, or register as one.
use vstd::prelude::*;

use crate::encoding::encode_account;
use crate::people_lite::{Member, PeopleLite, PROOF_OF_OWNERSHIP_PREFIX};
use crate::runtime::{
    AccountId, MemberSignature, NonceInfo, Origin, SystemEffect, ValidTransaction, ValidityError,
    Verify, Weight,
};
use crate::weights::PeopleLiteWeightInfo;

verus! {

/// Why the extension finds a transaction invalid.
#[derive(Clone, Copy, Debug, PartialEq, Eq)]
pub enum CustomError {
    /// The origin is not a signed origin.
    OriginNotSigned,
    /// The signed origin is not a registered lite person.
    NotLitePerson,
    /// The call is not the `register` call.
    CallNotRegister,
    /// The signed origin is already registered as a lite person.
    AlreadyRegistered,
    /// The proof of ownership of the ring VRF key is invalid.
    InvalidProofOfOwnership,
    /// There is no unclaimed attestation for the given verifier and attestation.
    NoUnclaimedAttestation,
    /// The attestation signature is invalid.
    InvalidAttestationSignature,
}

/// The code of each custom validity error.
pub open spec fn custom_error_code(e: CustomError) -> u8 {
    match e {
        CustomError::OriginNotSigned => 170,
        CustomError::NotLitePerson => 171,
        CustomError::CallNotRegister => 172,
        CustomError::AlreadyRegistered => 173,
        CustomError::InvalidProofOfOwnership => 174,
        CustomError::NoUnclaimedAttestation => 175,
        CustomError::InvalidAttestationSignature => 176,
    }
}

impl CustomError {
    /// The code of the error.
    pub fn code(&self) -> (c: u8)
        ensures
            c == custom_error_code(*self),
    {
        match self {
            CustomError::OriginNotSigned => 170,
            CustomError::NotLitePerson => 171,
            CustomError::CallNotRegister => 172,
            CustomError::AlreadyRegistered => 173,
            CustomError::InvalidProofOfOwnership => 174,
            CustomError::NoUnclaimedAttestation => 175,
            CustomError::InvalidAttestationSignature => 176,
        }
    }
}

impl From<CustomError> for ValidityError {
    fn from(e: CustomError) -> (r: ValidityError) {
        ValidityError::Custom(e.code())
    }
}

impl vstd::std_specs::convert::FromSpecImpl<CustomError> for ValidityError {
    open spec fn obeys_from_spec() -> bool {
        true
    }

    open spec fn from_spec(e: CustomError) -> ValidityError {
        ValidityError::Custom(custom_error_code(e))
    }
}

/// How a transaction asks to be authorized.
#[derive(Clone, Copy, Debug, PartialEq, Eq)]
pub enum PeopleLiteAuthData {
    /// As the registered lite person that signed it.
    AsLitePerson { nonce: u64 },
    /// As the account that signed it, registering as a lite person.
    AsLitePersonRegistration { nonce: u64 },
}

/// The transaction extension: how the transaction asks to be authorized, if it does.
#[derive(Clone, Copy, Debug, PartialEq, Eq)]
pub struct PeopleLiteAuth(pub Option<PeopleLiteAuthData>);

/// What validation hands to preparation.
#[derive(Clone, Copy, Debug, PartialEq, Eq)]
pub enum PeopleLiteAuthVal {
    AsLitePerson(AccountId, u64),
    AsLitePersonRegistration(AccountId, u64),
    Unused,
}

/// What preparation hands to post dispatch.
#[derive(Clone, Copy, Debug, PartialEq, Eq)]
pub enum PeopleLiteAuthPre {
    AsLitePerson,
    AsLitePersonRegistration(AccountId),
    Unused,
}

/// What the extension reads of the call when it is a `register` call.
#[derive(Clone, Copy, Debug, PartialEq, Eq)]
pub struct RegistrationClaim {
    pub ring_vrf_key: Member,
    pub verifier: AccountId,
    pub attestation: AccountId,
}

/// A `register` call with its proofs.
pub struct RegisterCall<P, S> {
    pub ring_vrf_key: Member,
    pub special_key: [u8; 32],
    pub proof_of_ownership: P,
    pub verifier: AccountId,
    pub attestation: AccountId,
    pub attestation_signature: S,
}

/// Where validation stands.
#[derive(Clone, Copy, Debug, PartialEq, Eq)]
pub enum Validation {
    /// The transaction is invalid.
    Invalid(ValidityError),
    /// The extension is not used: the transaction is valid as far as it goes, with its origin.
    NotUsing(Origin),
    /// The nonce of `who` is to be checked, after its sufficient references are incremented when
    /// `inc_sufficients` says so; the transaction then goes on with `val` and `origin`.
    CheckNonce {
        who: AccountId,
        nonce: u64,
        inc_sufficients: bool,
        val: PeopleLiteAuthVal,
        origin: Origin,
    },
}

/// The message a registration's proof of ownership signs: the prefix, then the encoded account.
pub open spec fn registration_message_of(who: AccountId) -> Seq<u8> {
    PROOF_OF_OWNERSHIP_PREFIX@ + who@
}

/// What validation decides, `attestation_valid` and `ownership_valid` being whether the
/// attestation signature and the proof of ownership verify.
pub open spec fn validation_outcome(
    lite: PeopleLite,
    auth: PeopleLiteAuth,
    origin: Origin,
    call: Option<RegistrationClaim>,
    attestation_valid: bool,
    ownership_valid: bool,
) -> Validation {
    match auth.0 {
        None => Validation::NotUsing(origin),
        Some(PeopleLiteAuthData::AsLitePerson { nonce }) => match origin {
            Origin::Signed(who) => if !lite.lite_people().dom().contains(who@) {
                Validation::Invalid(ValidityError::Custom(171))
            } else {
                Validation::CheckNonce {
                    who,
                    nonce,
                    inc_sufficients: false,
                    val: PeopleLiteAuthVal::AsLitePerson(who, nonce),
                    origin: Origin::LitePerson(who),
                }
            },
            _ => Validation::Invalid(ValidityError::Custom(170)),
        },
        Some(PeopleLiteAuthData::AsLitePersonRegistration { nonce }) => match origin {
            Origin::Signed(who) => match call {
                None => Validation::Invalid(ValidityError::Custom(172)),
                Some(c) => if !lite.unclaimed_of(c.verifier@).contains(c.attestation@) {
                    Validation::Invalid(ValidityError::Custom(175))
                } else if !attestation_valid {
                    Validation::Invalid(ValidityError::Custom(176))
                } else if lite.lite_people().dom().contains(who@) {
                    Validation::Invalid(ValidityError::Custom(173))
                } else if !ownership_valid {
                    Validation::Invalid(ValidityError::Custom(174))
                } else {
                    Validation::CheckNonce {
                        who,
                        nonce,
                        inc_sufficients: true,
                        val: PeopleLiteAuthVal::AsLitePersonRegistration(who, nonce),
                        origin: Origin::LitePersonRegistration(who),
                    }
                },
            },
            _ => Validation::Invalid(ValidityError::Custom(170)),
        },
    }
}

/// Whether `attestation_valid` and `ownership_valid` are the answers of the signature schemes
/// for a registration: the attestation signature checked against the encoded account of the
/// signer and the attestation, and the proof of ownership checked against the registration
/// message of the signer and the ring VRF key.
pub open spec fn registration_answers<P: MemberSignature, S: Verify>(
    auth: PeopleLiteAuth,
    origin: Origin,
    call: Option<&RegisterCall<P, S>>,
    attestation_valid: bool,
    ownership_valid: bool,
) -> bool {
    match (auth.0, origin, call) {
        (
            Some(PeopleLiteAuthData::AsLitePersonRegistration { .. }),
            Origin::Signed(who),
            Some(c),
        ) => {
            &&& exists|m: &[u8]|
                m@ == who@ && #[trigger] call_ensures(
                    S::verify,
                    (&c.attestation_signature, m, &c.attestation),
                    attestation_valid,
                )
            &&& exists|m: &[u8]|
                m@ == registration_message_of(who) && #[trigger] call_ensures(
                    P::verify_member,
                    (&c.proof_of_ownership, m, &c.ring_vrf_key),
                    ownership_valid,
                )
        },
        _ => true,
    }
}

/// What preparation hands to post dispatch, once the nonce of the account in `val`, if any,
/// was prepared with the outcome `nonce_prepared`.
pub open spec fn prepare_outcome(val: PeopleLiteAuthVal, nonce_prepared: Result<(), ValidityError>) -> Result<
    PeopleLiteAuthPre,
    ValidityError,
> {
    match val {
        PeopleLiteAuthVal::Unused => Ok(PeopleLiteAuthPre::Unused),
        PeopleLiteAuthVal::AsLitePerson(_, _) => match nonce_prepared {
            Err(e) => Err(e),
            Ok(_) => Ok(PeopleLiteAuthPre::AsLitePerson),
        },
        PeopleLiteAuthVal::AsLitePersonRegistration(who, _) => match nonce_prepared {
            Err(e) => Err(e),
            Ok(_) => Ok(PeopleLiteAuthPre::AsLitePersonRegistration(who)),
        },
    }
}

/// What post dispatch asks of the system pallet: the sufficient reference taken for a
/// registration, given back.
pub open spec fn post_dispatch_effects(pre: PeopleLiteAuthPre) -> Seq<SystemEffect> {
    match pre {
        PeopleLiteAuthPre::AsLitePersonRegistration(who) => seq![SystemEffect::DecSufficients(who)],
        _ => Seq::empty(),
    }
}

/// What validation asks of the system pallet: one more sufficient reference of the account
/// when its nonce check says so.
pub open spec fn validation_effects(v: Validation) -> Seq<SystemEffect> {
    match v {
        Validation::CheckNonce { who, inc_sufficients, .. } => if inc_sufficients {
            seq![SystemEffect::IncSufficients(who)]
        } else {
            Seq::empty()
        },
        _ => Seq::empty(),
    }
}

/// The change of the sufficient references of `who` that `effects` ask for.
pub open spec fn sufficients_change(effects: Seq<SystemEffect>, who: AccountId) -> int
    decreases effects.len(),
{
    if effects.len() == 0 {
        0
    } else {
        sufficients_change(effects.drop_last(), who) + match effects.last() {
            SystemEffect::IncSufficients(a) => if a == who {
                1int
            } else {
                0int
            },
            SystemEffect::DecSufficients(a) => if a == who {
                -1int
            } else {
                0int
            },
        }
    }
}

/// A registration through the extension leaves its account with one sufficient reference more:
/// validation takes one, the `register` call takes one, and post dispatch gives the first
/// back.
pub proof fn law_registration_nets_one_reference(
    lite: PeopleLite,
    auth: PeopleLiteAuth,
    origin: Origin,
    call: Option<RegistrationClaim>,
    attestation_valid: bool,
    ownership_valid: bool,
    pre: PeopleLiteAuthPre,
    register_effects: Seq<SystemEffect>,
)
    requires
        auth.0 matches Some(PeopleLiteAuthData::AsLitePersonRegistration { .. }),
        validation_outcome(lite, auth, origin, call, attestation_valid, ownership_valid) is CheckNonce,
        prepare_outcome(
            validation_outcome(lite, auth, origin, call, attestation_valid, ownership_valid)->CheckNonce_val,
            Ok(()),
        ) == Ok::<PeopleLiteAuthPre, ValidityError>(pre),
        register_effects == seq![
            SystemEffect::IncSufficients(
                validation_outcome(lite, auth, origin, call, attestation_valid, ownership_valid)->CheckNonce_who,
            ),
        ],
    ensures
        ({
            let v = validation_outcome(lite, auth, origin, call, attestation_valid, ownership_valid);
            sufficients_change(
                validation_effects(v) + register_effects + post_dispatch_effects(pre),
                v->CheckNonce_who,
            ) == 1
        }),
{
    let v = validation_outcome(lite, auth, origin, call, attestation_valid, ownership_valid);
    let who = v->CheckNonce_who;
    let all = validation_effects(v) + register_effects + post_dispatch_effects(pre);
    assert(all =~= seq![
        SystemEffect::IncSufficients(who),
        SystemEffect::IncSufficients(who),
        SystemEffect::DecSufficients(who),
    ]);
    reveal_with_fuel(sufficients_change, 4);
    assert(all.drop_last() =~= seq![SystemEffect::IncSufficients(who), SystemEffect::IncSufficients(who)]);
    assert(all.drop_last().drop_last() =~= seq![SystemEffect::IncSufficients(who)]);
    assert(all.drop_last().drop_last().drop_last() =~= Seq::<SystemEffect>::empty());
}

/// What the extension reads of a `register` call.
pub open spec fn claim_of<P, S>(call: Option<&RegisterCall<P, S>>) -> Option<RegistrationClaim> {
    match call {
        Some(c) => Some(
            RegistrationClaim {
                ring_vrf_key: c.ring_vrf_key,
                verifier: c.verifier,
                attestation: c.attestation,
            },
        ),
        None => None,
    }
}

/// The message a registration's proof of ownership signs for `who`.
pub fn registration_message(who: &AccountId) -> (m: Vec<u8>)
    ensures
        m@ == registration_message_of(*who),
{
    let mut m: Vec<u8> = Vec::new();
    let mut i: usize = 0;
    while i < PROOF_OF_OWNERSHIP_PREFIX.len()
        invariant
            i <= 18,
            m@ == PROOF_OF_OWNERSHIP_PREFIX@.take(i as int),
        decreases 18 - i,
    {
        m.push(PROOF_OF_OWNERSHIP_PREFIX[i]);
        proof {
            assert(PROOF_OF_OWNERSHIP_PREFIX@.take(i + 1) =~= PROOF_OF_OWNERSHIP_PREFIX@.take(
                i as int,
            ).push(PROOF_OF_OWNERSHIP_PREFIX@[i as int]));
        }
        i = i + 1;
    }
    let encoded = encode_account(who);
    let mut j: usize = 0;
    while j < encoded.len()
        invariant
            j <= encoded@.len(),
            m@ == PROOF_OF_OWNERSHIP_PREFIX@ + encoded@.take(j as int),
        decreases encoded@.len() - j,
    {
        m.push(encoded[j]);
        proof {
            assert(encoded@.take(j + 1) =~= encoded@.take(j as int).push(encoded@[j as int]));
        }
        j = j + 1;
    }
    proof {
        assert(PROOF_OF_OWNERSHIP_PREFIX@.take(18) =~= PROOF_OF_OWNERSHIP_PREFIX@);
        assert(encoded@.take(encoded@.len() as int) =~= encoded@);
    }
    m
}

impl PeopleLiteAuth {
    /// The extension asking for `data`.
    pub fn new(data: Option<PeopleLiteAuthData>) -> (e: Self)
        ensures
            e.0 == data,
    {
        PeopleLiteAuth(data)
    }

    /// The weight of the extension: none when it is not used, else the weight that `W` gives
    /// for acting as a lite person or for registering as one.
    pub fn weight<W: PeopleLiteWeightInfo>(&self) -> (w: Weight)
        ensures
            self.0 is None ==> w == (Weight { ref_time: 0, proof_size: 0 }),
            self.0 matches Some(PeopleLiteAuthData::AsLitePerson { .. }) ==> call_ensures(
                W::as_lite_person_tx_ext,
                (),
                w,
            ),
            self.0 matches Some(PeopleLiteAuthData::AsLitePersonRegistration { .. })
                ==> call_ensures(W::as_lite_person_registration_tx_ext, (), w),
    {
        match self.0 {
            Some(PeopleLiteAuthData::AsLitePerson { .. }) => W::as_lite_person_tx_ext(),
            Some(PeopleLiteAuthData::AsLitePersonRegistration { .. }) =>
                W::as_lite_person_registration_tx_ext(),
            None => Weight::zero(),
        }
    }

    /// Validates a transaction with origin `origin` and the `register` call `call`, if it is
    /// one, given whether the attestation signature and the proof of ownership verify.
    pub fn validate_checked(
        &self,
        lite: &PeopleLite,
        origin: Origin,
        call: Option<RegistrationClaim>,
        attestation_valid: bool,
        ownership_valid: bool,
    ) -> (r: Validation)
        requires
            lite.wf(),
        ensures
            r == validation_outcome(*lite, *self, origin, call, attestation_valid, ownership_valid),
    {
        match self.0 {
            None => Validation::NotUsing(origin),
            Some(PeopleLiteAuthData::AsLitePerson { nonce }) => {
                let who = match origin {
                    Origin::Signed(who) => who,
                    _ => return Validation::Invalid(CustomError::OriginNotSigned.into()),
                };
                if lite.lite_person(&who).is_none() {
                    return Validation::Invalid(CustomError::NotLitePerson.into());
                }
                Validation::CheckNonce {
                    who,
                    nonce,
                    inc_sufficients: false,
                    val: PeopleLiteAuthVal::AsLitePerson(who, nonce),
                    origin: Origin::LitePerson(who),
                }
            },
            Some(PeopleLiteAuthData::AsLitePersonRegistration { nonce }) => {
                let who = match origin {
                    Origin::Signed(who) => who,
                    _ => return Validation::Invalid(CustomError::OriginNotSigned.into()),
                };
                let c = match call {
                    Some(c) => c,
                    None => return Validation::Invalid(CustomError::CallNotRegister.into()),
                };
                if !lite.has_unclaimed_attestation(&c.verifier, &c.attestation) {
                    return Validation::Invalid(CustomError::NoUnclaimedAttestation.into());
                }
                if !attestation_valid {
                    return Validation::Invalid(CustomError::InvalidAttestationSignature.into());
                }
                if lite.lite_person(&who).is_some() {
                    return Validation::Invalid(CustomError::AlreadyRegistered.into());
                }
                if !ownership_valid {
                    return Validation::Invalid(CustomError::InvalidProofOfOwnership.into());
                }
                Validation::CheckNonce {
                    who,
                    nonce,
                    inc_sufficients: true,
                    val: PeopleLiteAuthVal::AsLitePersonRegistration(who, nonce),
                    origin: Origin::LitePersonRegistration(who),
                }
            },
        }
    }

    /// Validates a transaction with origin `origin` and the `register` call `call`, if it is
    /// one, checking its attestation signature against the encoded account of the signer and its
    /// proof of ownership against the registration message of the signer.
    ///
    /// Nothing is assumed of the signature schemes: the outcome is that of
    /// [`Self::validate_checked`] for their answers on these messages.
    pub fn validate<P: MemberSignature, S: Verify>(
        &self,
        lite: &PeopleLite,
        origin: Origin,
        call: Option<&RegisterCall<P, S>>,
    ) -> (r: Validation)
        requires
            lite.wf(),
        ensures
            exists|attestation_valid: bool, ownership_valid: bool|
                r == #[trigger] validation_outcome(
                    *lite,
                    *self,
                    origin,
                    claim_of(call),
                    attestation_valid,
                    ownership_valid,
                ) && registration_answers(*self, origin, call, attestation_valid, ownership_valid),
    {
        let claim = match call {
            Some(c) => Some(
                RegistrationClaim {
                    ring_vrf_key: c.ring_vrf_key,
                    verifier: c.verifier,
                    attestation: c.attestation,
                },
            ),
            None => None,
        };
        let (attestation_valid, ownership_valid) = match (self.0, origin, call) {
            (
                Some(PeopleLiteAuthData::AsLitePersonRegistration { .. }),
                Origin::Signed(who),
                Some(c),
            ) => {
                let encoded = encode_account(&who);
                let signed: &[u8] = encoded.as_slice();
                let a = c.attestation_signature.verify(signed, &c.attestation);
                let msg = registration_message(&who);
                let owned: &[u8] = msg.as_slice();
                let o = c.proof_of_ownership.verify_member(owned, &c.ring_vrf_key);
                proof {
                    assert(call_ensures(S::verify, (&c.attestation_signature, signed, &c.attestation), a));
                    assert(call_ensures(P::verify_member, (&c.proof_of_ownership, owned, &c.ring_vrf_key), o));
                }
                (a, o)
            },
            _ => (false, false),
        };
        self.validate_checked(lite, origin, claim, attestation_valid, ownership_valid)
    }

    /// Completes a validation that asked for the nonce check, with the outcome of that check.
    pub fn finish_validation(val: PeopleLiteAuthVal, origin: Origin, nonce_check: Result<
        NonceInfo,
        ValidityError,
    >) -> (r: Result<(ValidTransaction, PeopleLiteAuthVal, Origin), ValidityError>)
        ensures
            match nonce_check {
                Err(e) => r == Err::<(ValidTransaction, PeopleLiteAuthVal, Origin), ValidityError>(e),
                Ok(info) => r is Ok && r->Ok_0.0.required_tags == info.required_tags && r->Ok_0.0.provided_tags
                    == info.provided_tags && r->Ok_0.0.priority == 0 && r->Ok_0.0.longevity == u64::MAX
                    && r->Ok_0.0.propagate && r->Ok_0.1 == val && r->Ok_0.2 == origin,
            },
    {
        match nonce_check {
            Err(e) => Err(e),
            Ok(info) => Ok((ValidTransaction::with_tags(info.required_tags, info.provided_tags), val, origin)),
        }
    }

    /// The value handed to post dispatch, once the nonce of the account in `val`, if any, was
    /// prepared with the outcome `nonce_prepared`.
    pub fn prepare(self, val: PeopleLiteAuthVal, nonce_prepared: Result<(), ValidityError>) -> (r: Result<
        PeopleLiteAuthPre,
        ValidityError,
    >)
        ensures
            r == prepare_outcome(val, nonce_prepared),
    {
        match val {
            PeopleLiteAuthVal::AsLitePerson(_, _) => match nonce_prepared {
                Err(e) => Err(e),
                Ok(_) => Ok(PeopleLiteAuthPre::AsLitePerson),
            },
            PeopleLiteAuthVal::AsLitePersonRegistration(who, _) => match nonce_prepared {
                Err(e) => Err(e),
                Ok(_) => Ok(PeopleLiteAuthPre::AsLitePersonRegistration(who)),
            },
            PeopleLiteAuthVal::Unused => Ok(PeopleLiteAuthPre::Unused),
        }
    }

    /// The account whose nonce preparation must prepare, with the nonce, if any.
    pub fn nonce_to_prepare(val: PeopleLiteAuthVal) -> (r: Option<(AccountId, u64)>)
        ensures
            r == match val {
                PeopleLiteAuthVal::AsLitePerson(who, n) => Some((who, n)),
                PeopleLiteAuthVal::AsLitePersonRegistration(who, n) => Some((who, n)),
                PeopleLiteAuthVal::Unused => None,
            },
    {
        match val {
            PeopleLiteAuthVal::AsLitePerson(who, n) => Some((who, n)),
            PeopleLiteAuthVal::AsLitePersonRegistration(who, n) => Some((who, n)),
            PeopleLiteAuthVal::Unused => None,
        }
    }

    /// After dispatch: the weight refunded, none, and the reference taken for a registration,
    /// given back.
    pub fn post_dispatch_details(pre: PeopleLiteAuthPre) -> (r: (Weight, Vec<SystemEffect>))
        ensures
            r.0 == (Weight { ref_time: 0, proof_size: 0 }),
            r.1@ == post_dispatch_effects(pre),
    {
        let mut effects = Vec::new();
        match pre {
            PeopleLiteAuthPre::AsLitePersonRegistration(who) => {
                effects.push(SystemEffect::DecSufficients(who));
            },
            _ => {},
        }
        proof {
            match pre {
                PeopleLiteAuthPre::AsLitePersonRegistration(who) => {
                    assert(effects@ =~= seq![SystemEffect::DecSufficients(who)]);
                },
                _ => {
                    assert(effects@ =~= Seq::<SystemEffect>::empty());
                },
            }
        }
        (Weight::zero(), effects)
    }
}

} // verus!
