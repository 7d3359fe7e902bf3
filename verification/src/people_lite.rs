//! People lite: verifiers with an allowance attest accounts, which then register as lite people
//! and act under the lite person origin.
use vstd::prelude::*;

use crate::runtime::{ensure_root, ensure_signed, AccountId, DispatchError, Origin, SystemEffect};
use crate::table::{Table, TableKey};

pub mod extension;

verus! {

/// The key of a ring member.
pub type Member = [u8; 32];

/// What a registration's proof of ownership signs: these bytes, then the encoded account.
pub const PROOF_OF_OWNERSHIP_PREFIX: [u8; 18] = [
    112u8, 111, 112, 32, 114, 101, 103, 105, 115, 116, 101, 114, 32, 117, 115, 105, 110, 103,
];

/// What is kept of a lite person.
#[derive(Clone, Copy, Debug, PartialEq, Eq)]
pub struct LitePersonInfo {
    pub ring_vrf_key: Member,
    pub special_key: [u8; 32],
}

/// Why a call of the pallet fails.
#[derive(Clone, Copy, Debug, PartialEq, Eq)]
pub enum Error {
    /// No attestation allowance.
    NoAttestationAllowance,
    /// Attestation is already set.
    AttestationAlreadySet,
    /// No attestation found.
    NoAttestation,
}

/// What the pallet reports.
#[derive(Clone, Copy, Debug, PartialEq, Eq)]
pub enum Event {
    /// All attestation allowance has been removed for the verifier.
    AllAttestationAllowanceCleared { verifier: AccountId },
    /// Some attestation allowance has been removed for the verifier.
    AttestationAllowancePartiallyCleared { verifier: AccountId },
}

/// The account of a registered lite person's origin.
pub fn ensure_lite_person(origin: Origin) -> (r: Result<AccountId, ()>)
    ensures
        r == match origin {
            Origin::LitePerson(who) => Ok::<AccountId, ()>(who),
            _ => Err(()),
        },
{
    match origin {
        Origin::LitePerson(who) => Ok(who),
        _ => Err(()),
    }
}

/// `a + b`, saturating at the largest `u32`.
pub open spec fn saturating_add_u32(a: u32, b: u32) -> u32 {
    if a + b > u32::MAX {
        u32::MAX
    } else {
        (a + b) as u32
    }
}

/// The state of the pallet.
pub struct PeopleLite {
    /// The registered lite people.
    lite_people: Table<AccountId, LitePersonInfo>,
    /// The attestations each verifier may still hand out.
    attestation_allowance: Table<AccountId, u32>,
    /// For each verifier, the attestations it set that are not yet claimed.
    unclaimed_attestations: Table<AccountId, Table<AccountId, ()>>,
    /// The events deposited so far.
    events: Vec<Event>,
}

impl PeopleLite {
    /// The registered lite people, by the view of their account.
    pub closed spec fn lite_people(&self) -> Map<Seq<u8>, LitePersonInfo> {
        self.lite_people.map()
    }

    /// The stored allowances, by the view of the verifier's account.
    pub closed spec fn allowances(&self) -> Map<Seq<u8>, u32> {
        self.attestation_allowance.map()
    }

    /// The allowance of a verifier: none is an allowance of zero.
    pub open spec fn allowance_of(&self, verifier: Seq<u8>) -> u32 {
        if self.allowances().dom().contains(verifier) {
            self.allowances()[verifier]
        } else {
            0
        }
    }

    /// The unclaimed attestations set by a verifier.
    pub closed spec fn unclaimed_of(&self, verifier: Seq<u8>) -> Set<Seq<u8>> {
        if self.unclaimed_attestations.map().dom().contains(verifier) {
            self.unclaimed_attestations.map()[verifier].map().dom()
        } else {
            Set::empty()
        }
    }

    /// The unclaimed attestations, as pairs of verifier and attestation.
    pub open spec fn unclaimed(&self) -> Set<(Seq<u8>, Seq<u8>)> {
        Set::new(|p: (Seq<u8>, Seq<u8>)| self.unclaimed_of(p.0).contains(p.1))
    }

    /// The events deposited so far, oldest first.
    pub closed spec fn event_log(&self) -> Seq<Event> {
        self.events@
    }

    /// The internal invariant: every table is well formed.
    pub closed spec fn wf(&self) -> bool {
        &&& self.lite_people.wf()
        &&& self.attestation_allowance.wf()
        &&& self.unclaimed_attestations.wf()
        &&& forall|v: Seq<u8>|
            #[trigger] self.unclaimed_attestations.map().dom().contains(v)
                ==> self.unclaimed_attestations.map()[v].wf()
    }

    /// The pallet with no lite person, allowance or attestation.
    pub fn new() -> (s: Self)
        ensures
            s.wf(),
            s.lite_people().is_empty(),
            s.allowances().is_empty(),
            forall|v: Seq<u8>| s.unclaimed_of(v).is_empty(),
            s.event_log().len() == 0,
    {
        let s = PeopleLite {
            lite_people: Table::new(),
            attestation_allowance: Table::new(),
            unclaimed_attestations: Table::new(),
            events: Vec::new(),
        };
        proof {
            assert forall|v: Seq<u8>| s.unclaimed_of(v).is_empty() by {
                assert(s.unclaimed_of(v) =~= Set::empty());
            }
        }
        s
    }

    /// The events deposited so far, oldest first.
    pub fn events(&self) -> (e: &Vec<Event>)
        ensures
            e@ == self.event_log(),
    {
        &self.events
    }

    /// The information kept of the lite person `who`, if registered.
    pub fn lite_person(&self, who: &AccountId) -> (r: Option<LitePersonInfo>)
        requires
            self.wf(),
        ensures
            r.is_some() == self.lite_people().dom().contains(who@),
            r.is_some() ==> r.unwrap() == self.lite_people()[who@],
    {
        match self.lite_people.get(who) {
            Some(i) => Some(*i),
            None => None,
        }
    }

    /// The allowance of `verifier`.
    pub fn attestation_allowance(&self, verifier: &AccountId) -> (n: u32)
        requires
            self.wf(),
        ensures
            n == self.allowance_of(verifier@),
    {
        match self.attestation_allowance.get(verifier) {
            Some(n) => *n,
            None => 0,
        }
    }

    /// Whether `verifier` has set the unclaimed attestation `attestation`.
    pub fn has_unclaimed_attestation(&self, verifier: &AccountId, attestation: &AccountId) -> (b:
        bool)
        requires
            self.wf(),
        ensures
            b == self.unclaimed_of(verifier@).contains(attestation@),
    {
        match self.unclaimed_attestations.get(verifier) {
            Some(inner) => inner.contains_key(attestation),
            None => false,
        }
    }

    /// The number of unclaimed attestations set by `verifier`.
    pub fn unclaimed_count(&self, verifier: &AccountId) -> (n: usize)
        requires
            self.wf(),
        ensures
            self.unclaimed_of(verifier@).finite(),
            n == self.unclaimed_of(verifier@).len(),
    {
        match self.unclaimed_attestations.get(verifier) {
            Some(inner) => inner.len(),
            None => 0,
        }
    }

    fn add_unclaimed(&mut self, verifier: AccountId, attestation: AccountId)
        requires
            old(self).wf(),
        ensures
            final(self).wf(),
            forall|v: Seq<u8>|
                #![trigger final(self).unclaimed_of(v)]
                final(self).unclaimed_of(v) == if v == verifier@ {
                    old(self).unclaimed_of(v).insert(attestation@)
                } else {
                    old(self).unclaimed_of(v)
                },
            final(self).lite_people() == old(self).lite_people(),
            final(self).allowances() == old(self).allowances(),
            final(self).event_log() == old(self).event_log(),
    {
        let mut inner = match self.unclaimed_attestations.remove(&verifier) {
            Some(t) => t,
            None => Table::new(),
        };
        inner.insert(attestation, ());
        self.unclaimed_attestations.insert(verifier, inner);
        proof {
            assert forall|v: Seq<u8>| #![trigger self.unclaimed_of(v)]
                self.unclaimed_of(v) == if v == verifier@ {
                    old(self).unclaimed_of(v).insert(attestation@)
                } else {
                    old(self).unclaimed_of(v)
                } by {
                if v == verifier@ {
                    assert(self.unclaimed_of(v) =~= old(self).unclaimed_of(v).insert(attestation@));
                }
            }
        }
    }

    fn remove_unclaimed(&mut self, verifier: &AccountId, attestation: &AccountId) -> (b: bool)
        requires
            old(self).wf(),
        ensures
            final(self).wf(),
            b == old(self).unclaimed_of(verifier@).contains(attestation@),
            forall|v: Seq<u8>|
                #![trigger final(self).unclaimed_of(v)]
                final(self).unclaimed_of(v) == if v == verifier@ {
                    old(self).unclaimed_of(v).remove(attestation@)
                } else {
                    old(self).unclaimed_of(v)
                },
            final(self).lite_people() == old(self).lite_people(),
            final(self).allowances() == old(self).allowances(),
            final(self).event_log() == old(self).event_log(),
    {
        match self.unclaimed_attestations.remove(verifier) {
            None => {
                proof {
                    assert forall|v: Seq<u8>| #![trigger self.unclaimed_of(v)]
                        self.unclaimed_of(v) == if v == verifier@ {
                            old(self).unclaimed_of(v).remove(attestation@)
                        } else {
                            old(self).unclaimed_of(v)
                        } by {
                        if v == verifier@ {
                            assert(self.unclaimed_of(v) =~= old(self).unclaimed_of(v).remove(
                                attestation@,
                            ));
                        }
                    }
                }
                false
            },
            Some(mut inner) => {
                let found = inner.remove(attestation).is_some();
                self.unclaimed_attestations.insert(verifier.copy_key(), inner);
                proof {
                    assert forall|v: Seq<u8>| #![trigger self.unclaimed_of(v)]
                        self.unclaimed_of(v) == if v == verifier@ {
                            old(self).unclaimed_of(v).remove(attestation@)
                        } else {
                            old(self).unclaimed_of(v)
                        } by {
                        if v == verifier@ {
                            assert(self.unclaimed_of(v) =~= old(self).unclaimed_of(v).remove(
                                attestation@,
                            ));
                        }
                    }
                }
                found
            },
        }
    }
}


proof fn lemma_unclaimed_insert(new: PeopleLite, old: PeopleLite, v: Seq<u8>, a: Seq<u8>)
    requires
        forall|w: Seq<u8>|
            #![trigger new.unclaimed_of(w)]
            new.unclaimed_of(w) == if w == v {
                old.unclaimed_of(w).insert(a)
            } else {
                old.unclaimed_of(w)
            },
    ensures
        new.unclaimed() == old.unclaimed().insert((v, a)),
{
    assert forall|p: (Seq<u8>, Seq<u8>)| new.unclaimed().contains(p) == old.unclaimed().insert(
        (v, a),
    ).contains(p) by {
        assert(new.unclaimed_of(p.0) == if p.0 == v {
            old.unclaimed_of(p.0).insert(a)
        } else {
            old.unclaimed_of(p.0)
        });
    }
    assert(new.unclaimed() =~= old.unclaimed().insert((v, a)));
}

proof fn lemma_unclaimed_remove(new: PeopleLite, old: PeopleLite, v: Seq<u8>, a: Seq<u8>)
    requires
        forall|w: Seq<u8>|
            #![trigger new.unclaimed_of(w)]
            new.unclaimed_of(w) == if w == v {
                old.unclaimed_of(w).remove(a)
            } else {
                old.unclaimed_of(w)
            },
    ensures
        new.unclaimed() == old.unclaimed().remove((v, a)),
{
    assert forall|p: (Seq<u8>, Seq<u8>)| new.unclaimed().contains(p) == old.unclaimed().remove(
        (v, a),
    ).contains(p) by {
        assert(new.unclaimed_of(p.0) == if p.0 == v {
            old.unclaimed_of(p.0).remove(a)
        } else {
            old.unclaimed_of(p.0)
        });
    }
    assert(new.unclaimed() =~= old.unclaimed().remove((v, a)));
}

impl PeopleLite {
    /// Grants `count` more attestations to `account`, saturating at the largest count; the origin
    /// must be root, the manager of allowances.
    pub fn increase_attestation_allowance(
        &mut self,
        origin: Origin,
        account: AccountId,
        count: u32,
    ) -> (r: Result<(), DispatchError<Error>>)
        requires
            old(self).wf(),
        ensures
            final(self).wf(),
            origin is Root ==> {
                &&& r is Ok
                &&& final(self).allowances() == old(self).allowances().insert(
                    account@,
                    saturating_add_u32(old(self).allowance_of(account@), count),
                )
                &&& final(self).lite_people() == old(self).lite_people()
                &&& final(self).unclaimed() == old(self).unclaimed()
                &&& final(self).event_log() == old(self).event_log()
            },
            !(origin is Root) ==> r == Err::<(), DispatchError<Error>>(DispatchError::BadOrigin)
                && *final(self) == *old(self),
    {
        if ensure_root(origin).is_err() {
            return Err(DispatchError::BadOrigin);
        }
        let available = self.attestation_allowance(&account);
        let available = available.saturating_add(count);
        self.attestation_allowance.insert(account, available);
        Ok(())
    }

    /// Removes the allowance of `account` and up to `limit` of its unclaimed attestations; the
    /// origin must be root, the manager of allowances.
    ///
    /// Which attestations go when more than `limit` are left is not specified.
    pub fn clear_attestation_allowance(
        &mut self,
        origin: Origin,
        account: AccountId,
        limit: u32,
    ) -> (r: Result<(), DispatchError<Error>>)
        requires
            old(self).wf(),
        ensures
            final(self).wf(),
            origin is Root ==> {
                let before = old(self).unclaimed_of(account@);
                let after = final(self).unclaimed_of(account@);
                let removed = if before.len() < limit {
                    before.len() as int
                } else {
                    limit as int
                };
                &&& r is Ok
                &&& final(self).allowances() == old(self).allowances().remove(account@)
                &&& final(self).lite_people() == old(self).lite_people()
                &&& before.finite()
                &&& after.subset_of(before)
                &&& after.len() == before.len() - removed
                &&& forall|v: Seq<u8>|
                    v != account@ ==> #[trigger] final(self).unclaimed_of(v) == old(
                        self,
                    ).unclaimed_of(v)
                &&& final(self).event_log() == old(self).event_log().push(
                    if after.len() > 0 {
                        Event::AttestationAllowancePartiallyCleared { verifier: account }
                    } else {
                        Event::AllAttestationAllowanceCleared { verifier: account }
                    },
                )
            },
            !(origin is Root) ==> r == Err::<(), DispatchError<Error>>(DispatchError::BadOrigin)
                && *final(self) == *old(self),
    {
        if ensure_root(origin).is_err() {
            return Err(DispatchError::BadOrigin);
        }
        let _ = self.attestation_allowance.remove(&account);
        let remaining: usize = match self.unclaimed_attestations.remove(&account) {
            None => {
                proof {
                    assert(old(self).unclaimed_of(account@) =~= Set::<Seq<u8>>::empty());
                }
                0
            },
            Some(mut inner) => {
                let _ = inner.remove_up_to(limit);
                let left = inner.len();
                self.unclaimed_attestations.insert(account, inner);
                left
            },
        };
        proof {
            assert forall|v: Seq<u8>| v != account@ implies #[trigger] self.unclaimed_of(v)
                == old(self).unclaimed_of(v) by {}
            if self.unclaimed_attestations.map().dom().contains(account@) {
                assert(self.unclaimed_of(account@).subset_of(old(self).unclaimed_of(account@)));
            } else {
                assert(self.unclaimed_of(account@) =~= Set::<Seq<u8>>::empty());
            }
        }
        if remaining > 0 {
            self.events.push(Event::AttestationAllowancePartiallyCleared { verifier: account });
        } else {
            self.events.push(Event::AllAttestationAllowanceCleared { verifier: account });
        }
        Ok(())
    }

    /// The state after `verifier` attests `attestation`: the attestation is unclaimed and the
    /// verifier has one attestation less left, none left being no entry; nothing else changes.
    pub open spec fn attestation_set(&self, post: &Self, verifier: AccountId, attestation: AccountId) -> bool {
        let n = self.allowance_of(verifier@);
        &&& post.unclaimed() == self.unclaimed().insert((verifier@, attestation@))
        &&& post.allowances() == if n - 1 > 0 {
            self.allowances().insert(verifier@, (n - 1) as u32)
        } else {
            self.allowances().remove(verifier@)
        }
        &&& post.lite_people() == self.lite_people()
        &&& post.event_log() == self.event_log()
    }

    /// The state after `verifier` cancels `attestation`: the attestation is no longer
    /// unclaimed and the verifier has one attestation more left; nothing else changes.
    pub open spec fn attestation_cancelled(
        &self,
        post: &Self,
        verifier: AccountId,
        attestation: AccountId,
    ) -> bool {
        &&& post.unclaimed() == self.unclaimed().remove((verifier@, attestation@))
        &&& post.allowances() == self.allowances().insert(
            verifier@,
            saturating_add_u32(self.allowance_of(verifier@), 1),
        )
        &&& post.lite_people() == self.lite_people()
        &&& post.event_log() == self.event_log()
    }

    /// Sets the attestation `attestation` for the verifier that signed `origin`, spending one of
    /// its allowance; an allowance that reaches zero is removed.
    pub fn set_attestation(&mut self, origin: Origin, attestation: AccountId) -> (r: Result<
        (),
        DispatchError<Error>,
    >)
        requires
            old(self).wf(),
        ensures
            final(self).wf(),
            match origin {
                Origin::Signed(v) => {
                    let n = old(self).allowance_of(v@);
                    if n == 0 {
                        r == Err::<(), DispatchError<Error>>(
                            DispatchError::Module(Error::NoAttestationAllowance),
                        ) && *final(self) == *old(self)
                    } else if old(self).unclaimed_of(v@).contains(attestation@) {
                        r == Err::<(), DispatchError<Error>>(
                            DispatchError::Module(Error::AttestationAlreadySet),
                        ) && *final(self) == *old(self)
                    } else {
                        r is Ok && old(self).attestation_set(&*final(self), v, attestation)
                    }
                },
                _ => r == Err::<(), DispatchError<Error>>(DispatchError::BadOrigin) && *final(self)
                    == *old(self),
            },
    {
        let verifier = match ensure_signed(origin) {
            Ok(v) => v,
            Err(_) => return Err(DispatchError::BadOrigin),
        };
        let available = self.attestation_allowance(&verifier);
        if available == 0 {
            return Err(DispatchError::Module(Error::NoAttestationAllowance));
        }
        let available = available - 1;
        if self.has_unclaimed_attestation(&verifier, &attestation) {
            return Err(DispatchError::Module(Error::AttestationAlreadySet));
        }
        if available > 0 {
            self.attestation_allowance.insert(verifier, available);
        } else {
            let _ = self.attestation_allowance.remove(&verifier);
        }
        let ghost mid = *self;
        self.add_unclaimed(verifier, attestation);
        proof {
            assert forall|w: Seq<u8>| mid.unclaimed_of(w) == old(self).unclaimed_of(w) by {}
            lemma_unclaimed_insert(*self, *old(self), verifier@, attestation@);
        }
        Ok(())
    }

    /// Cancels the unclaimed attestation `attestation` of the verifier that signed `origin`,
    /// giving it back one allowance, saturating at the largest count.
    pub fn cancel_attestation(&mut self, origin: Origin, attestation: AccountId) -> (r: Result<
        (),
        DispatchError<Error>,
    >)
        requires
            old(self).wf(),
        ensures
            final(self).wf(),
            match origin {
                Origin::Signed(v) => if !old(self).unclaimed_of(v@).contains(attestation@) {
                    r == Err::<(), DispatchError<Error>>(DispatchError::Module(Error::NoAttestation))
                        && *final(self) == *old(self)
                } else {
                    r is Ok && old(self).attestation_cancelled(&*final(self), v, attestation)
                },
                _ => r == Err::<(), DispatchError<Error>>(DispatchError::BadOrigin) && *final(self)
                    == *old(self),
            },
    {
        let verifier = match ensure_signed(origin) {
            Ok(v) => v,
            Err(_) => return Err(DispatchError::BadOrigin),
        };
        if !self.has_unclaimed_attestation(&verifier, &attestation) {
            return Err(DispatchError::Module(Error::NoAttestation));
        }
        let available = self.attestation_allowance(&verifier);
        self.attestation_allowance.insert(verifier, available.saturating_add(1));
        let ghost mid = *self;
        let _ = self.remove_unclaimed(&verifier, &attestation);
        proof {
            assert forall|w: Seq<u8>| mid.unclaimed_of(w) == old(self).unclaimed_of(w) by {}
            lemma_unclaimed_remove(*self, *old(self), verifier@, attestation@);
        }
        Ok(())
    }

    /// Registers the account of a registration origin as a lite person with `ring_vrf_key` and
    /// `special_key`, claiming the attestation `attestation` of `verifier`.
    ///
    /// The proofs were checked when the transaction was validated; the registration asks the
    /// system to count one more sufficient reference for the account.
    pub fn register<P, S>(
        &mut self,
        origin: Origin,
        ring_vrf_key: Member,
        special_key: [u8; 32],
        proof_of_ownership: &P,
        verifier: AccountId,
        attestation: AccountId,
        attestation_signature: &S,
    ) -> (r: Result<Vec<SystemEffect>, DispatchError<Error>>)
        requires
            old(self).wf(),
        ensures
            final(self).wf(),
            match origin {
                Origin::LitePersonRegistration(who) => {
                    &&& r is Ok
                    &&& r->Ok_0@ == seq![SystemEffect::IncSufficients(who)]
                    &&& final(self).lite_people() == old(self).lite_people().insert(
                        who@,
                        LitePersonInfo { ring_vrf_key, special_key },
                    )
                    &&& final(self).unclaimed() == old(self).unclaimed().remove(
                        (verifier@, attestation@),
                    )
                    &&& final(self).allowances() == old(self).allowances()
                    &&& final(self).event_log() == old(self).event_log()
                },
                _ => r == Err::<Vec<SystemEffect>, DispatchError<Error>>(DispatchError::BadOrigin)
                    && *final(self) == *old(self),
            },
    {
        let who = match origin {
            Origin::LitePersonRegistration(who) => who,
            _ => return Err(DispatchError::BadOrigin),
        };
        self.lite_people.insert(who, LitePersonInfo { ring_vrf_key, special_key });
        let ghost mid = *self;
        let _ = self.remove_unclaimed(&verifier, &attestation);
        let mut effects = Vec::new();
        effects.push(SystemEffect::IncSufficients(who));
        proof {
            assert forall|w: Seq<u8>| mid.unclaimed_of(w) == old(self).unclaimed_of(w) by {}
            lemma_unclaimed_remove(*self, *old(self), verifier@, attestation@);
            assert(effects@ =~= seq![SystemEffect::IncSufficients(who)]);
        }
        Ok(effects)
    }

    /// The origin to dispatch a lite person's call with: the lite person's account, signed.
    pub fn dispatch_as_signer(&self, origin: Origin) -> (r: Result<Origin, DispatchError<Error>>)
        ensures
            r == match origin {
                Origin::LitePerson(who) => Ok::<Origin, DispatchError<Error>>(Origin::Signed(who)),
                _ => Err(DispatchError::BadOrigin),
            },
    {
        match origin {
            Origin::LitePerson(who) => Ok(Origin::Signed(who)),
            _ => Err(DispatchError::BadOrigin),
        }
    }
}

/// Cancelling an attestation just set gives the verifier back the allowance it spent and
/// leaves the unclaimed attestations as they were.
pub proof fn law_cancel_undoes_set(
    s0: PeopleLite,
    s1: PeopleLite,
    s2: PeopleLite,
    verifier: AccountId,
    attestation: AccountId,
)
    requires
        s0.wf(),
        s0.allowance_of(verifier@) > 0,
        !s0.unclaimed_of(verifier@).contains(attestation@),
        s0.attestation_set(&s1, verifier, attestation),
        s1.attestation_cancelled(&s2, verifier, attestation),
    ensures
        s2.unclaimed() == s0.unclaimed(),
        s2.allowance_of(verifier@) == s0.allowance_of(verifier@),
        forall|w: Seq<u8>| w != verifier@ ==> #[trigger] s2.allowance_of(w) == s0.allowance_of(w),
        s2.lite_people() == s0.lite_people(),
{
    assert(!s0.unclaimed().contains((verifier@, attestation@)));
    assert(s2.unclaimed() =~= s0.unclaimed());
}

} // verus!
