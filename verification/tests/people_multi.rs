use individuality::people_multi::extension::{AsPerson, AsPersonClaim, AsPersonInfo, Val, Validation};
use individuality::people_multi::{
    account_context_allowed, derivative_call, ensure_personal_alias, ensure_personal_alias_in_context,
    ensure_personal_identity, integrity_test, ChunkStore, EnsurePersonalAlias,
    EnsurePersonalAliasInContext, EnsurePersonalIdentity, Error, Event, GenesisConfig, Member,
    People, PeopleConfig, PersonRecord, RingCrypto, RingPosition, RingStatus, CHUNK_COUNT,
};
use individuality::reality::{Alias, Context, ContextualAlias, PersonalId, RI_ZERO};
use individuality::runtime::{
    extract_actual_weight, AccountId, DispatchError, DispatchInfo, NonceInfo, Origin, Pays, SystemEffect, ValidityError, Weight,
};

/// A ring crypto for tests: a ring is the list of its members, a member pushes only when the
/// first chunk is there, a signature names the key and the message it signs, and a proof names
/// the member, the alias it gives and the message it signs.
struct Simple;

struct SimpleSignature {
    key: Member,
    msg: Vec<u8>,
}

struct SimpleProof {
    member: Member,
    alias: Alias,
    msg: Vec<u8>,
}

impl RingCrypto for Simple {
    type Members = Vec<Member>;
    type Intermediate = Vec<Member>;
    type StaticChunk = u8;
    type Signature = SimpleSignature;
    type Proof = SimpleProof;

    fn start_members() -> Vec<Member> {
        Vec::new()
    }

    fn push_member(mut intermediate: Vec<Member>, member: Member, chunks: &ChunkStore<u8>) -> Option<Vec<Member>> {
        chunks.lookup(0)?;
        intermediate.push(member);
        Some(intermediate)
    }

    fn finish_members(intermediate: &Vec<Member>) -> Vec<Member> {
        intermediate.clone()
    }

    fn validate(proof: &SimpleProof, members: &Vec<Member>, _context: &[u8], msg: &[u8]) -> Option<Alias> {
        if members.contains(&proof.member) && proof.msg == msg {
            Some(proof.alias)
        } else {
            None
        }
    }

    fn verify_signature(signature: &SimpleSignature, msg: &[u8], member: &Member) -> bool {
        signature.key == *member && signature.msg == msg
    }
}

const MOCK_CONTEXT: Context = *b"pop:polkadot.network/mock       ";

fn config(max_ring_size: u32, onboarding_size: u32) -> PeopleConfig {
    PeopleConfig {
        chunk_page_size: 8,
        max_ring_size,
        onboarding_size,
        account_contexts: vec![MOCK_CONTEXT],
    }
}

fn new_people(max_ring_size: u32, onboarding_size: u32) -> People<Simple> {
    let mut people = People::new(config(max_ring_size, onboarding_size));
    GenesisConfig::<Simple> { chunks: (0..CHUNK_COUNT).map(|i| i as u8).collect() }.build(&mut people);
    people
}

fn key(seed: u8) -> Member {
    [seed; 32]
}

fn account(id: u64) -> AccountId {
    let mut bytes = [0u8; 32];
    bytes[..8].copy_from_slice(&id.to_le_bytes());
    bytes
}

fn alias_in(id: u8, context: Context) -> ContextualAlias {
    ContextualAlias { alias: [id; 32], context }
}

/// Reserves personal ids up to `id`, which must not be handed out yet.
fn reserve_up_to(people: &mut People<Simple>, id: PersonalId) {
    loop {
        let next = people.reserve_new_id();
        assert!(next <= id);
        if next == id {
            break;
        }
    }
}

fn generate_people_with_index(people: &mut People<Simple>, start: u8, end: u8) {
    for i in start..=end {
        reserve_up_to(people, i as PersonalId);
        assert_eq!(people.recognize_personhood(i as PersonalId, Some(key(i))), Ok(()));
    }
}

/// The BLAKE2b-256 hash of the empty string.
const BLAKE2_256_OF_EMPTY: [u8; 32] = [
    0x0e, 0x57, 0x51, 0xc0, 0x26, 0xe5, 0x43, 0xb2, 0xe8, 0xab, 0x2e, 0xb0, 0x60, 0x99, 0xda, 0xa1,
    0xd1, 0xe5, 0xdf, 0x47, 0x77, 0x8f, 0x77, 0x87, 0xfa, 0xab, 0x45, 0xcd, 0xf1, 0x2f, 0xe3, 0xa8,
];

#[test]
fn recognize_person_with_duplicate_key() {
    let mut people = new_people(10, 5);
    let person_a = people.reserve_new_id();
    let key_a = key(1);
    assert_eq!(people.recognize_personhood(person_a, Some(key_a)), Ok(()));

    let person_b = people.reserve_new_id();
    assert_eq!(people.recognize_personhood(person_b, Some(key_a)), Err(Error::KeyAlreadyInUse));
    assert_eq!(people.person(person_b), None);
}

#[test]
fn recognize_same_person_2_times() {
    let mut people = new_people(10, 5);
    let person_a = people.reserve_new_id();
    let key_a = key(1);
    assert_eq!(people.recognize_personhood(person_a, Some(key_a)), Ok(()));
    assert!(people.person(person_a).is_some());
    assert_eq!(people.recognize_personhood(person_a, Some(key_a)), Err(Error::KeyAlreadyInUse));
    assert_eq!(people.renew_id_reservation(person_a), Err(Error::PersonalIdReservationCannotRenew));
}

#[test]
fn id_reservations() {
    let mut people = new_people(10, 5);
    // An id never reserved cannot be used.
    assert_eq!(people.recognize_personhood(0, Some(key(1))), Err(Error::PersonalIdNotReserved));
    assert_eq!(people.person(0), None);
    assert_eq!(people.renew_id_reservation(0), Err(Error::PersonalIdReservationCannotRenew));
    assert_eq!(people.cancel_id_reservation(0), Err(Error::PersonalIdNotReserved));

    let a = people.reserve_new_id();
    let b = people.reserve_new_id();
    assert_eq!((a, b), (0, 1));
    // A cancelled reservation cannot be used until it is renewed.
    assert_eq!(people.cancel_id_reservation(a), Ok(()));
    assert_eq!(people.cancel_id_reservation(a), Err(Error::PersonalIdNotReserved));
    assert_eq!(people.recognize_personhood(a, Some(key(1))), Err(Error::PersonalIdNotReserved));
    assert_eq!(people.renew_id_reservation(a), Ok(()));
    assert_eq!(people.recognize_personhood(a, Some(key(1))), Ok(()));
    // Recognition uses the reservation up.
    assert_eq!(people.cancel_id_reservation(a), Err(Error::PersonalIdNotReserved));
    assert_eq!(people.recognize_personhood(b, Some(key(2))), Ok(()));
    // New ids are never handed out twice.
    assert_eq!(people.reserve_new_id(), 2);
}

#[test]
fn recognize_without_key_fails() {
    let mut people = new_people(10, 5);
    assert_eq!(people.recognize_personhood(3, None), Err(Error::NoKey));
}

#[test]
fn recognized_people_fill_rings_in_order() {
    let mut people = new_people(3, 2);
    generate_people_with_index(&mut people, 1, 4);
    assert_eq!(
        people.person(1),
        Some(PersonRecord { key: key(1), ring_index: 0, key_index: 1 })
    );
    assert_eq!(
        people.person(3),
        Some(PersonRecord { key: key(3), ring_index: 0, key_index: 3 })
    );
    // The first ring is full: the fourth person goes into the next one.
    assert_eq!(
        people.person(4),
        Some(PersonRecord { key: key(4), ring_index: 1, key_index: 1 })
    );
    assert_eq!(people.current_ring_index(), 1);
    assert_eq!(people.ring_status(0), RingStatus { total: 3, included: 0 });
    assert_eq!(people.ring_keys_meta(0), (3, 0));
    assert_eq!(people.ring_keys_meta(1), (1, 0));
    assert_eq!(people.key_owner(&key(4)), Some(4));
    assert_eq!(
        people.events()[0],
        Event::PersonhoodRecognized { who: 1, key: key(1) }
    );
    assert_eq!(people.events().len(), 4);
    let (index, keys) = people.available_ring();
    assert_eq!(index, 1);
    assert_eq!(keys.keys, vec![key(4)]);
    assert_eq!(keys.included, 0);
}

#[test]
fn new_key_for_a_known_person_replaces_the_old_one() {
    let mut people = new_people(10, 5);
    assert_eq!(people.do_insert_key(7, key(1)), Ok(()));
    assert_eq!(people.do_insert_key(7, key(2)), Ok(()));
    // Recognizing a person already recognized is refused, whatever the key.
    assert_eq!(people.recognize_personhood(7, Some(key(3))), Err(Error::AlreadyRecognized));
    assert_eq!(people.key_owner(&key(3)), None);
    assert_eq!(
        people.person(7),
        Some(PersonRecord { key: key(2), ring_index: 0, key_index: 2 })
    );
    assert_eq!(people.key_owner(&key(2)), Some(7));
}

#[test]
fn build_ring_works() {
    let mut people = new_people(10, 5);
    // No one to onboard.
    assert_eq!(people.build_ring(RI_ZERO), Err(DispatchError::Module(Error::StillFresh)));

    // Not enough for a queue.
    generate_people_with_index(&mut people, 0, 3);
    assert_eq!(people.build_ring(RI_ZERO), Err(DispatchError::Module(Error::Incomplete)));

    // Now we have enough to build one.
    generate_people_with_index(&mut people, 4, 4);
    assert_eq!(people.root_revision(0), None);
    assert_eq!(people.ring_status(0), RingStatus { total: 5, included: 0 });
    assert_eq!(people.build_ring(RI_ZERO), Ok(()));
    assert_eq!(people.root_revision(0), Some(0));
    assert_eq!(people.ring_status(0), RingStatus { total: 5, included: 5 });
    assert_eq!(people.ring_keys_meta(0), (5, 5));
    assert_eq!(people.ring_root(0).unwrap().len(), 5);
    // Everything is included: nothing to do.
    assert_eq!(people.build_ring(RI_ZERO), Err(DispatchError::Module(Error::StillFresh)));

    // Five more fill the ring; the next root has the next revision.
    generate_people_with_index(&mut people, 5, 9);
    assert_eq!(people.current_ring_index(), 1);
    assert_eq!(people.build_ring(RI_ZERO), Ok(()));
    assert_eq!(people.root_revision(0), Some(1));
    assert_eq!(people.ring_root(0).unwrap().len(), 10);
    // The root holds the ring's keys, in order.
    assert_eq!(people.ring_root(0).unwrap(), &(0u8..10).map(key).collect::<Vec<_>>());

    // Five people in the next ring are enough to build it.
    generate_people_with_index(&mut people, 10, 14);
    assert_eq!(people.build_ring(1), Ok(()));
    assert_eq!(people.ring_status(1), RingStatus { total: 5, included: 5 });

    // Three more are too few to build.
    generate_people_with_index(&mut people, 15, 17);
    assert_eq!(people.build_ring(1), Err(DispatchError::Module(Error::Incomplete)));
}

#[test]
fn build_ring_fails_when_a_member_cannot_be_pushed() {
    // Without the chunks the crypto refuses to push members.
    let mut people = People::<Simple>::new(config(10, 2));
    generate_people_with_index(&mut people, 0, 2);
    assert_eq!(people.build_ring(0), Err(DispatchError::Module(Error::CouldNotPush)));
    assert_eq!(people.root_revision(0), None);
    assert_eq!(people.ring_status(0), RingStatus { total: 3, included: 0 });
}

#[test]
fn genesis_stores_chunks_in_pages() {
    let people = new_people(10, 5);
    assert_eq!(people.chunks().lookup(0), Some(&0));
    assert_eq!(people.chunks().lookup(100), Some(&100));
    assert_eq!(people.chunks().lookup(CHUNK_COUNT), None);
    assert_eq!(People::<Simple>::new(config(10, 5)).chunks().lookup(0), None);
    let mut store = ChunkStore::<u8>::new(8);
    store.fill((0..CHUNK_COUNT).map(|i| i as u8).collect());
    assert_eq!(store.lookup(0), Some(&0));
    assert_eq!(store.lookup(13), Some(&13));
    assert_eq!(store.lookup(511), Some(&255));
    assert_eq!(store.lookup(512), None);

    let mut odd = ChunkStore::<u8>::new(5);
    odd.fill(vec![1, 2, 3, 4, 5, 6, 7]);
    assert_eq!(odd.lookup(6), Some(&7));
    assert_eq!(odd.lookup(7), None);
}

#[test]
fn test_set_alias_account() {
    let mut people = new_people(10, 5);
    generate_people_with_index(&mut people, 0, 3);
    let ca = alias_in(1, MOCK_CONTEXT);
    let origin = Origin::PersonalAlias(ca);

    assert_eq!(people.account_alias(&account(42)), None);

    // The first account is held for free.
    assert_eq!(
        people.set_alias_account(origin, account(42)),
        Ok((Pays::No, vec![SystemEffect::IncSufficients(account(42))]))
    );
    assert_eq!(people.account_alias(&account(42)), Some(ca));
    assert_eq!(people.alias_account(&ca), Some(account(42)));

    // Replacing it is paid, and releases the old account.
    assert_eq!(
        people.set_alias_account(origin, account(43)),
        Ok((
            Pays::Yes,
            vec![
                SystemEffect::DecSufficients(account(42)),
                SystemEffect::IncSufficients(account(43))
            ]
        ))
    );
    assert_eq!(people.account_alias(&account(42)), None);
    assert_eq!(people.account_alias(&account(43)), Some(ca));

    // A signed origin is not an alias.
    assert_eq!(
        people.set_alias_account(Origin::Signed(account(44)), account(44)),
        Err(DispatchError::BadOrigin)
    );

    // An account held by another alias is in use.
    let other = Origin::PersonalAlias(alias_in(2, MOCK_CONTEXT));
    assert!(people.set_alias_account(other, account(45)).is_ok());
    let third = Origin::PersonalAlias(alias_in(3, MOCK_CONTEXT));
    assert_eq!(
        people.set_alias_account(third, account(45)),
        Err(DispatchError::Module(Error::AccountInUse))
    );

    // An alias in a context that may not hold accounts.
    let elsewhere = Origin::PersonalAlias(alias_in(4, [0u8; 32]));
    assert_eq!(
        people.set_alias_account(elsewhere, account(46)),
        Err(DispatchError::Module(Error::InvalidContext))
    );
}

#[test]
fn test_unset_alias_account() {
    let mut people = new_people(10, 5);
    generate_people_with_index(&mut people, 0, 1);
    let ca = alias_in(1, MOCK_CONTEXT);
    assert!(people.set_alias_account(Origin::PersonalAlias(ca), account(50)).is_ok());
    assert_eq!(people.account_alias(&account(50)), Some(ca));

    assert_eq!(
        people.unset_alias_account(Origin::Signed(account(50))),
        Ok((Pays::No, vec![SystemEffect::DecSufficients(account(50))]))
    );
    assert_eq!(people.account_alias(&account(50)), None);
    assert_eq!(people.alias_account(&ca), None);

    assert_eq!(
        people.unset_alias_account(Origin::Signed(account(50))),
        Err(DispatchError::Module(Error::InvalidAccount))
    );
    assert_eq!(people.unset_alias_account(Origin::Root), Err(DispatchError::BadOrigin));
}

#[test]
fn held_account_acts_as_its_alias() {
    let mut people = new_people(10, 5);
    let ca = alias_in(9, MOCK_CONTEXT);
    assert_eq!(
        people.under_alias(Origin::Signed(account(7))),
        Err(DispatchError::Module(Error::InvalidAccount))
    );
    assert!(people.set_alias_account(Origin::PersonalAlias(ca), account(7)).is_ok());
    assert_eq!(
        people.under_alias(Origin::Signed(account(7))),
        Ok((Origin::PersonalAlias(ca), Pays::No))
    );
    assert_eq!(people.under_alias(Origin::Root), Err(DispatchError::BadOrigin));
}

#[test]
fn reset_root_forgets_people_and_aliases() {
    let mut people = new_people(10, 2);
    generate_people_with_index(&mut people, 0, 2);
    assert_eq!(people.build_ring(0), Ok(()));
    let ca = alias_in(1, MOCK_CONTEXT);
    assert!(people.set_alias_account(Origin::PersonalAlias(ca), account(5)).is_ok());

    assert_eq!(people.reset_root(Origin::Signed(account(1))), Err(DispatchError::BadOrigin));
    assert_eq!(people.reset_root(Origin::Root), Ok(Pays::No));
    assert_eq!(people.root_revision(0), None);
    assert_eq!(people.person(0), None);
    assert_eq!(people.key_owner(&key(0)), None);
    assert_eq!(people.account_alias(&account(5)), None);
    assert_eq!(people.alias_account(&ca), None);
    // The rings keep their keys.
    assert_eq!(people.ring_status(0), RingStatus { total: 3, included: 3 });
}

#[test]
fn as_personal_identity_checks_the_signature() {
    let mut people = new_people(10, 5);
    generate_people_with_index(&mut people, 1, 1);
    let call = b"remark".to_vec();
    let good = SimpleSignature { key: key(1), msg: call.clone() };
    let bad = SimpleSignature { key: key(2), msg: call.clone() };

    assert_eq!(
        people.as_personal_identity(Origin::Signed(account(1)), 1, &call, &good),
        Ok(Origin::PersonalIdentity(1))
    );
    assert_eq!(
        people.as_personal_identity(Origin::Signed(account(1)), 1, &call, &bad),
        Err(DispatchError::Module(Error::InvalidSignature))
    );
    assert_eq!(
        people.as_personal_identity(Origin::Signed(account(1)), 2, &call, &good),
        Err(DispatchError::Module(Error::NotPerson))
    );
    assert_eq!(
        people.as_personal_identity(Origin::Unsigned, 1, &call, &good),
        Err(DispatchError::BadOrigin)
    );
    assert!(people.verify_signature(1, &call, &good));
    assert!(!people.verify_signature(2, &call, &good));
}

#[test]
fn as_personal_alias_checks_the_proof() {
    let mut people = new_people(10, 2);
    generate_people_with_index(&mut people, 1, 2);
    let call = b"remark".to_vec();
    let proof = SimpleProof { member: key(1), alias: [77u8; 32], msg: call.clone() };

    // No ring was built yet.
    assert_eq!(
        people.as_personal_alias(Origin::Signed(account(1)), MOCK_CONTEXT, &call, &proof, 0),
        Err(DispatchError::Module(Error::NoMembers))
    );
    assert_eq!(people.build_ring(0), Ok(()));
    assert_eq!(
        people.as_personal_alias(Origin::Signed(account(1)), MOCK_CONTEXT, &call, &proof, 0),
        Ok(Origin::PersonalAlias(ContextualAlias { alias: [77u8; 32], context: MOCK_CONTEXT }))
    );
    let stranger = SimpleProof { member: key(9), alias: [77u8; 32], msg: call.clone() };
    assert_eq!(
        people.as_personal_alias(Origin::Signed(account(1)), MOCK_CONTEXT, &call, &stranger, 0),
        Err(DispatchError::Module(Error::InvalidProof))
    );
    assert_eq!(
        people.as_personal_alias(Origin::Root, MOCK_CONTEXT, &call, &proof, 0),
        Err(DispatchError::BadOrigin)
    );
}

#[test]
fn as_person_with_account_asks_for_the_nonce() {
    let mut people = new_people(10, 5);
    let ca = alias_in(3, MOCK_CONTEXT);
    let ext = AsPerson::<Simple>::new(Some(AsPersonInfo::AsPersonalAliasWithAccount(0)));
    assert_eq!(ext.claim(), Some(AsPersonClaim::AliasWithAccount { nonce: 0 }));

    // The signer holds no alias.
    assert_eq!(
        ext.validate(&people, Origin::Signed(account(42)), b""),
        Validation::Invalid(ValidityError::BadSigner)
    );
    assert!(people.set_alias_account(Origin::PersonalAlias(ca), account(42)).is_ok());
    let validation = ext.validate(&people, Origin::Signed(account(42)), b"");
    assert_eq!(
        validation,
        Validation::CheckNonce { who: account(42), nonce: 0, origin: Origin::PersonalAlias(ca) }
    );
    assert_eq!(
        ext.validate(&people, Origin::Unsigned, b""),
        Validation::Invalid(ValidityError::BadSigner)
    );

    let info = NonceInfo { required_tags: vec![], provided_tags: vec![vec![42u8, 0]] };
    let (validity, val, origin) =
        AsPerson::<Simple>::finish_validation(account(42), 0, Origin::PersonalAlias(ca), Ok(info)).unwrap();
    assert_eq!(validity.provided_tags, vec![vec![42u8, 0]]);
    assert_eq!(val, Val::UsingAliasWithAccount(account(42), 0));
    assert_eq!(origin, Origin::PersonalAlias(ca));
    assert_eq!(AsPerson::<Simple>::nonce_to_prepare(val), Some((account(42), 0)));
    assert_eq!(AsPerson::<Simple>::new(None).prepare(val, Ok(())), Ok(true));
    // A stale nonce fails the transaction.
    assert_eq!(
        AsPerson::<Simple>::new(None).prepare(val, Err(ValidityError::Stale)),
        Err(ValidityError::Stale)
    );
    assert_eq!(
        AsPerson::<Simple>::finish_validation(account(42), 0, Origin::PersonalAlias(ca), Err(ValidityError::Stale)),
        Err(ValidityError::Stale)
    );
}

#[test]
fn as_person_with_signature_signs_the_hash_of_the_implication() {
    let mut people = new_people(10, 5);
    generate_people_with_index(&mut people, 5, 5);
    // The person signs the BLAKE2-256 hash of the implication, not the implication itself.
    let signed_hash = AsPerson::<Simple>::new(Some(AsPersonInfo::AsPersonalIdentityWithProof(
        SimpleSignature { key: key(5), msg: BLAKE2_256_OF_EMPTY.to_vec() },
        5,
    )));
    assert_eq!(
        signed_hash.validate(&people, Origin::Unsigned, b""),
        Validation::Valid(Val::UsingIdentityWithProof, Origin::PersonalIdentity(5))
    );
    let signed_raw = AsPerson::<Simple>::new(Some(AsPersonInfo::AsPersonalIdentityWithProof(
        SimpleSignature { key: key(5), msg: Vec::new() },
        5,
    )));
    assert_eq!(
        signed_raw.validate(&people, Origin::Unsigned, b""),
        Validation::Invalid(ValidityError::BadProof)
    );
    let unknown = AsPerson::<Simple>::new(Some(AsPersonInfo::AsPersonalIdentityWithProof(
        SimpleSignature { key: key(5), msg: BLAKE2_256_OF_EMPTY.to_vec() },
        6,
    )));
    assert_eq!(
        unknown.validate(&people, Origin::Unsigned, b""),
        Validation::Invalid(ValidityError::BadSigner)
    );
    assert_eq!(
        signed_hash.validate(&people, Origin::Signed(account(1)), b""),
        Validation::Invalid(ValidityError::BadSigner)
    );
    assert_eq!(signed_hash.prepare(Val::UsingIdentityWithProof, Err(ValidityError::Stale)), Ok(true));
}

#[test]
fn as_person_with_proof_proves_membership() {
    let mut people = new_people(10, 1);
    generate_people_with_index(&mut people, 5, 5);
    let proof = SimpleProof { member: key(5), alias: [8u8; 32], msg: BLAKE2_256_OF_EMPTY.to_vec() };
    let ext = AsPerson::<Simple>::new(Some(AsPersonInfo::AsPersonalAliasWithProof(
        proof,
        0,
        MOCK_CONTEXT,
    )));
    // The ring has no root yet.
    assert_eq!(ext.validate(&people, Origin::Unsigned, b""), Validation::Invalid(ValidityError::Call));
    assert_eq!(people.build_ring(0), Ok(()));
    assert_eq!(
        ext.validate(&people, Origin::Unsigned, b""),
        Validation::Valid(
            Val::UsingAliasWithProof,
            Origin::PersonalAlias(ContextualAlias { alias: [8u8; 32], context: MOCK_CONTEXT })
        )
    );
    // Another implication hashes to another message.
    assert_eq!(ext.validate(&people, Origin::Unsigned, b"x"), Validation::Invalid(ValidityError::BadProof));
}

#[test]
fn as_person_unused() {
    let people = new_people(10, 5);
    let ext = AsPerson::<Simple>::new(None);
    assert_eq!(ext.validate(&people, Origin::Root, b""), Validation::Valid(Val::NotUsing, Origin::Root));
    assert_eq!(AsPerson::<Simple>::new(None).prepare(Val::NotUsing, Ok(())), Ok(false));
    assert_eq!(AsPerson::<Simple>::weight(), Weight { ref_time: 0, proof_size: 0 });
    assert_eq!(AsPerson::<Simple>::post_dispatch_details(false), Weight { ref_time: 0, proof_size: 0 });
    assert_eq!(AsPerson::<Simple>::post_dispatch_details(true), Weight { ref_time: 0, proof_size: 0 });
}

#[test]
fn origins_of_people() {
    let ca = alias_in(1, MOCK_CONTEXT);
    assert_eq!(ensure_personal_identity(Origin::PersonalIdentity(4)), Ok(4));
    assert_eq!(ensure_personal_identity(Origin::PersonalAlias(ca)), Err(()));
    assert_eq!(ensure_personal_alias(Origin::PersonalAlias(ca)), Ok(ca));
    assert_eq!(ensure_personal_alias(Origin::Root), Err(()));
    assert_eq!(ensure_personal_alias_in_context(Origin::PersonalAlias(ca), &MOCK_CONTEXT), Ok(ca.alias));
    assert_eq!(ensure_personal_alias_in_context(Origin::PersonalAlias(ca), &[1u8; 32]), Err(()));
    assert_eq!(EnsurePersonalIdentity::try_origin(Origin::PersonalIdentity(4)), Ok(4));
    assert_eq!(EnsurePersonalIdentity::try_origin(Origin::Root), Err(Origin::Root));
    assert_eq!(EnsurePersonalAlias::try_origin(Origin::PersonalAlias(ca)), Ok(ca));
    assert_eq!(EnsurePersonalAlias::try_origin(Origin::Unsigned), Err(Origin::Unsigned));
    assert_eq!(
        EnsurePersonalAliasInContext::try_origin(Origin::PersonalAlias(ca), &MOCK_CONTEXT),
        Ok(ca.alias)
    );
    assert_eq!(
        EnsurePersonalAliasInContext::try_origin(Origin::PersonalAlias(ca), &[2u8; 32]),
        Err(Origin::PersonalAlias(ca))
    );
}

#[test]
fn ring_positions() {
    assert!(RingPosition::Suspended.suspended());
    assert!(!RingPosition::Onboarding { queue_page: 2 }.suspended());
    assert_eq!(RingPosition::Included { ring_index: 3, ring_position: 1 }.ring_index(), Some(3));
    assert_eq!(RingPosition::Onboarding { queue_page: 2 }.ring_index(), None);
}

#[test]
fn integrity_of_the_configuration() {
    assert!(integrity_test(&config(10, 5)));
    assert!(integrity_test(&config(10, 10)));
    assert!(!integrity_test(&config(10, 11)));
    assert!(!integrity_test(&config(0, 0)));
    let mut c = config(10, 5);
    c.chunk_page_size = 0;
    assert!(!integrity_test(&c));
    assert!(account_context_allowed(&config(10, 5), &MOCK_CONTEXT));
    assert!(!account_context_allowed(&config(10, 5), &[0u8; 32]));
}

#[test]
fn derivative_call_reports_the_weight_used() {
    let info = DispatchInfo {
        call_weight: Weight { ref_time: 100, proof_size: 50 },
        extension_weight: Weight { ref_time: 10, proof_size: 5 },
    };
    assert_eq!(info.total_weight(), Weight { ref_time: 110, proof_size: 55 });
    // What the call reports, bounded part by part by what was declared.
    assert_eq!(
        extract_actual_weight(Some(Weight { ref_time: 200, proof_size: 20 }), &info),
        Weight { ref_time: 110, proof_size: 20 }
    );
    assert_eq!(extract_actual_weight(None, &info), Weight { ref_time: 110, proof_size: 55 });
    let base = Weight { ref_time: 1, proof_size: 2 };
    assert_eq!(
        derivative_call::<()>(base, Ok(Some(Weight { ref_time: 7, proof_size: 7 })), &info),
        Ok(Weight { ref_time: 8, proof_size: 9 })
    );
    assert_eq!(
        derivative_call::<&str>(base, Err(("failed", None)), &info),
        Err(("failed", Weight { ref_time: 111, proof_size: 57 }))
    );
    let huge = DispatchInfo {
        call_weight: Weight { ref_time: u64::MAX, proof_size: 1 },
        extension_weight: Weight { ref_time: 1, proof_size: 1 },
    };
    assert_eq!(huge.total_weight(), Weight { ref_time: u64::MAX, proof_size: 2 });
}
