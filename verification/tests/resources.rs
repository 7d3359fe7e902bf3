use individuality::reality::{Alias, CommunicationIdentifier, ContextualAlias};
use individuality::resources::{
    Credibility, Error, Event, InvalidStatement, InvalidStatementReason,
    PersonalUsernameChoice, Resources, ResourcesConfig, SignatureVerification, StatementAuth,
    StatementProofKind, StatementSource, UsernameReservation, ValidStatement, RESOURCES_CONTEXT,
};
use individuality::runtime::{AccountId, DispatchError, Origin, Pays, SystemEffect, UnixTime, Verify};

/// A signature that verifies for one account, whatever the message.
struct AccountAuthority(AccountId);

impl Verify for AccountAuthority {
    fn verify(&self, _msg: &[u8], signer: &AccountId) -> bool {
        self.0 == *signer
    }
}

fn config() -> ResourcesConfig {
    ResourcesConfig {
        max_username_length: 32,
        min_username_length: 7,
        person_auth_duration: 20,
        min_person_auth_update_interval: 10,
        username_reservation_duration: 40,
        lite_person_statement_limit: ValidStatement { max_count: 10, max_size: 4 * 1024 },
    }
}

fn new_test_ext() -> Resources {
    Resources::new(config())
}

fn id_to_account(id: u64) -> AccountId {
    let mut bytes = [0u8; 32];
    bytes[..8].copy_from_slice(&id.to_le_bytes());
    bytes
}

fn id_to_alias(id: u64) -> Alias {
    let mut bytes = [0u8; 32];
    bytes[..8].copy_from_slice(&id.to_le_bytes());
    bytes
}

fn username(s: &[u8]) -> Vec<u8> {
    s.to_vec()
}

fn comm_id(s: &[u8]) -> CommunicationIdentifier {
    let mut buf = Vec::new();
    while buf.len() < 65 {
        buf.extend_from_slice(s);
    }
    buf.truncate(65);
    let mut out = [0u8; 65];
    out.copy_from_slice(&buf);
    out
}

fn lite_person_origin(account: u64) -> Origin {
    Origin::LitePerson(id_to_account(account))
}

fn person_origin_for(alias_id: u64) -> Origin {
    Origin::PersonalAlias(ContextualAlias { alias: id_to_alias(alias_id), context: RESOURCES_CONTEXT })
}

fn mock_lite_proof(lite_account: AccountId) -> AccountAuthority {
    AccountAuthority(lite_account)
}

fn unix(secs: u64) -> UnixTime {
    UnixTime { secs, subsec_nanos: 0 }
}

#[test]
fn register_lite_person_success() {
    let mut r = new_test_ext();
    let user_account = id_to_account(1);
    let uname = username(b"testuser.12");
    let comm = comm_id(b"key1");

    let (pays, effects) =
        r.register_lite_person(lite_person_origin(1), comm, uname.clone(), None, 0).unwrap();
    assert_eq!(pays, Pays::No);

    let consumer_info = r.consumer(&user_account).unwrap().clone();
    assert_eq!(consumer_info.identifier_key, comm);
    assert_eq!(consumer_info.lite_username, uname.clone());
    assert_eq!(consumer_info.full_username, None);
    assert_eq!(consumer_info.credibility, Credibility::Lite);
    assert_eq!(r.username_owner(&uname), Some(user_account));
    // The sufficient references of the account are incremented once.
    assert_eq!(effects, vec![SystemEffect::IncSufficients(user_account)]);
    assert_eq!(r.events(), &vec![Event::LitePersonRegistered { account: user_account }]);
}

#[test]
fn register_lite_person_with_reservation_success() {
    let mut r = new_test_ext();
    let user_account = id_to_account(1);
    let uname = username(b"testuser.12");
    let reserved_uname = username(b"reserved");
    let comm = comm_id(b"key1");

    assert!(r
        .register_lite_person(lite_person_origin(1), comm, uname.clone(), Some(reserved_uname.clone()), 100)
        .is_ok());

    let consumer_info = r.consumer(&user_account).unwrap().clone();
    assert_eq!(consumer_info.lite_username, uname.clone());
    assert_eq!(r.username_owner(&uname), Some(user_account));

    let reservation = r.reservation(&reserved_uname).unwrap();
    assert_eq!(reservation.owner, user_account);
    assert_eq!(reservation.since, 100);
}

#[test]
fn register_person_success_standalone_username() {
    let mut r = new_test_ext();
    let person_id = 10;
    let person_alias = id_to_alias(person_id);
    let origin = person_origin_for(person_id);
    let lite_account = id_to_account(1);
    let lite_uname = username(b"liteuser.12");
    let person_uname = username(b"personuser");
    let comm = comm_id(b"key1");

    assert!(r.register_lite_person(lite_person_origin(1), comm, lite_uname.clone(), None, 0).is_ok());
    assert!(r.consumer(&lite_account).is_some());

    let proof = mock_lite_proof(lite_account);
    assert_eq!(
        r.register_person(
            origin,
            lite_account,
            &proof,
            PersonalUsernameChoice::Standalone(person_uname.clone()),
            100
        ),
        Ok(Pays::No)
    );

    let consumer_info = r.consumer(&lite_account).unwrap().clone();
    assert_eq!(consumer_info.identifier_key, comm);
    assert_eq!(consumer_info.lite_username, lite_uname.clone());
    assert_eq!(consumer_info.full_username, Some(person_uname.clone()));
    assert_eq!(consumer_info.credibility, Credibility::Person { alias: person_alias, last_update: 100 });
    assert_eq!(r.username_owner(&lite_uname), Some(lite_account));
    assert_eq!(r.username_owner(&person_uname), Some(lite_account));
    assert_eq!(r.alias_account(&person_alias), Some(lite_account));
    assert_eq!(
        r.events().last(),
        Some(&Event::PersonRegistered { alias: person_alias, account: lite_account })
    );
}

#[test]
fn register_person_success_with_reservation() {
    let mut r = new_test_ext();
    let person_id = 10;
    let person_alias = id_to_alias(person_id);
    let origin = person_origin_for(person_id);
    let lite_account = id_to_account(1);
    let lite_uname = username(b"liteuser.12");
    let reserved_uname = username(b"reserved");
    let comm = comm_id(b"key1");

    assert!(r
        .register_lite_person(lite_person_origin(1), comm, lite_uname.clone(), Some(reserved_uname.clone()), 50)
        .is_ok());
    assert!(r.reservation(&reserved_uname).is_some());

    let proof = mock_lite_proof(lite_account);
    assert_eq!(
        r.register_person(
            origin,
            lite_account,
            &proof,
            PersonalUsernameChoice::Reservation(reserved_uname.clone()),
            100
        ),
        Ok(Pays::No)
    );

    let consumer_info = r.consumer(&lite_account).unwrap().clone();
    assert_eq!(consumer_info.full_username, Some(reserved_uname.clone()));
    assert_eq!(consumer_info.credibility, Credibility::Person { alias: person_alias, last_update: 100 });
    assert_eq!(r.username_owner(&reserved_uname), Some(lite_account));
    assert_eq!(r.alias_account(&person_alias), Some(lite_account));
    // The reservation is consumed.
    assert!(r.reservation(&reserved_uname).is_none());
}

#[test]
fn register_fails_if_already_registered() {
    let mut r = new_test_ext();
    let user_account = id_to_account(1);
    let origin = lite_person_origin(1);
    let uname = username(b"testuser.12");
    let comm = comm_id(b"key1");

    assert!(r.register_lite_person(origin, comm, uname.clone(), None, 0).is_ok());

    // Registering as a lite person again fails.
    let second_uname = username(b"secondtestuser.12");
    let second_comm = comm_id(b"key2");
    assert_eq!(
        r.register_lite_person(origin, second_comm, second_uname.clone(), None, 0),
        Err(DispatchError::Module(Error::AlreadyRegistered))
    );

    // The person's alias gets used by linking this lite person.
    let person_id = 10;
    let person_origin = person_origin_for(person_id);
    let proof = mock_lite_proof(user_account);
    assert!(r
        .register_person(
            person_origin,
            user_account,
            &proof,
            PersonalUsernameChoice::Standalone(username(b"firstname")),
            100
        )
        .is_ok());

    // Registering the same alias again fails, whatever username it asks for.
    let person_uname = username(b"personuser");
    assert_eq!(
        r.register_person(
            person_origin,
            user_account,
            &proof,
            PersonalUsernameChoice::Standalone(person_uname.clone())
        , 100),
        Err(DispatchError::Module(Error::AlreadyRegistered))
    );
}

#[test]
fn register_fails_if_username_taken() {
    let mut r = new_test_ext();
    let uname = username(b"takenuser.12");
    let comm = comm_id(b"key1");

    assert!(r.register_lite_person(lite_person_origin(1), comm, uname.clone(), None, 0).is_ok());

    assert_eq!(
        r.register_lite_person(lite_person_origin(2), comm, uname.clone(), None, 0),
        Err(DispatchError::Module(Error::UsernameTaken))
    );

    let person_origin = person_origin_for(10);
    let lite_account_for_person = id_to_account(3);
    let proof = mock_lite_proof(lite_account_for_person);
    assert!(r
        .register_lite_person(lite_person_origin(3), comm, username(b"another.34"), None, 0)
        .is_ok());
    assert_eq!(
        r.register_person(
            person_origin,
            lite_account_for_person,
            &proof,
            PersonalUsernameChoice::Standalone(uname.clone()),
            0
        ),
        Err(DispatchError::Module(Error::UsernameTaken))
    );

    // There is no reservation of a username that is taken.
    assert_eq!(
        r.register_person(
            person_origin,
            lite_account_for_person,
            &proof,
            PersonalUsernameChoice::Reservation(uname.clone()),
            0
        ),
        Err(DispatchError::Module(Error::NoReservation))
    );
}

#[test]
fn register_fails_if_username_invalid() {
    let mut r = new_test_ext();
    let comm = comm_id(b"key1");

    let invalid_lite_unames = [
        b"invalid".to_vec(),
        b"invalid.".to_vec(),
        b"invalid.1".to_vec(),
        b"Invalid.12".to_vec(),
        b"in_valid.12".to_vec(),
        b"short.12".to_vec(),
    ];
    for uname_bytes in invalid_lite_unames {
        let uname = username(&uname_bytes);
        assert_eq!(
            r.register_lite_person(lite_person_origin(1), comm, uname.clone(), None, 0),
            Err(DispatchError::Module(Error::InvalidUsername))
        );
    }

    let person_origin = person_origin_for(10);
    let lite_account_for_person = id_to_account(2);
    let proof = mock_lite_proof(lite_account_for_person);
    assert!(r
        .register_lite_person(lite_person_origin(2), comm, username(b"linking.12"), None, 0)
        .is_ok());

    let invalid_person_unames = [
        b"Invalid".to_vec(),
        b"in_valid".to_vec(),
        b"invalid.12".to_vec(),
        b"short".to_vec(),
    ];
    for uname_bytes in invalid_person_unames {
        let uname = username(&uname_bytes);
        assert_eq!(
            r.register_person(
                person_origin,
                lite_account_for_person,
                &proof,
                PersonalUsernameChoice::Standalone(uname.clone()),
                0
            ),
            Err(DispatchError::Module(Error::InvalidUsername))
        );
    }

    // The reserved username is validated too.
    let valid_uname = username(b"gooduser.12");
    let invalid_reserved = username(b"Invalid");
    assert_eq!(
        r.register_lite_person(lite_person_origin(1), comm, valid_uname.clone(), Some(invalid_reserved), 0),
        Err(DispatchError::Module(Error::InvalidUsername))
    );

    let valid_reserved = username(b"reserved");
    assert!(r
        .register_lite_person(lite_person_origin(1), comm, valid_uname.clone(), Some(valid_reserved), 0)
        .is_ok());
    let invalid_reserved = username(b"Invalid");
    assert_eq!(
        r.register_person(
            person_origin,
            lite_account_for_person,
            &proof,
            PersonalUsernameChoice::Reservation(invalid_reserved),
            0
        ),
        Err(DispatchError::Module(Error::NoReservation))
    );
}

#[test]
fn register_person_fails_invalid_proof() {
    let mut r = new_test_ext();
    let origin = person_origin_for(10);
    let lite_account = id_to_account(1);
    let person_uname = username(b"personuser");
    let comm = comm_id(b"key1");

    assert!(r.register_lite_person(lite_person_origin(1), comm, username(b"linking.12"), None, 0).is_ok());

    // A proof of another account's authority.
    let invalid_proof = mock_lite_proof(id_to_account(99));
    assert_eq!(
        r.register_person(
            origin,
            lite_account,
            &invalid_proof,
            PersonalUsernameChoice::Standalone(person_uname.clone()),
            0
        ),
        Err(DispatchError::Module(Error::InvalidProofOfOwnership))
    );
}

#[test]
fn register_fails_reserved_username_taken() {
    let mut r = new_test_ext();
    let uname1 = username(b"userone.12");
    let uname2 = username(b"usertwo.12");
    let reserved_uname = username(b"reserved");
    let comm = comm_id(b"key1");

    assert!(r
        .register_lite_person(lite_person_origin(1), comm, uname1.clone(), Some(reserved_uname.clone()), 100)
        .is_ok());

    assert_eq!(
        r.register_lite_person(lite_person_origin(2), comm, uname2.clone(), Some(reserved_uname.clone()), 100),
        Err(DispatchError::Module(Error::UsernameReservationTaken))
    );

    let person_origin = person_origin_for(10);
    let lite_account_for_person = id_to_account(3);
    let proof = mock_lite_proof(lite_account_for_person);
    assert!(r
        .register_lite_person(lite_person_origin(3), comm, username(b"userthree.12"), None, 100)
        .is_ok());
    assert_eq!(
        r.register_person(
            person_origin,
            lite_account_for_person,
            &proof,
            PersonalUsernameChoice::Reservation(reserved_uname.clone()),
            100
        ),
        Err(DispatchError::Module(Error::InvalidUsernameSignature))
    );

    let uname4 = username(b"userfour.12");
    assert!(r.register_lite_person(lite_person_origin(4), comm, uname4.clone(), None, 100).is_ok());
    assert_eq!(
        r.register_lite_person(lite_person_origin(5), comm, username(b"userfive.12"), Some(uname4), 100),
        Err(DispatchError::Module(Error::UsernameReservationTaken))
    );
}

#[test]
fn register_person_fails_no_linked_lite_identity() {
    let mut r = new_test_ext();
    let origin = person_origin_for(10);
    let non_existent_lite_account = id_to_account(99);
    let person_uname = username(b"personuser");
    let proof = mock_lite_proof(non_existent_lite_account);

    assert_eq!(
        r.register_person(
            origin,
            non_existent_lite_account,
            &proof,
            PersonalUsernameChoice::Standalone(person_uname.clone()),
            0
        ),
        Err(DispatchError::Module(Error::NoLinkedIdentity))
    );
}

#[test]
fn register_person_fails_lite_identity_already_linked() {
    let mut r = new_test_ext();
    let person1_origin = person_origin_for(10);
    let person2_origin = person_origin_for(20);
    let lite_account = id_to_account(1);
    let comm = comm_id(b"key1");

    assert!(r.register_lite_person(lite_person_origin(1), comm, username(b"liteuser.12"), None, 0).is_ok());

    let proof1 = mock_lite_proof(lite_account);
    assert!(r
        .register_person(
            person1_origin,
            lite_account,
            &proof1,
            PersonalUsernameChoice::Standalone(username(b"firstpersonuser")),
            0
        )
        .is_ok());

    let proof2 = mock_lite_proof(lite_account);
    assert_eq!(
        r.register_person(
            person2_origin,
            lite_account,
            &proof2,
            PersonalUsernameChoice::Standalone(username(b"secondpersonuser")),
            0
        ),
        Err(DispatchError::Module(Error::AlreadyLinked))
    );
}

#[test]
fn touch_authorization_success() {
    let mut r = new_test_ext();
    let person_id = 10;
    let person_alias = id_to_alias(person_id);
    let person_origin = person_origin_for(person_id);
    let lite_account = id_to_account(1);

    assert!(r
        .register_lite_person(lite_person_origin(1), comm_id(b"key"), username(b"liteper.12"), None, 0)
        .is_ok());
    let proof = mock_lite_proof(lite_account);
    assert!(r
        .register_person(
            person_origin,
            lite_account,
            &proof,
            PersonalUsernameChoice::Standalone(username(b"fullperson")),
            100
        )
        .is_ok());
    assert_eq!(
        r.consumer(&lite_account).unwrap().credibility,
        Credibility::Person { alias: person_alias, last_update: 100 }
    );

    // Past the minimum interval.
    let duration: u32 = r.config().min_person_auth_update_interval;
    let new_time = 100 + duration as u64 + 1;
    assert_eq!(r.touch_person_authorization(person_origin, new_time), Ok(Pays::No));

    assert_eq!(
        r.consumer(&lite_account).unwrap().credibility,
        Credibility::Person { alias: person_alias, last_update: new_time }
    );
}

#[test]
fn touch_authorization_fails_not_registered() {
    let mut r = new_test_ext();
    let person_origin = person_origin_for(10);
    assert_eq!(
        r.touch_person_authorization(person_origin, 0),
        Err(DispatchError::Module(Error::NotRegistered))
    );
}

#[test]
fn touch_authorization_fails_not_full_person() {
    let mut r = new_test_ext();
    let lite_origin = lite_person_origin(1);
    assert!(r
        .register_lite_person(lite_origin, comm_id(b"key"), username(b"liteper.12"), None, 0)
        .is_ok());

    // A person whose alias is not linked to the lite account is not registered.
    let person_origin = person_origin_for(10);
    assert_eq!(
        r.touch_person_authorization(person_origin, 0),
        Err(DispatchError::Module(Error::NotRegistered))
    );
    // A lite person's origin is not a person's.
    assert_eq!(r.touch_person_authorization(lite_origin, 0), Err(DispatchError::BadOrigin));
}

#[test]
fn touch_authorization_accepted_exactly_at_the_interval() {
    let mut r = new_test_ext();
    let person_origin = person_origin_for(10);
    let lite_account = id_to_account(1);
    assert!(r
        .register_lite_person(lite_person_origin(1), comm_id(b"key"), username(b"liteper.12"), None, 0)
        .is_ok());
    assert!(r
        .register_person(
            person_origin,
            lite_account,
            &mock_lite_proof(lite_account),
            PersonalUsernameChoice::Standalone(username(b"fullperson")),
            100
        )
        .is_ok());
    assert_eq!(r.touch_person_authorization(person_origin, 109), Err(DispatchError::Module(Error::TouchNotReady)));
    assert_eq!(r.touch_person_authorization(person_origin, 110), Ok(Pays::No));
}

#[test]
fn person_usernames_are_lowercase_alphanumeric() {
    let c = config();
    assert_eq!(Resources::validate_username(&c, &username(b"abcdefg1"), true), Ok(()));
    assert_eq!(Resources::validate_username(&c, &username(b"1234567"), true), Ok(()));
    assert_eq!(Resources::validate_username(&c, &username(b"abcdef1"), false), Err(Error::InvalidUsername));
}

#[test]
fn touch_authorization_counts_seconds_near_the_end_of_time() {
    let mut r = new_test_ext();
    let person_origin = person_origin_for(10);
    let lite_account = id_to_account(1);
    assert!(r
        .register_lite_person(lite_person_origin(1), comm_id(b"key"), username(b"liteper.12"), None, 0)
        .is_ok());
    assert!(r
        .register_person(
            person_origin,
            lite_account,
            &mock_lite_proof(lite_account),
            PersonalUsernameChoice::Standalone(username(b"fullperson")),
            u64::MAX - 5
        )
        .is_ok());
    // Only five seconds have passed.
    assert_eq!(
        r.touch_person_authorization(person_origin, u64::MAX),
        Err(DispatchError::Module(Error::TouchNotReady))
    );
}

#[test]
fn usernames_are_at_most_the_maximum_length() {
    let c = config();
    let long_lite = [b"a".repeat(29), b".12".to_vec()].concat();
    assert_eq!(long_lite.len(), 32);
    assert_eq!(Resources::validate_username(&c, &long_lite, false), Ok(()));
    let too_long_lite = [b"a".repeat(30), b".12".to_vec()].concat();
    assert_eq!(Resources::validate_username(&c, &too_long_lite, false), Err(Error::InvalidUsername));
    assert_eq!(Resources::validate_username(&c, &b"a".repeat(32), true), Ok(()));
    assert_eq!(Resources::validate_username(&c, &b"a".repeat(33), true), Err(Error::InvalidUsername));
    let mut r = new_test_ext();
    assert_eq!(
        r.register_lite_person(lite_person_origin(1), comm_id(b"key"), too_long_lite, None, 0),
        Err(DispatchError::Module(Error::InvalidUsername))
    );
}

#[test]
fn touch_authorization_fails_too_early() {
    let mut r = new_test_ext();
    let person_origin = person_origin_for(10);
    let lite_account = id_to_account(1);

    assert!(r
        .register_lite_person(lite_person_origin(1), comm_id(b"key"), username(b"liteper.12"), None, 0)
        .is_ok());
    let proof = mock_lite_proof(lite_account);
    assert!(r
        .register_person(
            person_origin,
            lite_account,
            &proof,
            PersonalUsernameChoice::Standalone(username(b"fullperson")),
            100
        )
        .is_ok());

    let duration: u32 = r.config().min_person_auth_update_interval;
    assert_eq!(
        r.touch_person_authorization(person_origin, 100 + duration as u64 - 1),
        Err(DispatchError::Module(Error::TouchNotReady))
    );
}

#[test]
fn remove_username_reservation_success() {
    let mut r = new_test_ext();
    let reserved_uname = username(b"reserved");
    let reservation_time = 100;

    assert!(r
        .register_lite_person(
            lite_person_origin(1),
            comm_id(b"key"),
            username(b"liteper.12"),
            Some(reserved_uname.clone()),
            reservation_time
        )
        .is_ok());
    assert!(r.reservation(&reserved_uname).is_some());

    let duration: u64 = r.config().username_reservation_duration;
    assert_eq!(
        r.remove_expired_username_reservation(
            lite_person_origin(2),
            &reserved_uname,
            unix(reservation_time + duration + 1)
        ),
        Ok(Pays::No)
    );
    assert!(r.reservation(&reserved_uname).is_none());
}

#[test]
fn remove_username_reservation_fails_no_reservation() {
    let mut r = new_test_ext();
    let non_reserved_uname = username(b"notreserved");
    assert_eq!(
        r.remove_expired_username_reservation(lite_person_origin(1), &non_reserved_uname, unix(0)),
        Err(DispatchError::Module(Error::NoReservation))
    );
}

#[test]
fn remove_username_reservation_fails_too_early() {
    let mut r = new_test_ext();
    let reserved_uname = username(b"reserved");
    let reservation_time = 100;

    assert!(r
        .register_lite_person(
            lite_person_origin(1),
            comm_id(b"key"),
            username(b"liteper.12"),
            Some(reserved_uname.clone()),
            reservation_time
        )
        .is_ok());

    let duration: u64 = r.config().username_reservation_duration;
    assert_eq!(
        r.remove_expired_username_reservation(
            lite_person_origin(2),
            &reserved_uname,
            unix(reservation_time + duration - 1)
        ),
        Err(DispatchError::Module(Error::ReservationFresh))
    );
}

#[test]
fn update_identifier_key_success() {
    let mut r = new_test_ext();
    let user_account = id_to_account(1);
    let origin = Origin::Signed(user_account);
    let initial_comm = comm_id(b"key1");
    let new_comm = comm_id(b"key2");

    assert!(r
        .register_lite_person(lite_person_origin(1), initial_comm, username(b"liteper.12"), None, 0)
        .is_ok());
    assert_eq!(r.update_identifier_key(origin, new_comm), Ok(()));
    assert_eq!(r.consumer(&user_account).unwrap().identifier_key, new_comm);
}

#[test]
fn update_identifier_key_fails_not_registered() {
    let mut r = new_test_ext();
    let origin = Origin::Signed(id_to_account(99));
    let new_comm = comm_id(b"key2");
    assert_eq!(
        r.update_identifier_key(origin, new_comm),
        Err(DispatchError::Module(Error::NotRegistered))
    );
}

#[test]
fn validate_username_variants() {
    let c = config();
    // Valid lite.
    assert_eq!(Resources::validate_username(&c, &username(b"abcdefg.12"), false), Ok(()));
    assert_eq!(Resources::validate_username(&c, &username(b"userlongname.12345"), false), Ok(()));

    // Invalid lite.
    assert_eq!(Resources::validate_username(&c, &username(b"abc.12"), false), Err(Error::InvalidUsername));
    assert_eq!(Resources::validate_username(&c, &username(b"abcdefg.1"), false), Err(Error::InvalidUsername));
    assert_eq!(Resources::validate_username(&c, &username(b"abcdefg."), false), Err(Error::InvalidUsername));
    assert_eq!(Resources::validate_username(&c, &username(b"abcdefg"), false), Err(Error::InvalidUsername));
    assert_eq!(Resources::validate_username(&c, &username(b"abcDefg.12"), false), Err(Error::InvalidUsername));
    assert_eq!(Resources::validate_username(&c, &username(b"abcdefg.1a"), false), Err(Error::InvalidUsername));
    assert_eq!(Resources::validate_username(&c, &username(b"abc_defg.12"), false), Err(Error::InvalidUsername));

    // Valid person.
    assert_eq!(Resources::validate_username(&c, &username(b"abcdefg"), true), Ok(()));

    // Invalid person.
    assert_eq!(Resources::validate_username(&c, &username(b"abc"), true), Err(Error::InvalidUsername));
    assert_eq!(Resources::validate_username(&c, &username(b"Abcdefg"), true), Err(Error::InvalidUsername));
    assert_eq!(Resources::validate_username(&c, &username(b"abc-defg"), true), Err(Error::InvalidUsername));
    assert_eq!(Resources::validate_username(&c, &username(b"abcdefg.12"), true), Err(Error::InvalidUsername));
}

fn signed_by(account: AccountId) -> StatementAuth {
    StatementAuth {
        proof: Some(StatementProofKind::Ed25519),
        signature: SignatureVerification::Valid(account),
    }
}

#[test]
fn validate_statement_success_for_consumer() {
    let mut r = new_test_ext();
    let consumer_account = [7u8; 32];
    assert!(r
        .register_lite_person(
            Origin::LitePerson(consumer_account),
            comm_id(b"key"),
            username(b"consumer.12"),
            None,
            0
        )
        .is_ok());

    let result = r.validate_statement_with_reason_and_account(
        StatementSource::Local,
        signed_by(consumer_account),
        None,
    );
    assert_eq!(result, Ok(config().lite_person_statement_limit));
    assert_eq!(result, Ok(ValidStatement { max_count: 10, max_size: 4096 }));
}

#[test]
fn validate_statement_fails_for_non_consumer() {
    let r = new_test_ext();
    let result = r.validate_statement_with_reason_and_account(
        StatementSource::Local,
        signed_by([8u8; 32]),
        None,
    );
    assert_eq!(result, Err(InvalidStatementReason::NotConsumer));
}

#[test]
fn validate_statement_fails_for_unsigned() {
    let r = new_test_ext();
    let statement = StatementAuth { proof: None, signature: SignatureVerification::NoSignature };
    let result =
        r.validate_statement_with_reason_and_account(StatementSource::Local, statement, None);
    assert_eq!(result, Err(InvalidStatementReason::StatementIsNotSigned));
}

#[test]
fn validate_statement_fails_for_invalid_signature() {
    let mut r = new_test_ext();
    assert!(r
        .register_lite_person(lite_person_origin(1), comm_id(b"key"), username(b"consumer.12"), None, 0)
        .is_ok());

    let invalid_sig_statement = StatementAuth {
        proof: Some(StatementProofKind::Sr25519),
        signature: SignatureVerification::Invalid,
    };
    let result = r.validate_statement_with_reason_and_account(
        StatementSource::Local,
        invalid_sig_statement,
        None,
    );
    assert_eq!(result, Err(InvalidStatementReason::InvalidSignature));
}

#[test]
fn validate_statement_uses_verified_account_if_provided() {
    let mut r = new_test_ext();
    let consumer_account = id_to_account(1);
    assert!(r
        .register_lite_person(lite_person_origin(1), comm_id(b"key"), username(b"consumer.12"), None, 0)
        .is_ok());

    let statement = StatementAuth { proof: None, signature: SignatureVerification::NoSignature };
    let result = r.validate_statement_with_reason_and_account(
        StatementSource::Local,
        statement,
        Some(consumer_account),
    );
    assert_eq!(result, Ok(config().lite_person_statement_limit));

    let result_non_consumer = r.validate_statement_with_reason_and_account(
        StatementSource::Local,
        statement,
        Some(id_to_account(99)),
    );
    assert_eq!(result_non_consumer, Err(InvalidStatementReason::NotConsumer));
}

#[test]
fn test_username_basic() {
    let c = config();
    Resources::validate_username(&c, &b"abcdefg.12".to_vec(), false).unwrap();
    Resources::validate_username(&c, &b"abcdefg.1".to_vec(), false).unwrap_err();
    Resources::validate_username(&c, &b"abcdef.12".to_vec(), false).unwrap_err();
    Resources::validate_username(&c, &b"abcdef1.12".to_vec(), false).unwrap_err();
    Resources::validate_username(&c, &b"abcdefg.a2".to_vec(), false).unwrap_err();
    Resources::validate_username(&c, &b"abcdefgh12".to_vec(), false).unwrap_err();
    Resources::validate_username(&c, &b"abcdefghij".to_vec(), false).unwrap_err();
}

#[test]
fn validate_statement_answers_bad_proof() {
    let mut r = new_test_ext();
    assert!(r
        .register_lite_person(lite_person_origin(1), comm_id(b"key"), username(b"consumer.12"), None, 0)
        .is_ok());
    assert_eq!(
        r.validate_statement(StatementSource::Network, signed_by(id_to_account(1))),
        Ok(ValidStatement { max_count: 10, max_size: 4096 })
    );
    assert_eq!(
        r.validate_statement(StatementSource::Network, signed_by(id_to_account(2))),
        Err(InvalidStatement::BadProof)
    );
    let on_chain = StatementAuth {
        proof: Some(StatementProofKind::OnChain),
        signature: SignatureVerification::NoSignature,
    };
    assert_eq!(r.validate_statement(StatementSource::Chain, on_chain), Err(InvalidStatement::BadProof));
}

#[test]
fn registered_usernames_are_taken_for_everyone() {
    let mut r = new_test_ext();
    assert!(r
        .register_lite_person(
            lite_person_origin(1),
            comm_id(b"key"),
            username(b"firstuser.12"),
            Some(username(b"firstperson")),
            0
        )
        .is_ok());
    // Neither the username nor the reservation can be had by another consumer.
    assert_eq!(
        r.register_lite_person(lite_person_origin(2), comm_id(b"key"), username(b"firstuser.12"), None, 0),
        Err(DispatchError::Module(Error::UsernameTaken))
    );
    assert_eq!(
        r.register_lite_person(lite_person_origin(2), comm_id(b"key"), username(b"firstperson"), None, 0),
        Err(DispatchError::Module(Error::UsernameTaken))
    );
}

#[test]
fn consumer_has_at_most_two_usernames() {
    let mut r = new_test_ext();
    let lite_account = id_to_account(1);
    assert!(r
        .register_lite_person(lite_person_origin(1), comm_id(b"key"), username(b"liteuser.12"), None, 0)
        .is_ok());
    assert!(r
        .register_person(
            person_origin_for(10),
            lite_account,
            &mock_lite_proof(lite_account),
            PersonalUsernameChoice::Standalone(username(b"fullname")),
            0
        )
        .is_ok());
    assert_eq!(r.username_owner(&username(b"liteuser.12")), Some(lite_account));
    assert_eq!(r.username_owner(&username(b"fullname")), Some(lite_account));
    // The consumer cannot link a third username.
    assert_eq!(
        r.register_person(
            person_origin_for(11),
            lite_account,
            &mock_lite_proof(lite_account),
            PersonalUsernameChoice::Standalone(username(b"thirdname")),
            0
        ),
        Err(DispatchError::Module(Error::AlreadyLinked))
    );
    assert_eq!(r.username_owner(&username(b"thirdname")), None);
}

#[test]
fn reservation_expires_strictly_after_its_duration() {
    let mut r = new_test_ext();
    let reserved = username(b"reserved");
    assert!(r
        .register_lite_person(lite_person_origin(1), comm_id(b"key"), username(b"liteper.12"), Some(reserved.clone()), 100)
        .is_ok());
    assert_eq!(r.reservation(&reserved), Some(UsernameReservation { owner: id_to_account(1), since: 100 }));
    // At exactly the end of the duration the reservation is still fresh.
    assert_eq!(
        r.remove_expired_username_reservation(lite_person_origin(2), &reserved, unix(140)),
        Err(DispatchError::Module(Error::ReservationFresh))
    );
    // Any fraction of a second later it has expired.
    assert_eq!(
        r.remove_expired_username_reservation(
            lite_person_origin(2),
            &reserved,
            UnixTime { secs: 140, subsec_nanos: 1 }
        ),
        Ok(Pays::No)
    );
    // Only a lite person may remove it.
    assert_eq!(
        r.remove_expired_username_reservation(Origin::Signed(id_to_account(2)), &reserved, unix(200)),
        Err(DispatchError::BadOrigin)
    );
}
