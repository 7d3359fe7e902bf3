//! Resources: consumers registered as lite people or people, their usernames, username
//! reservations and their allowance in the statement store.
use vstd::prelude::*;

use crate::people_lite::ensure_lite_person;
use crate::people_multi::ensure_personal_alias_in_context;
use crate::reality::{arrays_equal, Alias, CommunicationIdentifier, Context};
use crate::runtime::{
    ensure_signed, AccountId, DispatchError, Origin, Pays, SystemEffect, UnixTime, Verify,
};
use crate::table::{Table, TableKey};

verus! {

/// The context in which people are known to this pallet.
pub const RESOURCES_CONTEXT: Context = [
    112u8, 111, 112, 58, 112, 111, 108, 107, 97, 100, 111, 116, 46, 110, 101, 116, 119, 111, 114,
    107, 47, 114, 101, 115, 111, 117, 114, 99, 101, 115, 32, 32,
];

/// The least number of digits after the separator of a lite person's username.
pub const MIN_LITE_USERNAME_DIGITS: usize = 2;

/// The byte that separates the letters of a lite person's username from its digits.
pub const USERNAME_SEPARATOR: u8 = 46;

/// A username: its bytes.
pub type Username = Vec<u8>;

/// The statement store allowance of an account.
#[derive(Clone, Copy, Debug, PartialEq, Eq)]
pub struct ValidStatement {
    pub max_count: u32,
    pub max_size: u32,
}

/// The constants the pallet is configured with.
#[derive(Clone, Copy, Debug, PartialEq, Eq)]
pub struct ResourcesConfig {
    /// The maximum length of a username, including any trailing digits.
    pub max_username_length: u32,
    /// The minimum length of a username.
    pub min_username_length: u32,
    /// For how long, in seconds, a person's authorization is valid.
    pub person_auth_duration: u32,
    /// How long, in seconds, must pass before a person's authorization is updated again.
    pub min_person_auth_update_interval: u32,
    /// For how long, in seconds, a username reservation is valid.
    pub username_reservation_duration: u64,
    /// The statement store allowance of every consumer.
    pub lite_person_statement_limit: ValidStatement,
}

/// The credibility of a consumer.
#[derive(Clone, Copy, Debug, PartialEq, Eq)]
pub enum Credibility {
    /// Recognized as a lite person.
    Lite,
    /// Recognized as a person with an alias, last authenticated as a person at `last_update`.
    Person { alias: Alias, last_update: u64 },
}

/// The information related to a consumer.
#[derive(Clone, Debug, PartialEq, Eq)]
pub struct ConsumerInfo {
    /// An opaque key used in end-to-end encrypted communication between consumers.
    pub identifier_key: CommunicationIdentifier,
    /// The username of the consumer as a person, if they are one.
    pub full_username: Option<Username>,
    /// The username of the consumer's lite person identity.
    pub lite_username: Username,
    /// The credibility of the consumer.
    pub credibility: Credibility,
}

/// A username reservation.
#[derive(Clone, Copy, Debug, PartialEq, Eq)]
pub struct UsernameReservation {
    /// The owner of the reserved username.
    pub owner: AccountId,
    /// When the username was reserved, in seconds since the UNIX epoch.
    pub since: u64,
}

/// The username a person registers with.
#[derive(Clone, Debug, PartialEq, Eq)]
pub enum PersonalUsernameChoice {
    /// Use a new username.
    Standalone(Username),
    /// Use the username reserved by the linked lite person.
    Reservation(Username),
}

/// Why a statement is not accepted.
#[derive(Clone, Copy, Debug, PartialEq, Eq)]
pub enum InvalidStatementReason {
    /// The account is not associated with a consumer.
    NotConsumer,
    /// The statement is not signed.
    StatementIsNotSigned,
    /// The signature of the statement does not verify.
    InvalidSignature,
}

/// Why the statement store refuses a statement.
#[derive(Clone, Copy, Debug, PartialEq, Eq)]
pub enum InvalidStatement {
    /// The proof of the statement is not accepted.
    BadProof,
}

/// The kind of proof that a statement carries.
#[derive(Clone, Copy, Debug, PartialEq, Eq)]
pub enum StatementProofKind {
    Sr25519,
    Ed25519,
    Secp256k1Ecdsa,
    OnChain,
}

/// The outcome of checking the signature of a statement.
#[derive(Clone, Copy, Debug, PartialEq, Eq)]
pub enum SignatureVerification {
    /// The signature is valid and was made by this account.
    Valid(AccountId),
    /// The signature does not verify.
    Invalid,
    /// There is no signature.
    NoSignature,
}

/// What the pallet reads of a statement: the kind of its proof and the outcome of checking its
/// signature.
#[derive(Clone, Copy, Debug, PartialEq, Eq)]
pub struct StatementAuth {
    pub proof: Option<StatementProofKind>,
    pub signature: SignatureVerification,
}

/// Why a call of the pallet fails.
#[derive(Clone, Copy, Debug, PartialEq, Eq)]
pub enum Error {
    /// Username does not fit the requirements.
    InvalidUsername,
    /// Username is already taken.
    UsernameTaken,
    /// Consumer is already registered.
    AlreadyRegistered,
    /// Provided proof of ownership is invalid.
    InvalidProofOfOwnership,
    /// Person is not registered as a consumer.
    NotRegistered,
    /// Consumer is not a full person.
    NotFullPerson,
    /// Attempted to update person authorization too early.
    TouchNotReady,
    /// Reservation is not active.
    NoReservation,
    /// The reservation was not made by the linked lite person.
    InvalidUsernameSignature,
    /// The username in the reservation request is already taken.
    UsernameReservationTaken,
    /// The reservation has not expired.
    ReservationFresh,
    /// There is no lite consumer to be linked.
    NoLinkedIdentity,
    /// The lite consumer is already linked to a full person consumer.
    AlreadyLinked,
}

/// What the pallet reports.
#[derive(Clone, Copy, Debug, PartialEq, Eq)]
pub enum Event {
    /// A person has registered as a consumer.
    PersonRegistered { alias: Alias, account: AccountId },
    /// A lite person has registered as a consumer.
    LitePersonRegistered { account: AccountId },
}

/// Whether `b` is an ASCII lowercase letter.
pub open spec fn is_lowercase(b: u8) -> bool {
    97 <= b <= 122
}

/// Whether `b` is an ASCII digit.
pub open spec fn is_digit(b: u8) -> bool {
    48 <= b <= 57
}

/// Whether `b` is an ASCII lowercase letter or an ASCII digit.
pub open spec fn is_lowercase_alphanumeric(b: u8) -> bool {
    is_lowercase(b) || is_digit(b)
}

/// A username of a person: at least `min_len` bytes, all lowercase letters or digits.
pub open spec fn valid_person_username(name: Seq<u8>, min_len: u32) -> bool {
    &&& name.len() >= min_len
    &&& forall|i: int| 0 <= i < name.len() ==> is_lowercase_alphanumeric(#[trigger] name[i])
}

/// A username of a lite person: at least `min_len` lowercase letters, a separator, then more than
/// `MIN_LITE_USERNAME_DIGITS - 1` digits.
pub open spec fn valid_lite_username(name: Seq<u8>, min_len: u32) -> bool {
    exists|sep: int|
        {
            &&& 0 <= sep < name.len()
            &&& #[trigger] name[sep] == USERNAME_SEPARATOR
            &&& sep >= min_len
            &&& name.len() - sep > MIN_LITE_USERNAME_DIGITS
            &&& forall|i: int| 0 <= i < sep ==> is_lowercase(#[trigger] name[i])
            &&& forall|i: int| sep < i < name.len() ==> is_digit(#[trigger] name[i])
        }
}

/// Whether a username is valid for a person (`person`) or a lite person.
pub open spec fn valid_username(name: Seq<u8>, person: bool, min_len: u32) -> bool {
    if person {
        valid_person_username(name, min_len)
    } else {
        valid_lite_username(name, min_len)
    }
}

/// Whether a reservation made at `since` has expired at `now`: `now` is later than `since` plus
/// `duration` seconds, a sum that saturates at the largest time, which nothing is later than.
pub open spec fn reservation_expired(now: UnixTime, since: u64, duration: u64) -> bool {
    if since + duration > u64::MAX {
        now.secs == u64::MAX && now.subsec_nanos > 999_999_999
    } else {
        now.secs > since + duration || (now.secs == since + duration && now.subsec_nanos > 0)
    }
}

/// The username of a choice.
pub open spec fn choice_name(choice: PersonalUsernameChoice) -> Username {
    match choice {
        PersonalUsernameChoice::Standalone(n) => n,
        PersonalUsernameChoice::Reservation(n) => n,
    }
}

/// The state of the pallet.
pub struct Resources {
    /// The constants of the pallet.
    config: ResourcesConfig,
    /// Consumers by the account they registered with.
    consumers: Table<AccountId, ConsumerInfo>,
    /// The account that registered each username.
    username_owner_of: Table<Username, AccountId>,
    /// The reservation of each reserved username.
    reserved_usernames: Table<Username, UsernameReservation>,
    /// The account registered with each alias.
    account_of_alias: Table<Alias, AccountId>,
    /// The events deposited so far.
    events: Vec<Event>,
}

impl Resources {
    /// The constants of the pallet.
    pub closed spec fn cfg(&self) -> ResourcesConfig {
        self.config
    }

    /// The events deposited so far, oldest first.
    pub closed spec fn event_log(&self) -> Seq<Event> {
        self.events@
    }

    /// The constants of the pallet.
    pub fn config(&self) -> (c: ResourcesConfig)
        ensures
            c == self.cfg(),
    {
        self.config
    }

    /// The events deposited so far, oldest first.
    pub fn events(&self) -> (e: &Vec<Event>)
        ensures
            e@ == self.event_log(),
    {
        &self.events
    }

    /// Consumers by the view of their account.
    pub closed spec fn consumers(&self) -> Map<Seq<u8>, ConsumerInfo> {
        self.consumers.map()
    }

    /// The owner of each username.
    pub closed spec fn owners(&self) -> Map<Seq<u8>, AccountId> {
        self.username_owner_of.map()
    }

    /// The reservation of each reserved username.
    pub closed spec fn reservations(&self) -> Map<Seq<u8>, UsernameReservation> {
        self.reserved_usernames.map()
    }

    /// The account registered with each alias.
    pub closed spec fn aliases(&self) -> Map<Seq<u8>, AccountId> {
        self.account_of_alias.map()
    }

    /// What every state of the pallet satisfies.
    ///
    /// Every username belongs to a consumer, as their lite or their full username; every consumer
    /// owns their usernames; a username is never both owned and reserved; every alias belongs to
    /// a consumer recognized as a person with that alias; and a consumer is recognized as a
    /// person only once linked with a full username.
    pub closed spec fn wf(&self) -> bool {
        &&& self.consumers.wf()
        &&& self.username_owner_of.wf()
        &&& self.reserved_usernames.wf()
        &&& self.account_of_alias.wf()
        &&& forall|u: Seq<u8>|
            #[trigger] self.owners().dom().contains(u) ==> {
                let a = self.owners()[u]@;
                &&& self.consumers().dom().contains(a)
                &&& (self.consumers()[a].lite_username@ == u || (
                self.consumers()[a].full_username matches Some(f) && f@ == u))
            }
        &&& forall|a: Seq<u8>|
            #[trigger] self.consumers().dom().contains(a) ==> {
                let c = self.consumers()[a];
                &&& self.owners().dom().contains(c.lite_username@)
                &&& self.owners()[c.lite_username@]@ == a
                &&& (c.full_username matches Some(f) ==> self.owners().dom().contains(f@)
                    && self.owners()[f@]@ == a)
                &&& (c.credibility is Person ==> c.full_username is Some)
            }
        &&& forall|u: Seq<u8>|
            #[trigger] self.owners().dom().contains(u) ==> !self.reservations().dom().contains(u)
        &&& forall|al: Seq<u8>|
            #[trigger] self.aliases().dom().contains(al) ==> {
                let a = self.aliases()[al]@;
                &&& self.consumers().dom().contains(a)
                &&& self.consumers()[a].credibility matches Credibility::Person { alias, .. }
                &&& alias@ == al
            }
    }

    /// The pallet with no consumer, username or reservation.
    pub fn new(config: ResourcesConfig) -> (s: Self)
        ensures
            s.wf(),
            s.cfg() == config,
            s.consumers().is_empty(),
            s.owners().is_empty(),
            s.reservations().is_empty(),
            s.aliases().is_empty(),
            s.event_log().len() == 0,
    {
        Resources {
            config,
            consumers: Table::new(),
            username_owner_of: Table::new(),
            reserved_usernames: Table::new(),
            account_of_alias: Table::new(),
            events: Vec::new(),
        }
    }

    /// The information of the consumer registered with `who`, if any.
    pub fn consumer(&self, who: &AccountId) -> (r: Option<&ConsumerInfo>)
        requires
            self.wf(),
        ensures
            r.is_some() == self.consumers().dom().contains(who@),
            r.is_some() ==> *r.unwrap() == self.consumers()[who@],
    {
        self.consumers.get(who)
    }

    /// The account that owns `username`, if any.
    pub fn username_owner(&self, username: &Username) -> (r: Option<AccountId>)
        requires
            self.wf(),
        ensures
            r.is_some() == self.owners().dom().contains(username@),
            r.is_some() ==> r.unwrap() == self.owners()[username@],
    {
        match self.username_owner_of.get(username) {
            Some(a) => Some(*a),
            None => None,
        }
    }

    /// The reservation of `username`, if any.
    pub fn reservation(&self, username: &Username) -> (r: Option<UsernameReservation>)
        requires
            self.wf(),
        ensures
            r.is_some() == self.reservations().dom().contains(username@),
            r.is_some() ==> r.unwrap() == self.reservations()[username@],
    {
        match self.reserved_usernames.get(username) {
            Some(a) => Some(*a),
            None => None,
        }
    }

    /// The account registered with `alias`, if any.
    pub fn alias_account(&self, alias: &Alias) -> (r: Option<AccountId>)
        requires
            self.wf(),
        ensures
            r.is_some() == self.aliases().dom().contains(alias@),
            r.is_some() ==> r.unwrap() == self.aliases()[alias@],
    {
        match self.account_of_alias.get(alias) {
            Some(a) => Some(*a),
            None => None,
        }
    }
}

/// The views of an optional username.
pub open spec fn opt_view(o: Option<Username>) -> Option<Seq<u8>> {
    match o {
        Some(n) => Some(n@),
        None => None,
    }
}

impl Resources {
    /// Why registering `account` as a lite consumer with `username` and the optional reservation
    /// `reserved` is refused, if it is: the checks in the order they are made.
    pub open spec fn lite_registration_error(
        &self,
        account: AccountId,
        username: Seq<u8>,
        reserved: Option<Seq<u8>>,
    ) -> Option<Error> {
        let min = self.cfg().min_username_length;
        if self.consumers().dom().contains(account@) {
            Some(Error::AlreadyRegistered)
        } else if self.owners().dom().contains(username) || self.reservations().dom().contains(
            username,
        ) {
            Some(Error::UsernameTaken)
        } else if username.len() > self.cfg().max_username_length || !valid_lite_username(
            username,
            min,
        ) {
            Some(Error::InvalidUsername)
        } else {
            match reserved {
                None => None,
                Some(r) => if r == username {
                    Some(Error::InvalidUsername)
                } else if self.owners().dom().contains(r) || self.reservations().dom().contains(
                    r,
                ) {
                    Some(Error::UsernameReservationTaken)
                } else if r.len() > self.cfg().max_username_length || !valid_person_username(
                    r,
                    min,
                ) {
                    Some(Error::InvalidUsername)
                } else {
                    None
                },
            }
        }
    }

    /// The state after registering `account` as a lite consumer with `username`, reserving
    /// `reserved_username` at `now`: the consumer is lite, owns the username and holds the
    /// reservation; the registration is reported; nothing else changes.
    pub open spec fn lite_registered(
        &self,
        post: &Self,
        account: AccountId,
        identifier_key: CommunicationIdentifier,
        username: Username,
        reserved_username: Option<Username>,
        now: u64,
    ) -> bool {
        &&& post.consumers() == self.consumers().insert(
            account@,
            ConsumerInfo {
                identifier_key,
                full_username: None,
                lite_username: username,
                credibility: Credibility::Lite,
            },
        )
        &&& post.owners() == self.owners().insert(username@, account)
        &&& post.reservations() == match reserved_username {
            None => self.reservations(),
            Some(rn) => self.reservations().insert(
                rn@,
                UsernameReservation { owner: account, since: now },
            ),
        }
        &&& post.aliases() == self.aliases()
        &&& post.cfg() == self.cfg()
        &&& post.event_log() == self.event_log().push(Event::LitePersonRegistered { account })
    }

    /// Registers `account` as a lite consumer with `username`, reserving `reserved_username` for
    /// a later registration as a person, at `now` seconds since the UNIX epoch.
    ///
    /// Whether `account` is a lite person that consented is for the caller to check.
    pub fn register_lite_consumer_inner(
        &mut self,
        account: AccountId,
        identifier_key: CommunicationIdentifier,
        username: Username,
        reserved_username: Option<Username>,
        now: u64,
    ) -> (r: Result<Vec<SystemEffect>, Error>)
        requires
            old(self).wf(),
        ensures
            final(self).wf(),
            match r {
                Err(e) => old(self).lite_registration_error(
                    account,
                    username@,
                    opt_view(reserved_username),
                ) == Some(e) && *final(self) == *old(self),
                Ok(effects) => {
                    &&& old(self).lite_registration_error(
                        account,
                        username@,
                        opt_view(reserved_username),
                    ) is None
                    &&& effects@ == seq![SystemEffect::IncSufficients(account)]
                    &&& old(self).lite_registered(
                        &*final(self),
                        account,
                        identifier_key,
                        username,
                        reserved_username,
                        now,
                    )
                },
            },
    {
        if self.consumers.contains_key(&account) {
            return Err(Error::AlreadyRegistered);
        }
        if self.username_owner_of.contains_key(&username) || self.reserved_usernames.contains_key(
            &username,
        ) {
            return Err(Error::UsernameTaken);
        }
        if Self::validate_username(&self.config, &username, false).is_err() {
            return Err(Error::InvalidUsername);
        }
        if let Some(reserved) = reserved_username {
            if reserved.same_key(&username) {
                return Err(Error::InvalidUsername);
            }
            if self.username_owner_of.contains_key(&reserved)
                || self.reserved_usernames.contains_key(&reserved) {
                return Err(Error::UsernameReservationTaken);
            }
            if Self::validate_username(&self.config, &reserved, true).is_err() {
                return Err(Error::InvalidUsername);
            }
            self.reserved_usernames.insert(reserved, UsernameReservation { owner: account, since: now });
        }
        let key = username.copy_key();
        self.username_owner_of.insert(key, account);
        self.consumers.insert(
            account,
            ConsumerInfo {
                identifier_key,
                full_username: None,
                lite_username: username,
                credibility: Credibility::Lite,
            },
        );
        self.events.push(Event::LitePersonRegistered { account });
        let mut effects = Vec::new();
        effects.push(SystemEffect::IncSufficients(account));
        proof {
            assert(effects@ =~= seq![SystemEffect::IncSufficients(account)]);
        }
        Ok(effects)
    }
}

/// The alias of a person's origin within the context of this pallet, if it is one.
pub open spec fn person_alias(origin: Origin) -> Option<Alias> {
    match origin {
        Origin::PersonalAlias(ca) => if ca.context == RESOURCES_CONTEXT {
            Some(ca.alias)
        } else {
            None
        },
        _ => None,
    }
}

/// The account of a lite person's origin, if it is one.
pub open spec fn lite_person_account(origin: Origin) -> Option<AccountId> {
    match origin {
        Origin::LitePerson(who) => Some(who),
        _ => None,
    }
}

/// The alias of a person's origin within the context of this pallet.
pub fn ensure_person(origin: Origin) -> (r: Result<Alias, ()>)
    ensures
        r is Ok <==> person_alias(origin) is Some,
        r is Ok ==> r->Ok_0 == person_alias(origin)->Some_0,
{
    ensure_personal_alias_in_context(origin, &RESOURCES_CONTEXT)
}

impl Resources {
    /// Why registering the person with `alias` is refused, if it is: the checks in the order they
    /// are made, `proof_valid` being whether the proof of ownership of `linked` verifies.
    pub open spec fn person_registration_error(
        &self,
        alias: Alias,
        linked: AccountId,
        choice: PersonalUsernameChoice,
        proof_valid: bool,
    ) -> Option<Error> {
        let min = self.cfg().min_username_length;
        if self.aliases().dom().contains(alias@) {
            Some(Error::AlreadyRegistered)
        } else {
            let choice_error = match choice {
                PersonalUsernameChoice::Standalone(u) => if self.owners().dom().contains(u@)
                    || self.reservations().dom().contains(u@) {
                    Some(Error::UsernameTaken)
                } else if u@.len() > self.cfg().max_username_length || !valid_person_username(
                    u@,
                    min,
                ) {
                    Some(Error::InvalidUsername)
                } else {
                    None
                },
                PersonalUsernameChoice::Reservation(r) => if !self.reservations().dom().contains(
                    r@,
                ) {
                    Some(Error::NoReservation)
                } else if self.reservations()[r@].owner != linked {
                    Some(Error::InvalidUsernameSignature)
                } else {
                    None
                },
            };
            if choice_error is Some {
                choice_error
            } else if !proof_valid {
                Some(Error::InvalidProofOfOwnership)
            } else if !self.consumers().dom().contains(linked@) {
                Some(Error::NoLinkedIdentity)
            } else if self.consumers()[linked@].full_username is Some {
                Some(Error::AlreadyLinked)
            } else {
                None
            }
        }
    }

    /// What registering a person does: `old` becomes `new` and `r` is returned when `origin`
    /// links the lite consumer `linked` with `choice` at `now`, the proof of ownership verifying
    /// as `proof_valid` says.
    pub open spec fn person_registration(
        old: Resources,
        new: Resources,
        origin: Origin,
        linked: AccountId,
        choice: PersonalUsernameChoice,
        now: u64,
        proof_valid: bool,
        r: Result<Pays, DispatchError<Error>>,
    ) -> bool {
        match person_alias(origin) {
            None => r == Err::<Pays, DispatchError<Error>>(DispatchError::BadOrigin) && new == old,
            Some(alias) => match old.person_registration_error(alias, linked, choice, proof_valid) {
                Some(e) => r == Err::<Pays, DispatchError<Error>>(DispatchError::Module(e)) && new
                    == old,
                None => {
                    let c = old.consumers()[linked@];
                    &&& r == Ok::<Pays, DispatchError<Error>>(Pays::No)
                    &&& new.consumers() == old.consumers().insert(
                        linked@,
                        ConsumerInfo {
                            identifier_key: c.identifier_key,
                            full_username: Some(choice_name(choice)),
                            lite_username: c.lite_username,
                            credibility: Credibility::Person { alias, last_update: now },
                        },
                    )
                    &&& new.owners() == old.owners().insert(choice_name(choice)@, linked)
                    &&& new.aliases() == old.aliases().insert(alias@, linked)
                    &&& new.reservations() == match choice {
                        PersonalUsernameChoice::Standalone(_) => old.reservations(),
                        PersonalUsernameChoice::Reservation(rn) => old.reservations().remove(rn@),
                    }
                    &&& new.cfg() == old.cfg()
                    &&& new.event_log() == old.event_log().push(
                        Event::PersonRegistered { alias, account: linked },
                    )
                },
            },
        }
    }

    /// Registers the person of `origin` as a consumer by upgrading the lite consumer `linked`,
    /// with the username of `username_choice`, at `now` seconds since the UNIX epoch;
    /// `proof_valid` is whether the proof of ownership of `linked` verifies.
    pub fn register_person_checked(
        &mut self,
        origin: Origin,
        linked: AccountId,
        proof_valid: bool,
        username_choice: PersonalUsernameChoice,
        now: u64,
    ) -> (r: Result<Pays, DispatchError<Error>>)
        requires
            old(self).wf(),
        ensures
            final(self).wf(),
            Self::person_registration(
                *old(self),
                *final(self),
                origin,
                linked,
                username_choice,
                now,
                proof_valid,
                r,
            ),
    {
        let alias = match ensure_person(origin) {
            Ok(a) => a,
            Err(_) => return Err(DispatchError::BadOrigin),
        };
        if self.account_of_alias.contains_key(&alias) {
            return Err(DispatchError::Module(Error::AlreadyRegistered));
        }
        match &username_choice {
            PersonalUsernameChoice::Standalone(u) => {
                if self.username_owner_of.contains_key(u) || self.reserved_usernames.contains_key(
                    u,
                ) {
                    return Err(DispatchError::Module(Error::UsernameTaken));
                }
                if Self::validate_username(&self.config, u, true).is_err() {
                    return Err(DispatchError::Module(Error::InvalidUsername));
                }
            },
            PersonalUsernameChoice::Reservation(rn) => {
                match self.reserved_usernames.get(rn) {
                    None => return Err(DispatchError::Module(Error::NoReservation)),
                    Some(reservation) => {
                        if !arrays_equal(&reservation.owner, &linked) {
                            return Err(DispatchError::Module(Error::InvalidUsernameSignature));
                        }
                    },
                }
            },
        }
        if !proof_valid {
            return Err(DispatchError::Module(Error::InvalidProofOfOwnership));
        }
        match self.consumers.get(&linked) {
            None => return Err(DispatchError::Module(Error::NoLinkedIdentity)),
            Some(info) => {
                if info.full_username.is_some() {
                    return Err(DispatchError::Module(Error::AlreadyLinked));
                }
            },
        }
        let username = match username_choice {
            PersonalUsernameChoice::Standalone(u) => u,
            PersonalUsernameChoice::Reservation(rn) => {
                let _ = self.reserved_usernames.remove(&rn);
                rn
            },
        };
        let info = self.consumers.remove(&linked).unwrap();
        let key = username.copy_key();
        let updated = ConsumerInfo {
            identifier_key: info.identifier_key,
            full_username: Some(username),
            lite_username: info.lite_username,
            credibility: Credibility::Person { alias, last_update: now },
        };
        self.username_owner_of.insert(key, linked);
        self.account_of_alias.insert(alias, linked);
        self.consumers.insert(linked, updated);
        self.events.push(Event::PersonRegistered { alias, account: linked });
        proof {
            let ghost o = *old(self);
            assert(person_alias(origin) == Some(alias));
            assert(o.person_registration_error(alias, linked, username_choice, proof_valid) is None);
            assert(self.owners() == o.owners().insert(choice_name(username_choice)@, linked));
            assert(self.aliases() == o.aliases().insert(alias@, linked));
            assert(self.cfg() == o.cfg());
            assert(self.reservations() == match username_choice {
                PersonalUsernameChoice::Standalone(_) => o.reservations(),
                PersonalUsernameChoice::Reservation(rn) => o.reservations().remove(rn@),
            });
            let c = o.consumers()[linked@];
            assert(info == c);
            assert(self.consumers() == o.consumers().insert(
                linked@,
                ConsumerInfo {
                    identifier_key: c.identifier_key,
                    full_username: Some(choice_name(username_choice)),
                    lite_username: c.lite_username,
                    credibility: Credibility::Person { alias, last_update: now },
                },
            ));
            assert(self.event_log() == o.event_log().push(Event::PersonRegistered { alias, account: linked }));
        }
        Ok(Pays::No)
    }

    /// Registers the person of `origin` as a consumer by upgrading the lite consumer `linked`,
    /// whose account signed the person's alias with `lite_identity_proof`.
    ///
    /// The proof is checked with the runtime's signature scheme, of which nothing is assumed:
    /// the outcome is that of [`Self::register_person_checked`] for its answer on the alias
    /// bytes and the linked account.
    pub fn register_person<S: Verify>(
        &mut self,
        origin: Origin,
        linked: AccountId,
        lite_identity_proof: &S,
        username_choice: PersonalUsernameChoice,
        now: u64,
    ) -> (r: Result<Pays, DispatchError<Error>>)
        requires
            old(self).wf(),
        ensures
            final(self).wf(),
            exists|proof_valid: bool|
                Self::person_registration(
                    *old(self),
                    *final(self),
                    origin,
                    linked,
                    username_choice,
                    now,
                    proof_valid,
                    r,
                ) && (person_alias(origin) matches Some(alias) ==> exists|m: &[u8]|
                    m@ == alias@ && #[trigger] call_ensures(
                        S::verify,
                        (lite_identity_proof, m, &linked),
                        proof_valid,
                    )),
    {
        let proof_valid = match ensure_person(origin) {
            Ok(alias) => {
                let signed: &[u8] = alias.as_slice();
                let v = lite_identity_proof.verify(signed, &linked);
                proof {
                    assert(call_ensures(S::verify, (lite_identity_proof, signed, &linked), v));
                }
                v
            },
            Err(_) => false,
        };
        self.register_person_checked(origin, linked, proof_valid, username_choice, now)
    }
}

/// `a + b`, saturating at the largest `u64`.
pub open spec fn saturating_add_u64(a: u64, b: u64) -> int {
    if a + b > u64::MAX {
        u64::MAX as int
    } else {
        a + b
    }
}

/// Where a statement comes from.
#[derive(Clone, Copy, Debug, PartialEq, Eq)]
pub enum StatementSource {
    /// Statement is coming from the on-chain worker.
    Chain,
    /// Statement has been received from the gossip network.
    Network,
    /// Statement has been submitted over the local RPC.
    Local,
}

/// The account a statement is attributed to, or why it is not attributed to any.
pub open spec fn statement_account(auth: StatementAuth, verified: Option<AccountId>) -> Result<
    AccountId,
    InvalidStatementReason,
> {
    match verified {
        Some(a) => Ok(a),
        None => match auth.proof {
            None => Err(InvalidStatementReason::StatementIsNotSigned),
            Some(StatementProofKind::OnChain) => Err(InvalidStatementReason::StatementIsNotSigned),
            Some(_) => match auth.signature {
                SignatureVerification::Valid(a) => Ok(a),
                _ => Err(InvalidStatementReason::InvalidSignature),
            },
        },
    }
}

impl Resources {
    /// Updates the authorization of the person of `origin` at `now`, at least
    /// `min_person_auth_update_interval` seconds after the last update.
    pub fn touch_person_authorization(&mut self, origin: Origin, now: u64) -> (r: Result<
        Pays,
        DispatchError<Error>,
    >)
        requires
            old(self).wf(),
        ensures
            final(self).wf(),
            match person_alias(origin) {
                None => r == Err::<Pays, DispatchError<Error>>(DispatchError::BadOrigin) && *final(self) == *old(self),
                Some(alias) => {
                    let o = *old(self);
                    let account = o.aliases()[alias@];
                    let c = o.consumers()[account@];
                    if !o.aliases().dom().contains(alias@) || !o.consumers().dom().contains(
                        account@,
                    ) {
                        r == Err::<Pays, DispatchError<Error>>(
                            DispatchError::Module(Error::NotRegistered),
                        ) && *final(self) == o
                    } else {
                        match c.credibility {
                            Credibility::Lite => r == Err::<Pays, DispatchError<Error>>(
                                DispatchError::Module(Error::NotFullPerson),
                            ) && *final(self) == o,
                            Credibility::Person { last_update, .. } => if now < last_update
                                || now - last_update < o.cfg().min_person_auth_update_interval {
                                r == Err::<Pays, DispatchError<Error>>(
                                    DispatchError::Module(Error::TouchNotReady),
                                ) && *final(self) == o
                            } else {
                                &&& r == Ok::<Pays, DispatchError<Error>>(Pays::No)
                                &&& final(self).consumers() == o.consumers().insert(
                                    account@,
                                    ConsumerInfo {
                                        credibility: Credibility::Person {
                                            alias,
                                            last_update: now,
                                        },
                                        ..c
                                    },
                                )
                                &&& final(self).owners() == o.owners()
                                &&& final(self).reservations() == o.reservations()
                                &&& final(self).aliases() == o.aliases()
                                &&& final(self).cfg() == o.cfg()
                                &&& final(self).event_log() == o.event_log()
                            },
                        }
                    }
                },
            },
    {
        let alias = match ensure_person(origin) {
            Ok(a) => a,
            Err(_) => return Err(DispatchError::BadOrigin),
        };
        let account = match self.account_of_alias.get(&alias) {
            Some(a) => *a,
            None => return Err(DispatchError::Module(Error::NotRegistered)),
        };
        let last_update = match self.consumers.get(&account) {
            None => return Err(DispatchError::Module(Error::NotRegistered)),
            Some(info) => match info.credibility {
                Credibility::Person { last_update, .. } => last_update,
                Credibility::Lite => return Err(DispatchError::Module(Error::NotFullPerson)),
            },
        };
        if now < last_update || now - last_update < self.config.min_person_auth_update_interval as u64 {
            return Err(DispatchError::Module(Error::TouchNotReady));
        }
        let info = self.consumers.remove(&account).unwrap();
        let updated = ConsumerInfo {
            credibility: Credibility::Person { alias, last_update: now },
            ..info
        };
        self.consumers.insert(account, updated);
        Ok(Pays::No)
    }

    /// Removes the reservation of `username` once it has expired at `now`; the origin must be a
    /// lite person.
    pub fn remove_expired_username_reservation(
        &mut self,
        origin: Origin,
        username: &Username,
        now: UnixTime,
    ) -> (r: Result<Pays, DispatchError<Error>>)
        requires
            old(self).wf(),
            now.subsec_nanos < 1_000_000_000,
        ensures
            final(self).wf(),
            lite_person_account(origin) is None ==> r == Err::<Pays, DispatchError<Error>>(
                DispatchError::BadOrigin,
            ) && *final(self) == *old(self),
            lite_person_account(origin) is Some && !old(self).reservations().dom().contains(
                username@,
            ) ==> r == Err::<Pays, DispatchError<Error>>(DispatchError::Module(Error::NoReservation))
                && *final(self) == *old(self),
            lite_person_account(origin) is Some && old(self).reservations().dom().contains(
                username@,
            ) ==> {
                let since = old(self).reservations()[username@].since;
                if reservation_expired(now, since, old(self).cfg().username_reservation_duration) {
                    &&& r == Ok::<Pays, DispatchError<Error>>(Pays::No)
                    &&& final(self).reservations() == old(self).reservations().remove(username@)
                    &&& final(self).consumers() == old(self).consumers()
                    &&& final(self).owners() == old(self).owners()
                    &&& final(self).aliases() == old(self).aliases()
                    &&& final(self).cfg() == old(self).cfg()
                    &&& final(self).event_log() == old(self).event_log()
                } else {
                    r == Err::<Pays, DispatchError<Error>>(
                        DispatchError::Module(Error::ReservationFresh),
                    ) && *final(self) == *old(self)
                }
            },
    {
        if ensure_lite_person(origin).is_err() {
            return Err(DispatchError::BadOrigin);
        }
        let since = match self.reserved_usernames.get(username) {
            None => return Err(DispatchError::Module(Error::NoReservation)),
            Some(reservation) => reservation.since,
        };
        let (limit_secs, limit_nanos): (u64, u32) = match since.checked_add(
            self.config.username_reservation_duration,
        ) {
            Some(t) => (t, 0),
            None => (u64::MAX, 999_999_999),
        };
        let expired = now.secs > limit_secs || (now.secs == limit_secs && now.subsec_nanos
            > limit_nanos);
        if !expired {
            return Err(DispatchError::Module(Error::ReservationFresh));
        }
        let _ = self.reserved_usernames.remove(username);
        Ok(Pays::No)
    }

    /// Sets the communication identifier key of the consumer registered with the signer of
    /// `origin`.
    pub fn update_identifier_key(
        &mut self,
        origin: Origin,
        identifier_key: CommunicationIdentifier,
    ) -> (r: Result<(), DispatchError<Error>>)
        requires
            old(self).wf(),
        ensures
            final(self).wf(),
            match origin {
                Origin::Signed(who) => if old(self).consumers().dom().contains(who@) {
                    &&& r is Ok
                    &&& final(self).consumers() == old(self).consumers().insert(
                        who@,
                        ConsumerInfo { identifier_key, ..old(self).consumers()[who@] },
                    )
                    &&& final(self).owners() == old(self).owners()
                    &&& final(self).reservations() == old(self).reservations()
                    &&& final(self).aliases() == old(self).aliases()
                    &&& final(self).cfg() == old(self).cfg()
                    &&& final(self).event_log() == old(self).event_log()
                } else {
                    r == Err::<(), DispatchError<Error>>(DispatchError::Module(Error::NotRegistered))
                        && *final(self) == *old(self)
                },
                _ => r == Err::<(), DispatchError<Error>>(DispatchError::BadOrigin) && *final(self)
                    == *old(self),
            },
    {
        let who = match ensure_signed(origin) {
            Ok(w) => w,
            Err(_) => return Err(DispatchError::BadOrigin),
        };
        if !self.consumers.contains_key(&who) {
            return Err(DispatchError::Module(Error::NotRegistered));
        }
        let info = self.consumers.remove(&who).unwrap();
        self.consumers.insert(who, ConsumerInfo { identifier_key, ..info });
        Ok(())
    }

    /// Registers the lite person of `origin` as a consumer with `username`, reserving
    /// `reserved_username` for a later registration as a person, at `now` seconds since the
    /// UNIX epoch. The call is free.
    pub fn register_lite_person(
        &mut self,
        origin: Origin,
        identifier_key: CommunicationIdentifier,
        username: Username,
        reserved_username: Option<Username>,
        now: u64,
    ) -> (r: Result<(Pays, Vec<SystemEffect>), DispatchError<Error>>)
        requires
            old(self).wf(),
        ensures
            final(self).wf(),
            match lite_person_account(origin) {
                None => r == Err::<(Pays, Vec<SystemEffect>), DispatchError<Error>>(
                    DispatchError::BadOrigin,
                ) && *final(self) == *old(self),
                Some(account) => match old(self).lite_registration_error(
                    account,
                    username@,
                    opt_view(reserved_username),
                ) {
                    Some(e) => r == Err::<(Pays, Vec<SystemEffect>), DispatchError<Error>>(
                        DispatchError::Module(e),
                    ) && *final(self) == *old(self),
                    None => {
                        &&& r is Ok
                        &&& r->Ok_0.0 == Pays::No
                        &&& r->Ok_0.1@ == seq![SystemEffect::IncSufficients(account)]
                        &&& old(self).lite_registered(
                            &*final(self),
                            account,
                            identifier_key,
                            username,
                            reserved_username,
                            now,
                        )
                    },
                },
            },
    {
        let account = match ensure_lite_person(origin) {
            Ok(a) => a,
            Err(_) => return Err(DispatchError::BadOrigin),
        };
        match self.register_lite_consumer_inner(
            account,
            identifier_key,
            username,
            reserved_username,
            now,
        ) {
            Ok(effects) => Ok((Pays::No, effects)),
            Err(e) => Err(DispatchError::Module(e)),
        }
    }

    /// The statement store allowance of the consumer a statement is attributed to: the account
    /// `maybe_verified_account` when given, else the signer of the statement.
    pub fn validate_statement_with_reason_and_account(
        &self,
        source: StatementSource,
        statement: StatementAuth,
        maybe_verified_account: Option<AccountId>,
    ) -> (r: Result<ValidStatement, InvalidStatementReason>)
        requires
            self.wf(),
        ensures
            r == match statement_account(statement, maybe_verified_account) {
                Err(e) => Err(e),
                Ok(a) => if self.consumers().dom().contains(a@) {
                    Ok(self.cfg().lite_person_statement_limit)
                } else {
                    Err(InvalidStatementReason::NotConsumer)
                },
            },
    {
        let account = match maybe_verified_account {
            Some(a) => a,
            None => {
                let signed = match statement.proof {
                    Some(StatementProofKind::Ed25519) => true,
                    Some(StatementProofKind::Sr25519) => true,
                    Some(StatementProofKind::Secp256k1Ecdsa) => true,
                    Some(StatementProofKind::OnChain) => false,
                    None => false,
                };
                if !signed {
                    return Err(InvalidStatementReason::StatementIsNotSigned);
                }
                match statement.signature {
                    SignatureVerification::Valid(a) => a,
                    _ => return Err(InvalidStatementReason::InvalidSignature),
                }
            },
        };
        if !self.consumers.contains_key(&account) {
            return Err(InvalidStatementReason::NotConsumer);
        }
        Ok(self.config.lite_person_statement_limit)
    }

    /// The statement store allowance of the consumer that signed a statement: every consumer has
    /// the same allowance, and statements of anyone else are refused.
    pub fn validate_statement(&self, source: StatementSource, statement: StatementAuth) -> (r: Result<
        ValidStatement,
        InvalidStatement,
    >)
        requires
            self.wf(),
        ensures
            r == match statement_account(statement, None) {
                Err(_) => Err(InvalidStatement::BadProof),
                Ok(a) => if self.consumers().dom().contains(a@) {
                    Ok(self.cfg().lite_person_statement_limit)
                } else {
                    Err(InvalidStatement::BadProof)
                },
            },
    {
        match self.validate_statement_with_reason_and_account(source, statement, None) {
            Ok(limit) => Ok(limit),
            Err(_) => Err(InvalidStatement::BadProof),
        }
    }
}

impl Resources {
    /// Checks that a username is valid for a person (`person`) or for a lite person.
    ///
    /// A username is at most `max_username_length` bytes long. A person's username is at least
    /// `min_username_length` lowercase letters or digits. A lite person's username is at least
    /// `min_username_length` lowercase letters, a `.`, then at least `MIN_LITE_USERNAME_DIGITS`
    /// digits.
    pub fn validate_username(config: &ResourcesConfig, username: &Username, person: bool) -> (r: Result<
        (),
        Error,
    >)
        ensures
            r is Ok <==> username@.len() <= config.max_username_length && valid_username(
                username@,
                person,
                config.min_username_length,
            ),
            r is Err ==> r == Err::<(), Error>(Error::InvalidUsername),
    {
        let min = config.min_username_length;
        let n = username.len();
        if (n as u64) > (config.max_username_length as u64) {
            return Err(Error::InvalidUsername);
        }
        if person {
            if (n as u64) < (min as u64) {
                return Err(Error::InvalidUsername);
            }
            let mut i: usize = 0;
            while i < n
                invariant
                    person,
                    min == config.min_username_length,
                    n == username@.len(),
                    i <= n,
                    forall|j: int| 0 <= j < i ==> is_lowercase_alphanumeric(#[trigger] username@[j]),
                decreases n - i,
            {
                let b = username[i];
                if !((b >= 97 && b <= 122) || (b >= 48 && b <= 57)) {
                    assert(b == username@[i as int]);
                    assert(!is_lowercase_alphanumeric(username@[i as int]));
                    assert(!valid_person_username(username@, min));
                    return Err(Error::InvalidUsername);
                }
                i = i + 1;
            }
            Ok(())
        } else {
            let mut sep: usize = 0;
            while sep < n && username[sep] != USERNAME_SEPARATOR
                invariant
                    n == username@.len(),
                    sep <= n,
                    forall|j: int| 0 <= j < sep ==> #[trigger] username@[j] != USERNAME_SEPARATOR,
                decreases n - sep,
            {
                sep = sep + 1;
            }
            if sep == n {
                proof {
                    if valid_lite_username(username@, min) {
                        let s = choose|s: int|
                            {
                                &&& 0 <= s < username@.len()
                                &&& #[trigger] username@[s] == USERNAME_SEPARATOR
                                &&& s >= min
                                &&& username@.len() - s > MIN_LITE_USERNAME_DIGITS
                                &&& forall|i: int| 0 <= i < s ==> is_lowercase(#[trigger] username@[i])
                                &&& forall|i: int|
                                    s < i < username@.len() ==> is_digit(#[trigger] username@[i])
                            };
                        assert(username@[s] != USERNAME_SEPARATOR);
                    }
                }
                return Err(Error::InvalidUsername);
            }
            let ghost first = sep as int;
            proof {
                // Any separator that makes the username valid is the first one.
                if valid_lite_username(username@, min) {
                    let s = choose|s: int|
                        {
                            &&& 0 <= s < username@.len()
                            &&& #[trigger] username@[s] == USERNAME_SEPARATOR
                            &&& s >= min
                            &&& username@.len() - s > MIN_LITE_USERNAME_DIGITS
                            &&& forall|i: int| 0 <= i < s ==> is_lowercase(#[trigger] username@[i])
                            &&& forall|i: int|
                                s < i < username@.len() ==> is_digit(#[trigger] username@[i])
                        };
                    if s > first {
                        assert(is_lowercase(username@[first]));
                    }
                    assert(s == first);
                }
            }
            let mut ok = (sep as u64) >= (min as u64) && n - sep > MIN_LITE_USERNAME_DIGITS;
            let mut i: usize = 0;
            while i < sep
                invariant
                    n == username@.len(),
                    sep < n,
                    i <= sep,
                    ok ==> forall|j: int| 0 <= j < i ==> is_lowercase(#[trigger] username@[j]),
                    ok ==> sep >= min && n - sep > MIN_LITE_USERNAME_DIGITS,
                    !ok ==> !valid_lite_username(username@, min),
                    username@[sep as int] == USERNAME_SEPARATOR,
                    sep == first,
                    valid_lite_username(username@, min) ==> (sep >= min && n - sep
                        > MIN_LITE_USERNAME_DIGITS && (forall|j: int|
                        0 <= j < sep ==> is_lowercase(#[trigger] username@[j])) && (forall|j: int|
                        sep < j < n ==> is_digit(#[trigger] username@[j]))),
                decreases sep - i,
            {
                let b = username[i];
                if !(b >= 97 && b <= 122) {
                    ok = false;
                }
                i = i + 1;
            }
            let mut k: usize = sep + 1;
            while k < n
                invariant
                    n == username@.len(),
                    sep < k <= n,
                    ok ==> forall|j: int| sep < j < k ==> is_digit(#[trigger] username@[j]),
                    ok ==> forall|j: int| 0 <= j < sep ==> is_lowercase(#[trigger] username@[j]),
                    ok ==> sep >= min && n - sep > MIN_LITE_USERNAME_DIGITS,
                    !ok ==> !valid_lite_username(username@, min),
                    username@[sep as int] == USERNAME_SEPARATOR,
                    sep == first,
                    valid_lite_username(username@, min) ==> (forall|j: int|
                        sep < j < n ==> is_digit(#[trigger] username@[j])),
                decreases n - k,
            {
                let b = username[k];
                if !(b >= 48 && b <= 57) {
                    ok = false;
                }
                k = k + 1;
            }
            if ok {
                Ok(())
            } else {
                Err(Error::InvalidUsername)
            }
        }
    }
}

/// The usernames that point to the consumer registered with `owner`.
pub open spec fn usernames_of(s: Resources, owner: Seq<u8>) -> Set<Seq<u8>> {
    Set::new(|u: Seq<u8>| s.owners().dom().contains(u) && s.owners()[u]@ == owner)
}

/// At most two usernames point to a consumer: the username of their lite identity, which
/// always does, and the username of their full identity, if they have one.
pub proof fn law_at_most_two_usernames(s: Resources, owner: AccountId)
    requires
        s.wf(),
        s.consumers().dom().contains(owner@),
    ensures
        usernames_of(s, owner@).contains(s.consumers()[owner@].lite_username@),
        s.consumers()[owner@].full_username matches Some(f) ==> usernames_of(s, owner@).contains(
            f@,
        ),
        forall|u: Seq<u8>|
            #[trigger] usernames_of(s, owner@).contains(u) ==> u
                == s.consumers()[owner@].lite_username@ || (
            s.consumers()[owner@].full_username matches Some(f) && u == f@),
        usernames_of(s, owner@).finite(),
        usernames_of(s, owner@).len() <= 2,
{
    let c = s.consumers()[owner@];
    let names = usernames_of(s, owner@);
    let both = match c.full_username {
        Some(f) => set![c.lite_username@, f@],
        None => set![c.lite_username@],
    };
    assert forall|u: Seq<u8>| #[trigger] names.contains(u) implies both.contains(u) by {
        assert(s.owners().dom().contains(u));
    }
    assert(names.subset_of(both));
    assert(both.len() <= 2) by {
        match c.full_username {
            Some(f) => {
                assert(set![c.lite_username@].insert(f@) == both);
            },
            None => {},
        }
    }
    vstd::set_lib::lemma_len_subset(names, both);
}

/// A username, and a username reserved with it, belong to one consumer only: once a lite
/// consumer registered with them, every registration asking for either is refused, and the
/// consumer cannot register again.
pub proof fn law_registered_usernames_are_taken(
    s0: Resources,
    s1: Resources,
    account: AccountId,
    identifier_key: CommunicationIdentifier,
    username: Username,
    reserved_username: Option<Username>,
    now: u64,
    other: AccountId,
    other_reserved: Option<Seq<u8>>,
)
    requires
        s0.wf(),
        s0.lite_registered(&s1, account, identifier_key, username, reserved_username, now),
    ensures
        s1.lite_registration_error(other, username@, other_reserved) is Some,
        s1.lite_registration_error(account, username@, other_reserved) == Some(
            Error::AlreadyRegistered,
        ),
        reserved_username matches Some(rn) ==> s1.lite_registration_error(
            other,
            rn@,
            other_reserved,
        ) is Some,
{
}

/// In every state, every username belongs to a consumer, as their lite or their full
/// username; a username is never both owned and reserved; and every alias belongs to a consumer
/// recognized as a person with that alias.
pub proof fn law_usernames_and_aliases_belong_to_consumers(s: Resources, u: Seq<u8>, al: Seq<u8>)
    requires
        s.wf(),
    ensures
        s.owners().dom().contains(u) ==> {
            let a = s.owners()[u]@;
            &&& s.consumers().dom().contains(a)
            &&& (s.consumers()[a].lite_username@ == u || (
            s.consumers()[a].full_username matches Some(f) && f@ == u))
        },
        s.owners().dom().contains(u) ==> !s.reservations().dom().contains(u),
        s.aliases().dom().contains(al) ==> {
            let a = s.aliases()[al]@;
            &&& s.consumers().dom().contains(a)
            &&& s.consumers()[a].credibility matches Credibility::Person { alias, .. }
            &&& alias@ == al
        },
{
}

} // verus!
