//! Identifiers and traits that model people and their personhood.
use vstd::prelude::*;

use crate::table::{bytes_equal, TableKey};

verus! {

/// Identity of personhood: a persistent identifier for every individual.
///
/// Regardless of what else the individual changes within the system this does not change, so it
/// should never be used in application code.
pub type PersonalId = u64;

/// Identifier for a specific application in which we may wish to track individual people.
pub type Context = [u8; 32];

/// Identifier for a specific individual within an application context.
pub type Alias = [u8; 32];

/// The type used to identify different rings.
pub type RingIndex = u32;

/// The ring index 0.
pub const RI_ZERO: RingIndex = 0;

/// Identifier used for communication among people, usually a public key allowing for symmetric
/// key generation.
pub type CommunicationIdentifier = [u8; 65];

/// An alias together with the context in which it is valid.
#[derive(Clone, Copy, Debug, PartialEq, Eq)]
pub struct ContextualAlias {
    pub alias: Alias,
    pub context: Context,
}

impl View for ContextualAlias {
    type V = (Seq<u8>, Seq<u8>);

    open spec fn view(&self) -> (Seq<u8>, Seq<u8>) {
        (self.alias@, self.context@)
    }
}

impl TableKey for ContextualAlias {
    fn same_key(&self, other: &Self) -> (b: bool) {
        bytes_equal(self.alias.as_slice(), other.alias.as_slice()) && bytes_equal(
            self.context.as_slice(),
            other.context.as_slice(),
        )
    }

    fn copy_key(&self) -> (c: Self) {
        *self
    }
}

/// Two byte arrays with the same view are the same array.
pub proof fn lemma_array_view_eq<const N: usize>(a: [u8; N], b: [u8; N])
    requires
        a@ == b@,
    ensures
        a == b,
{
    assert(a =~= b) by {
        assert forall|i: int| 0 <= i < N implies a[i] == b[i] by {
            assert(a@[i] == b@[i]);
        }
    }
}

/// Whether two byte arrays are equal.
pub fn arrays_equal<const N: usize>(a: &[u8; N], b: &[u8; N]) -> (r: bool)
    ensures
        r == (*a == *b),
{
    let r = bytes_equal(a.as_slice(), b.as_slice());
    proof {
        if r {
            lemma_array_view_eq(*a, *b);
        }
    }
    r
}

/// Returns the ring that follows `index`, saturating at the largest index.
pub fn next_ring_index(index: RingIndex) -> (r: RingIndex)
    ensures
        r == if index == u32::MAX { index as int } else { index + 1 },
{
    index.saturating_add(1)
}

/// Why a request about personhood was refused.
#[derive(Clone, Copy, Debug, PartialEq, Eq)]
pub enum PeopleError {
    /// The personal id cannot be used for this request.
    InvalidPersonalId,
    /// No key was provided.
    NoKey,
    /// The key is already in use by another person.
    KeyAlreadyInUse,
    /// The person is already recognized with this key.
    SameKey,
    /// Too many members have been pushed into a ring.
    TooManyMembers,
    /// No mutation session is ongoing, or one cannot be started.
    NoMutationSession,
}

/// Recognizes people and hands out personal ids.
///
/// A personal id goes through multiple states: free, reserved, used; a used personal id can belong
/// to a recognized person or a suspended person.
pub trait AddOnlyPeopleTrait {
    /// The key of a member.
    type Member;

    /// Reserves a new id for a future person.
    fn reserve_new_id(&mut self) -> PersonalId;

    /// Renews a reservation for a personal id that was reserved in the past.
    fn renew_id_reservation(&mut self, personal_id: PersonalId) -> Result<(), PeopleError>;

    /// Cancels the reservation for a personal id.
    fn cancel_id_reservation(&mut self, personal_id: PersonalId) -> Result<(), PeopleError>;

    /// Recognizes a person, with a key when the person is new.
    fn recognize_personhood(
        &mut self,
        who: PersonalId,
        maybe_key: Option<Self::Member>,
    ) -> Result<(), PeopleError>;
}

/// Recognizes and suspends people.
pub trait PeopleTrait: AddOnlyPeopleTrait {
    /// Suspends a set of people within a mutation session.
    fn suspend_personhood(&mut self, suspensions: &[PersonalId]) -> Result<(), PeopleError>;

    /// Whether a mutation session can be started.
    fn can_start_people_set_mutation_session(&self) -> bool;

    /// Starts a mutation session for setting people.
    fn start_people_set_mutation_session(&mut self) -> Result<(), PeopleError>;

    /// Ends a mutation session for setting people.
    fn end_people_set_mutation_session(&mut self) -> Result<(), PeopleError>;
}

/// The set of people in which nobody is ever recognized: every request succeeds and nothing is
/// kept.
impl AddOnlyPeopleTrait for () {
    type Member = ();

    fn reserve_new_id(&mut self) -> (id: PersonalId)
        ensures
            id == 0,
    {
        0
    }

    fn renew_id_reservation(&mut self, personal_id: PersonalId) -> (r: Result<(), PeopleError>)
        ensures
            r is Ok,
    {
        Ok(())
    }

    fn cancel_id_reservation(&mut self, personal_id: PersonalId) -> (r: Result<(), PeopleError>)
        ensures
            r is Ok,
    {
        Ok(())
    }

    fn recognize_personhood(&mut self, who: PersonalId, maybe_key: Option<()>) -> (r: Result<
        (),
        PeopleError,
    >)
        ensures
            r is Ok,
    {
        Ok(())
    }
}

impl PeopleTrait for () {
    fn suspend_personhood(&mut self, suspensions: &[PersonalId]) -> (r: Result<(), PeopleError>)
        ensures
            r is Ok,
    {
        Ok(())
    }

    fn can_start_people_set_mutation_session(&self) -> (b: bool)
        ensures
            b,
    {
        true
    }

    fn start_people_set_mutation_session(&mut self) -> (r: Result<(), PeopleError>)
        ensures
            r is Ok,
    {
        Ok(())
    }

    fn end_people_set_mutation_session(&mut self) -> (r: Result<(), PeopleError>)
        ensures
            r is Ok,
    {
        Ok(())
    }
}

/// The number of active members in a set.
pub trait CountedMembers {
    /// Returns the number of active members in the set.
    fn active_count(&self) -> u32;
}

} // verus!
