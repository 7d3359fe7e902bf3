//! People: the keys of recognized people gathered into rings, the ring roots built from them,
//! and the accounts that people hold under their aliases.
use vstd::prelude::*;

use crate::reality::{arrays_equal, next_ring_index, Alias, Context, ContextualAlias, PersonalId, RingIndex};
use crate::runtime::{
    actual_weight_of, ensure_root, ensure_signed, extract_actual_weight, weight_sum, AccountId,
    DispatchError, DispatchInfo, Origin, Pays, SystemEffect, Weight,
};
use crate::table::{Table, TableKey};

pub mod extension;

verus! {

/// The key of a ring member.
pub type Member = [u8; 32];

/// The revision of a ring root.
pub type RevisionIndex = u32;

/// The index of a page of chunks.
pub type PageIndex = u32;

/// The number of chunks that the ring crypto reads by index.
pub const CHUNK_COUNT: usize = 512;

/// The ring crypto the runtime chooses: it builds ring roots from members, checks proofs of
/// membership and signatures of members. Nothing is assumed of its answers.
pub trait RingCrypto {
    /// A built ring: the root of a set of members.
    type Members;
    /// A ring being built.
    type Intermediate: Clone;
    /// Precomputed data read while members are pushed.
    type StaticChunk;
    /// A signature of a member.
    type Signature;
    /// A proof of membership.
    type Proof;

    /// Begins building a ring.
    fn start_members() -> Self::Intermediate;

    /// The ring being built with `member` pushed into it, reading chunks from `chunks`, or
    /// nothing when the member cannot be pushed.
    fn push_member(
        intermediate: Self::Intermediate,
        member: Member,
        chunks: &ChunkStore<Self::StaticChunk>,
    ) -> Option<Self::Intermediate>;

    /// The root of the ring built so far.
    fn finish_members(intermediate: &Self::Intermediate) -> Self::Members;

    /// The alias in `context` of the member whose proof `proof` of membership in `members`
    /// signs `msg`, if the proof is valid.
    fn validate(
        proof: &Self::Proof,
        members: &Self::Members,
        context: &[u8],
        msg: &[u8],
    ) -> Option<Alias>;

    /// Whether `signature` is a valid signature of `msg` by `member`.
    fn verify_signature(signature: &Self::Signature, msg: &[u8], member: &Member) -> bool;
}

/// The constants the pallet is configured with.
#[derive(Clone, Debug, PartialEq, Eq)]
pub struct PeopleConfig {
    /// Number of chunks per page.
    pub chunk_page_size: u32,
    /// Maximum number of people included in a ring before a new one is created.
    pub max_ring_size: u32,
    /// Number of people queued before they are built into a ring.
    pub onboarding_size: u32,
    /// Contexts in which everyone may hold an account under their alias.
    pub account_contexts: Vec<Context>,
}

/// Whether the constants are usable: pages and rings hold at least one element, and the
/// onboarding size is between one and the ring size.
pub open spec fn config_ok(config: PeopleConfig) -> bool {
    &&& config.chunk_page_size > 0
    &&& config.max_ring_size > 0
    &&& config.onboarding_size > 0
    &&& config.onboarding_size <= config.max_ring_size
}

/// Checks the constants of the pallet, as the runtime does once at start.
pub fn integrity_test(config: &PeopleConfig) -> (ok: bool)
    ensures
        ok == config_ok(*config),
{
    config.chunk_page_size > 0 && config.max_ring_size > 0 && config.onboarding_size > 0
        && config.onboarding_size <= config.max_ring_size
}

/// Whether everyone may hold an account under their alias in `context`.
pub fn account_context_allowed(config: &PeopleConfig, context: &Context) -> (b: bool)
    ensures
        b == config.account_contexts@.contains(*context),
{
    let mut i: usize = 0;
    while i < config.account_contexts.len()
        invariant
            i <= config.account_contexts@.len(),
            forall|j: int| 0 <= j < i ==> config.account_contexts@[j] != *context,
        decreases config.account_contexts@.len() - i,
    {
        if arrays_equal(&config.account_contexts[i], context) {
            return true;
        }
        i = i + 1;
    }
    false
}

/// A built ring.
pub struct RingRoot<M, I> {
    /// The root of the ring.
    pub root: M,
    /// The revision of the ring.
    pub revision: RevisionIndex,
    /// The ring as built so far, to push more members later.
    pub intermediate: I,
}

/// The keys of a ring and how many of them are built into its root.
#[derive(Clone, Debug, PartialEq, Eq)]
pub struct KeysForRing {
    pub keys: Vec<Member>,
    pub included: u32,
}

/// The number of keys in a ring and how many of them are built into its root.
#[derive(Clone, Copy, Debug, PartialEq, Eq)]
pub struct RingStatus {
    pub total: u32,
    pub included: u32,
}

/// Where a person stands with respect to the rings.
#[derive(Clone, Copy, Debug, PartialEq, Eq)]
pub enum RingPosition {
    /// In the onboarding queue, at this page.
    Onboarding { queue_page: PageIndex },
    /// In a ring, at this position.
    Included { ring_index: RingIndex, ring_position: u32 },
    /// Suspended: in no ring and no queue.
    Suspended,
}

impl RingPosition {
    /// Whether the person is suspended.
    pub fn suspended(&self) -> (b: bool)
        ensures
            b == (*self is Suspended),
    {
        match self {
            RingPosition::Suspended => true,
            _ => false,
        }
    }

    /// The ring of the person, if included in one.
    pub fn ring_index(&self) -> (r: Option<RingIndex>)
        ensures
            r == match *self {
                RingPosition::Included { ring_index, .. } => Some(ring_index),
                _ => None,
            },
    {
        match self {
            RingPosition::Included { ring_index, .. } => Some(*ring_index),
            _ => None,
        }
    }
}

/// What is kept of a person: their key and where it stands, the ring and its position counted
/// from one.
#[derive(Clone, Copy, Debug, PartialEq, Eq)]
pub struct PersonRecord {
    pub key: Member,
    pub ring_index: RingIndex,
    pub key_index: u32,
}

/// Why a call of the pallet fails.
#[derive(Clone, Copy, Debug, PartialEq, Eq)]
pub enum Error {
    /// The supplied identifier does not represent a person.
    NotPerson,
    /// The given person has no associated key.
    NoKey,
    /// The context is not a member of those allowed to have account aliases held.
    InvalidContext,
    /// The account is not known.
    InvalidAccount,
    /// The account is already in use under another alias.
    AccountInUse,
    /// The proof is invalid.
    InvalidProof,
    /// The signature is invalid.
    InvalidSignature,
    /// There are not yet any members of our personhood set.
    NoMembers,
    /// The root cannot be finalized as there are still unpushed members.
    Incomplete,
    /// The root is still fresh.
    StillFresh,
    /// Too many members have been pushed.
    TooManyMembers,
    /// Key already in use by another person.
    KeyAlreadyInUse,
    /// The old key was not found when expected.
    KeyNotFound,
    /// Could not push member into the ring.
    CouldNotPush,
    /// The record is already using this key.
    SameKey,
    /// The personal id is used by a person already recognized.
    AlreadyRecognized,
    /// The personal id is not reserved.
    PersonalIdNotReserved,
    /// The personal id was never reserved, or is used by a recognized person.
    PersonalIdReservationCannotRenew,
}

/// What the pallet reports.
#[derive(Clone, Copy, Debug, PartialEq, Eq)]
pub enum Event {
    /// An individual has had their personhood recognised and indexed.
    PersonhoodRecognized { who: PersonalId, key: Member },
    /// An individual has had their personhood resumed.
    PersonhoodResumed { who: PersonalId, key: Member },
}

/// Whether `pages` holds `chunks` cut in pages of `page_size` chunks, the last one holding what
/// is left, each page at its index, and the pages of `before` at the other indices.
pub open spec fn chunks_in_pages<C>(
    pages: Map<u32, Vec<C>>,
    before: Map<u32, Vec<C>>,
    chunks: Seq<C>,
    page_size: int,
) -> bool {
    &&& forall|p: u32|
        #![trigger pages.dom().contains(p)]
        (p as int) * page_size < chunks.len() ==> pages.dom().contains(p) && pages[p]@
            == chunks.subrange(
            (p as int) * page_size,
            if (p as int + 1) * page_size < chunks.len() {
                (p as int + 1) * page_size
            } else {
                chunks.len() as int
            },
        )
    &&& forall|p: u32|
        #![trigger pages.dom().contains(p)]
        (p as int) * page_size >= chunks.len() ==> (pages.dom().contains(p) == before.dom().contains(
            p,
        )) && (before.dom().contains(p) ==> pages[p] == before[p])
}

/// The pages of chunks that the ring crypto reads by index.
pub struct ChunkStore<C> {
    page_size: u32,
    pages: Table<u32, Vec<C>>,
}

impl<C> ChunkStore<C> {
    /// The number of chunks per page.
    pub closed spec fn page_size(&self) -> u32 {
        self.page_size
    }

    /// The pages, by index.
    pub closed spec fn pages(&self) -> Map<u32, Vec<C>> {
        self.pages.map()
    }

    /// The internal invariant.
    pub closed spec fn wf(&self) -> bool {
        self.pages.wf()
    }

    /// No pages, of `page_size` chunks each.
    pub fn new(page_size: u32) -> (s: Self)
        ensures
            s.wf(),
            s.page_size() == page_size,
            s.pages().is_empty(),
    {
        let s = ChunkStore { page_size, pages: Table::new() };
        
        s
    }

    /// The chunk at index `chunk_idx`: the chunk at the remainder of the index within the page
    /// at the quotient of the index, taken as a `u32`, by the page size.
    pub fn lookup(&self, chunk_idx: usize) -> (r: Option<&C>)
        requires
            self.wf(),
            self.page_size() > 0,
        ensures
            ({
                let page = ((chunk_idx as u32) / self.page_size()) as u32;
                let at = chunk_idx % (self.page_size() as usize);
                match r {
                    Some(c) => self.pages().dom().contains(page) && at < self.pages()[page]@.len()
                        && *c == self.pages()[page]@[at as int],
                    None => !self.pages().dom().contains(page) || at >= self.pages()[page]@.len(),
                }
            }),
    {
        let page_size = self.page_size;
        let page = (chunk_idx as u32) / page_size;
        let at = chunk_idx % (page_size as usize);
        match self.pages.get(&page) {
            Some(chunks) => {
                if at < chunks.len() {
                    Some(&chunks[at])
                } else {
                    None
                }
            },
            None => None,
        }
    }

    /// Stores `chunks` in pages of `page_size` chunks, the last one holding what is left.
    pub fn fill(&mut self, chunks: Vec<C>)
        requires
            old(self).wf(),
            old(self).page_size() > 0,
            chunks@.len() < u32::MAX,
        ensures
            final(self).wf(),
            final(self).page_size() == old(self).page_size(),
            chunks_in_pages(
                final(self).pages(),
                old(self).pages(),
                chunks@,
                old(self).page_size() as int,
            ),
    {
        let size = self.page_size as usize;
        let ghost all = chunks@;
        let ghost n = chunks@.len() as int;
        let ghost sz = size as int;
        let mut rest = chunks;
        let mut page_idx: u32 = 0;
        let mut start: usize = 0;
        while rest.len() > 0
            invariant
                self.wf(),
                self.page_size() == old(self).page_size(),
                sz == self.page_size() as int,
                sz > 0,
                size == sz,
                n == all.len(),
                n < u32::MAX,
                rest@.len() > 0 ==> start == (page_idx as int) * sz,
                start <= (page_idx as int) * sz,
                page_idx > 0 ==> ((page_idx - 1) as int) * sz < n,
                start <= n,
                rest@ == all.subrange(start as int, n),
                forall|p: u32|
                    #![trigger self.pages().dom().contains(p)]
                    p < page_idx ==> self.pages().dom().contains(p) && self.pages()[p]@
                        == all.subrange(
                        (p as int) * sz,
                        if (p as int + 1) * sz < n {
                            (p as int + 1) * sz
                        } else {
                            n
                        },
                    ),
                forall|p: u32|
                    #![trigger self.pages().dom().contains(p)]
                    p >= page_idx ==> (self.pages().dom().contains(p) == old(self).pages().dom().contains(p)) && (old(self).pages().dom().contains(p)
                        ==> self.pages()[p] == old(self).pages()[p]),
            decreases rest@.len(),
        {
            let take = if size < rest.len() {
                size
            } else {
                rest.len()
            };
            let tail = rest.split_off(take);
            let ghost page_content = rest@;
            let ghost end = if (page_idx as int + 1) * sz < n {
                (page_idx as int + 1) * sz
            } else {
                n
            };
            proof {
                assert((page_idx as int + 1) * sz == (page_idx as int) * sz + sz) by (
                nonlinear_arith);
                assert(end == start + take);
                assert(page_content =~= all.subrange(start as int, end));
                assert(page_idx < u32::MAX) by (nonlinear_arith)
                    requires
                        (page_idx as int) * sz < n,
                        n < u32::MAX,
                        sz > 0,
                ;
            }
            let ghost before = self.pages();
            let ghost page_vec = rest;
            self.pages.insert(page_idx, rest);
            proof {
                assert(self.pages() == before.insert(page_idx, page_vec));
            }
            rest = tail;
            start = start + take;
            proof {
                assert(rest@ =~= all.subrange(start as int, n));
                assert(((page_idx + 1 - 1) as int) * sz < n);
                assert forall|p: u32|
                    #![trigger self.pages().dom().contains(p)]
                    p < page_idx + 1 implies self.pages().dom().contains(p) && self.pages()[p]@
                        == all.subrange(
                        (p as int) * sz,
                        if (p as int + 1) * sz < n {
                            (p as int + 1) * sz
                        } else {
                            n
                        },
                    ) by {
                    if p == page_idx {
                        assert(self.pages()[p]@ == page_content);
                    } else {
                        assert(before.dom().contains(p));
                        assert(self.pages()[p] == before[p]);
                    }
                }
            }
            page_idx = page_idx + 1;
        }
        proof {
            assert(start == n);
            assert(n <= (page_idx as int) * sz);
            assert forall|p: u32|
                #![trigger self.pages().dom().contains(p)]
                (p as int) * (old(self).page_size() as int) < all.len() implies self.pages().dom().contains(p)
                    && self.pages()[p]@ == all.subrange(
                    (p as int) * (old(self).page_size() as int),
                    if (p as int + 1) * (old(self).page_size() as int) < all.len() {
                        (p as int + 1) * (old(self).page_size() as int)
                    } else {
                        all.len() as int
                    },
                ) by {
                if p >= page_idx {
                    assert((p as int) * sz >= (page_idx as int) * sz) by (nonlinear_arith)
                        requires
                            p >= page_idx,
                            sz > 0,
                    ;
                }
            }
            assert forall|p: u32|
                #![trigger self.pages().dom().contains(p)]
                (p as int) * (old(self).page_size() as int) >= all.len() implies (
                self.pages().dom().contains(p) == old(self).pages().dom().contains(p)) && (old(self).pages().dom().contains(p) ==> self.pages()[p] == old(self).pages()[p]) by {
                if p < page_idx {
                    assert((p as int) * sz <= ((page_idx - 1) as int) * sz) by (nonlinear_arith)
                        requires
                            p < page_idx,
                            sz > 0,
                    ;
                }
            }
        }
    }
}

/// The identity of a person's origin.
pub fn ensure_personal_identity(origin: Origin) -> (r: Result<PersonalId, ()>)
    ensures
        r == match origin {
            Origin::PersonalIdentity(id) => Ok::<PersonalId, ()>(id),
            _ => Err(()),
        },
{
    match origin {
        Origin::PersonalIdentity(id) => Ok(id),
        _ => Err(()),
    }
}

/// The contextual alias of a person's origin.
pub fn ensure_personal_alias(origin: Origin) -> (r: Result<ContextualAlias, ()>)
    ensures
        r == match origin {
            Origin::PersonalAlias(ca) => Ok::<ContextualAlias, ()>(ca),
            _ => Err(()),
        },
{
    match origin {
        Origin::PersonalAlias(ca) => Ok(ca),
        _ => Err(()),
    }
}

/// The alias of a person's origin within `context`.
pub fn ensure_personal_alias_in_context(origin: Origin, context: &Context) -> (r: Result<Alias, ()>)
    ensures
        r == match origin {
            Origin::PersonalAlias(ca) => if ca.context == *context {
                Ok::<Alias, ()>(ca.alias)
            } else {
                Err(())
            },
            _ => Err(()),
        },
{
    match origin {
        Origin::PersonalAlias(ca) => {
            if arrays_equal(&ca.context, context) {
                Ok(ca.alias)
            } else {
                Err(())
            }
        },
        _ => Err(()),
    }
}

/// Guard that lets through the origins of people, giving their identity.
pub struct EnsurePersonalIdentity;

impl EnsurePersonalIdentity {
    /// The identity of a person's origin, or the origin back.
    pub fn try_origin(o: Origin) -> (r: Result<PersonalId, Origin>)
        ensures
            r == match o {
                Origin::PersonalIdentity(id) => Ok::<PersonalId, Origin>(id),
                _ => Err(o),
            },
    {
        match ensure_personal_identity(o) {
            Ok(id) => Ok(id),
            Err(_) => Err(o),
        }
    }
}

/// Guard that lets through the origins of people's aliases, giving the contextual alias.
pub struct EnsurePersonalAlias;

impl EnsurePersonalAlias {
    /// The contextual alias of a person's origin, or the origin back.
    pub fn try_origin(o: Origin) -> (r: Result<ContextualAlias, Origin>)
        ensures
            r == match o {
                Origin::PersonalAlias(ca) => Ok::<ContextualAlias, Origin>(ca),
                _ => Err(o),
            },
    {
        match ensure_personal_alias(o) {
            Ok(ca) => Ok(ca),
            Err(_) => Err(o),
        }
    }
}

/// Guard that lets through the origins of people's aliases within a given context, giving the
/// alias.
pub struct EnsurePersonalAliasInContext;

impl EnsurePersonalAliasInContext {
    /// The alias of a person's origin within `context`, or the origin back.
    pub fn try_origin(o: Origin, context: &Context) -> (r: Result<Alias, Origin>)
        ensures
            r == match o {
                Origin::PersonalAlias(ca) => if ca.context == *context {
                    Ok::<Alias, Origin>(ca.alias)
                } else {
                    Err(o)
                },
                _ => Err(o),
            },
    {
        match ensure_personal_alias_in_context(o, context) {
            Ok(a) => Ok(a),
            Err(_) => Err(o),
        }
    }
}

/// `index + 1`, saturating at the largest ring index.
pub open spec fn next_ring(index: RingIndex) -> RingIndex {
    if index == u32::MAX {
        index
    } else {
        (index + 1) as u32
    }
}

/// Whether the accounts held under aliases and the aliases of accounts are inverse of each
/// other.
pub open spec fn alias_bijection(
    accounts: Map<(Seq<u8>, Seq<u8>), AccountId>,
    aliases: Map<Seq<u8>, ContextualAlias>,
) -> bool {
    &&& forall|ca: (Seq<u8>, Seq<u8>)|
        #[trigger] accounts.dom().contains(ca) ==> {
            let a = accounts[ca];
            &&& aliases.dom().contains(a@)
            &&& aliases[a@]@ == ca
        }
    &&& forall|a: Seq<u8>|
        #[trigger] aliases.dom().contains(a) ==> {
            let ca = aliases[a];
            &&& accounts.dom().contains(ca@)
            &&& accounts[ca@]@ == a
        }
}

/// Holding a fresh account under an alias, and releasing the account held there before, keeps
/// the two maps inverse of each other.
proof fn lemma_bijection_rebind(
    accounts: Map<(Seq<u8>, Seq<u8>), AccountId>,
    aliases: Map<Seq<u8>, ContextualAlias>,
    ca: ContextualAlias,
    account: AccountId,
)
    requires
        alias_bijection(accounts, aliases),
        !aliases.dom().contains(account@),
    ensures
        alias_bijection(
            accounts.insert(ca@, account),
            if accounts.dom().contains(ca@) {
                aliases.remove(accounts[ca@]@).insert(account@, ca)
            } else {
                aliases.insert(account@, ca)
            },
        ),
{
    let had = accounts.dom().contains(ca@);
    let accounts2 = accounts.insert(ca@, account);
    let aliases2 = if had {
        aliases.remove(accounts[ca@]@).insert(account@, ca)
    } else {
        aliases.insert(account@, ca)
    };
    assert forall|c: (Seq<u8>, Seq<u8>)| #[trigger] accounts2.dom().contains(c) implies {
        let a = accounts2[c];
        &&& aliases2.dom().contains(a@)
        &&& aliases2[a@]@ == c
    } by {
        if c != ca@ {
            let a = accounts[c];
            assert(aliases.dom().contains(a@));
            assert(a@ != account@);
            if had {
                assert(aliases[accounts[ca@]@]@ == ca@);
                assert(a@ != accounts[ca@]@);
            }
        }
    }
    assert forall|a: Seq<u8>| #[trigger] aliases2.dom().contains(a) implies {
        let c = aliases2[a];
        &&& accounts2.dom().contains(c@)
        &&& accounts2[c@]@ == a
    } by {
        if a != account@ {
            let c = aliases[a];
            assert(accounts.dom().contains(c@));
            if c@ == ca@ {
                assert(had);
                assert(accounts[ca@]@ == a);
            }
        }
    }
}

/// Releasing an account from its alias keeps the two maps inverse of each other.
proof fn lemma_bijection_release(
    accounts: Map<(Seq<u8>, Seq<u8>), AccountId>,
    aliases: Map<Seq<u8>, ContextualAlias>,
    account: Seq<u8>,
)
    requires
        alias_bijection(accounts, aliases),
        aliases.dom().contains(account),
    ensures
        alias_bijection(accounts.remove(aliases[account]@), aliases.remove(account)),
{
    let c0 = aliases[account]@;
    let accounts2 = accounts.remove(c0);
    let aliases2 = aliases.remove(account);
    assert forall|c: (Seq<u8>, Seq<u8>)| #[trigger] accounts2.dom().contains(c) implies {
        let a = accounts2[c];
        &&& aliases2.dom().contains(a@)
        &&& aliases2[a@]@ == c
    } by {
        let a = accounts[c];
        assert(aliases.dom().contains(a@));
    }
    assert forall|a: Seq<u8>| #[trigger] aliases2.dom().contains(a) implies {
        let c = aliases2[a];
        &&& accounts2.dom().contains(c@)
        &&& accounts2[c@]@ == a
    } by {
        let c = aliases[a];
        assert(accounts.dom().contains(c@));
    }
}

/// Whether `states` are what the ring crypto gives when pushing `keys` one after the other,
/// reading `chunks`, starting from `states[0]`: each push accepted, giving the next state.
pub open spec fn pushed_in_order<C: RingCrypto>(
    states: Seq<C::Intermediate>,
    keys: Seq<Member>,
    chunks: ChunkStore<C::StaticChunk>,
) -> bool {
    &&& states.len() == keys.len() + 1
    &&& forall|j: int|
        0 <= j < keys.len() ==> #[trigger] call_ensures(
            C::push_member,
            (states[j], keys[j], &chunks),
            Some(states[j + 1]),
        )
}

/// The state of the pallet, with the ring crypto `C`.
pub struct People<C: RingCrypto> {
    /// The constants of the pallet.
    config: PeopleConfig,
    /// The built rings, by index.
    root: Table<u32, RingRoot<C::Members, C::Intermediate>>,
    /// The ring being filled.
    current_ring_index: u32,
    /// The keys of each ring.
    ring_keys: Table<u32, KeysForRing>,
    /// The number of keys and of included keys of each ring.
    ring_keys_meta: Table<u32, (u32, u32)>,
    /// The person each key belongs to.
    keys: Table<Member, PersonalId>,
    /// The record of each person.
    people: Table<PersonalId, PersonRecord>,
    /// The account held under each contextual alias.
    alias_to_account: Table<ContextualAlias, AccountId>,
    /// The contextual alias each account is held under.
    account_to_alias: Table<AccountId, ContextualAlias>,
    /// The chunks that the ring crypto reads.
    chunks: ChunkStore<C::StaticChunk>,
    /// The events deposited so far.
    events: Vec<Event>,
    /// The personal ids reserved for people not yet recognized.
    reserved: Table<PersonalId, ()>,
    /// The personal ids reserved at least once.
    reserved_before: Table<PersonalId, ()>,
    /// The least personal id never handed out.
    next_personal_id: PersonalId,
}

impl<C: RingCrypto> People<C> {
    /// The constants of the pallet.
    pub closed spec fn cfg(&self) -> PeopleConfig {
        self.config
    }

    /// The ring being filled.
    pub closed spec fn current(&self) -> u32 {
        self.current_ring_index
    }

    /// The built rings, by index.
    pub closed spec fn roots(&self) -> Map<u32, RingRoot<C::Members, C::Intermediate>> {
        self.root.map()
    }

    /// The keys of a ring, none when the ring was never filled.
    pub closed spec fn keys_of(&self, r: u32) -> Seq<Member> {
        if self.ring_keys.map().dom().contains(r) {
            self.ring_keys.map()[r].keys@
        } else {
            Seq::empty()
        }
    }

    /// How many keys of a ring are built into its root.
    pub closed spec fn included_of(&self, r: u32) -> u32 {
        if self.ring_keys.map().dom().contains(r) {
            self.ring_keys.map()[r].included
        } else {
            0
        }
    }

    /// The recorded number of keys and of included keys of a ring.
    pub closed spec fn meta_of(&self, r: u32) -> (u32, u32) {
        if self.ring_keys_meta.map().dom().contains(r) {
            self.ring_keys_meta.map()[r]
        } else {
            (0, 0)
        }
    }

    /// The person of each key, by the key's view.
    pub closed spec fn key_owners(&self) -> Map<Seq<u8>, PersonalId> {
        self.keys.map()
    }

    /// The record of each person.
    pub closed spec fn records(&self) -> Map<PersonalId, PersonRecord> {
        self.people.map()
    }

    /// The account held under each contextual alias.
    pub closed spec fn alias_accounts(&self) -> Map<(Seq<u8>, Seq<u8>), AccountId> {
        self.alias_to_account.map()
    }

    /// The contextual alias each account is held under.
    pub closed spec fn account_aliases(&self) -> Map<Seq<u8>, ContextualAlias> {
        self.account_to_alias.map()
    }

    /// The chunks.
    pub closed spec fn chunk_store(&self) -> ChunkStore<C::StaticChunk> {
        self.chunks
    }

    /// The events deposited so far, oldest first.
    pub closed spec fn event_log(&self) -> Seq<Event> {
        self.events@
    }

    /// The personal ids reserved for people not yet recognized.
    pub closed spec fn reserved_ids(&self) -> Set<PersonalId> {
        self.reserved.map().dom()
    }

    /// The personal ids reserved at least once.
    pub closed spec fn ever_reserved_ids(&self) -> Set<PersonalId> {
        self.reserved_before.map().dom()
    }

    /// The least personal id that a new reservation can hand out: no id from it on was reserved
    /// before, and none is recognized unless it is the largest id.
    pub closed spec fn next_id(&self) -> PersonalId {
        self.next_personal_id
    }

    /// Where the next key goes: the ring being filled, or the one after it if it is full.
    pub open spec fn insert_target(&self) -> u32 {
        if self.keys_of(self.current()).len() >= self.cfg().max_ring_size {
            next_ring(self.current())
        } else {
            self.current()
        }
    }

    /// What every state of the pallet satisfies.
    ///
    /// The constants are usable; rings hold at most `max_ring_size` keys and include at most the
    /// keys they hold, and the recorded numbers of keys and of included keys of each ring are
    /// those; the ring being filled is not full, unless it is the last ring, and no
    /// ring after it holds a key; each person's key belongs to them and sits in their ring at
    /// their position; every key belongs to a person; and the accounts held under aliases and
    /// the aliases of accounts are inverse of each other.
    pub closed spec fn wf(&self) -> bool {
        &&& config_ok(self.config)
        &&& self.root.wf()
        &&& self.ring_keys.wf()
        &&& self.ring_keys_meta.wf()
        &&& self.keys.wf()
        &&& self.people.wf()
        &&& self.alias_to_account.wf()
        &&& self.account_to_alias.wf()
        &&& self.chunks.wf()
        &&& self.chunks.page_size() == self.config.chunk_page_size
        &&& forall|r: u32|
            #![trigger self.keys_of(r)]
            #![trigger self.meta_of(r)]
            self.keys_of(r).len() <= self.config.max_ring_size && self.included_of(r)
                <= self.keys_of(r).len() && self.meta_of(r) == (
                self.keys_of(r).len() as u32,
                self.included_of(r),
            )
        &&& (self.current() < u32::MAX ==> self.keys_of(self.current()).len()
            < self.config.max_ring_size)
        &&& forall|r: u32| #![trigger self.keys_of(r)] r > self.current() ==> self.keys_of(r).len() == 0
        &&& forall|who: PersonalId|
            #[trigger] self.records().dom().contains(who) ==> {
                let rec = self.records()[who];
                &&& self.key_owners().dom().contains(rec.key@)
                &&& self.key_owners()[rec.key@] == who
                &&& 1 <= rec.key_index <= self.keys_of(rec.ring_index).len()
                &&& self.keys_of(rec.ring_index)[rec.key_index - 1] == rec.key
            }
        &&& forall|k: Seq<u8>|
            #[trigger] self.key_owners().dom().contains(k) ==> self.records().dom().contains(
                self.key_owners()[k],
            )
        &&& alias_bijection(self.alias_accounts(), self.account_aliases())
        &&& self.reserved.wf()
        &&& self.reserved_before.wf()
        &&& forall|who: PersonalId|
            #[trigger] self.reserved_ids().contains(who) ==> self.ever_reserved_ids().contains(who)
                && !self.records().dom().contains(who)
        &&& forall|who: PersonalId|
            #[trigger] self.ever_reserved_ids().contains(who) ==> who < self.next_id()
        &&& forall|who: PersonalId|
            #[trigger] self.records().dom().contains(who) ==> who < self.next_id()
                || self.next_id() == u64::MAX
    }

    /// The pallet with the constants `config` and nothing else.
    pub fn new(config: PeopleConfig) -> (s: Self)
        requires
            config_ok(config),
        ensures
            s.wf(),
            s.cfg() == config,
            s.current() == 0,
            s.roots().is_empty(),
            forall|r: u32|
                #![trigger s.keys_of(r)]
                #![trigger s.included_of(r)]
                s.keys_of(r).len() == 0 && s.included_of(r) == 0,
            s.key_owners().is_empty(),
            s.records().is_empty(),
            s.alias_accounts().is_empty(),
            s.account_aliases().is_empty(),
            s.chunk_store().pages().is_empty(),
            s.event_log().len() == 0,
            s.reserved_ids().is_empty(),
            s.ever_reserved_ids().is_empty(),
            s.next_id() == 0,
    {
        let page_size = config.chunk_page_size;
        People {
            config,
            root: Table::new(),
            current_ring_index: 0,
            ring_keys: Table::new(),
            ring_keys_meta: Table::new(),
            keys: Table::new(),
            people: Table::new(),
            alias_to_account: Table::new(),
            account_to_alias: Table::new(),
            chunks: ChunkStore::new(page_size),
            events: Vec::new(),
            reserved: Table::new(),
            reserved_before: Table::new(),
            next_personal_id: 0,
        }
    }

    /// The events deposited so far, oldest first.
    pub fn events(&self) -> (e: &Vec<Event>)
        ensures
            e@ == self.event_log(),
    {
        &self.events
    }

    /// The ring being filled.
    pub fn current_ring_index(&self) -> (r: u32)
        ensures
            r == self.current(),
    {
        self.current_ring_index
    }

    /// The record of the person `who`, if any.
    pub fn person(&self, who: PersonalId) -> (r: Option<PersonRecord>)
        requires
            self.wf(),
        ensures
            r.is_some() == self.records().dom().contains(who),
            r.is_some() ==> r.unwrap() == self.records()[who],
    {
        match self.people.get(&who) {
            Some(rec) => Some(*rec),
            None => None,
        }
    }

    /// The person the key `key` belongs to, if any.
    pub fn key_owner(&self, key: &Member) -> (r: Option<PersonalId>)
        requires
            self.wf(),
        ensures
            r.is_some() == self.key_owners().dom().contains(key@),
            r.is_some() ==> r.unwrap() == self.key_owners()[key@],
    {
        match self.keys.get(key) {
            Some(p) => Some(*p),
            None => None,
        }
    }

    /// The number of keys of ring `r` and how many are included in its root.
    pub fn ring_status(&self, r: RingIndex) -> (s: RingStatus)
        requires
            self.wf(),
        ensures
            s.total == self.keys_of(r).len(),
            s.included == self.included_of(r),
    {
        match self.ring_keys.get(&r) {
            Some(k) => RingStatus { total: k.keys.len() as u32, included: k.included },
            None => RingStatus { total: 0, included: 0 },
        }
    }

    /// The recorded number of keys and of included keys of ring `r`.
    pub fn ring_keys_meta(&self, r: RingIndex) -> (m: (u32, u32))
        requires
            self.wf(),
        ensures
            m == self.meta_of(r),
    {
        match self.ring_keys_meta.get(&r) {
            Some(m) => *m,
            None => (0, 0),
        }
    }

    /// The revision of the root of ring `r`, if it was built.
    pub fn root_revision(&self, r: RingIndex) -> (v: Option<RevisionIndex>)
        requires
            self.wf(),
        ensures
            v.is_some() == self.roots().dom().contains(r),
            v.is_some() ==> v.unwrap() == self.roots()[r].revision,
    {
        match self.root.get(&r) {
            Some(root) => Some(root.revision),
            None => None,
        }
    }

    /// The chunks the ring crypto reads.
    pub fn chunks(&self) -> (c: &ChunkStore<C::StaticChunk>)
        ensures
            *c == self.chunk_store(),
    {
        &self.chunks
    }

    /// The root of ring `r`, if it was built.
    pub fn ring_root(&self, r: RingIndex) -> (m: Option<&C::Members>)
        requires
            self.wf(),
        ensures
            m.is_some() == self.roots().dom().contains(r),
            m.is_some() ==> *m.unwrap() == self.roots()[r].root,
    {
        match self.root.get(&r) {
            Some(root) => Some(&root.root),
            None => None,
        }
    }

    /// The account held under the contextual alias `ca`, if any.
    pub fn alias_account(&self, ca: &ContextualAlias) -> (r: Option<AccountId>)
        requires
            self.wf(),
        ensures
            r.is_some() == self.alias_accounts().dom().contains(ca@),
            r.is_some() ==> r.unwrap() == self.alias_accounts()[ca@],
    {
        match self.alias_to_account.get(ca) {
            Some(a) => Some(*a),
            None => None,
        }
    }

    /// The contextual alias the account `account` is held under, if any.
    pub fn account_alias(&self, account: &AccountId) -> (r: Option<ContextualAlias>)
        requires
            self.wf(),
        ensures
            r.is_some() == self.account_aliases().dom().contains(account@),
            r.is_some() ==> r.unwrap() == self.account_aliases()[account@],
    {
        match self.account_to_alias.get(account) {
            Some(a) => Some(*a),
            None => None,
        }
    }
}

/// The contextual alias of a person's origin, if it is one.
pub open spec fn origin_alias(origin: Origin) -> Option<ContextualAlias> {
    match origin {
        Origin::PersonalAlias(ca) => Some(ca),
        _ => None,
    }
}

impl<C: RingCrypto> People<C> {
    /// The state after holding `account` under the contextual alias `ca`: the account is held
    /// under it, in place of the account held before, if any, which is released; nothing else
    /// changes.
    pub open spec fn alias_account_set(&self, post: &Self, ca: ContextualAlias, account: AccountId) -> bool {
        let had = self.alias_accounts().dom().contains(ca@);
        let old_account = self.alias_accounts()[ca@];
        &&& post.alias_accounts() == self.alias_accounts().insert(ca@, account)
        &&& post.account_aliases() == if had {
            self.account_aliases().remove(old_account@).insert(account@, ca)
        } else {
            self.account_aliases().insert(account@, ca)
        }
        &&& post.records() == self.records()
        &&& post.key_owners() == self.key_owners()
        &&& post.roots() == self.roots()
        &&& post.current() == self.current()
        &&& post.cfg() == self.cfg()
        &&& post.event_log() == self.event_log()
        &&& post.chunk_store() == self.chunk_store()
        &&& forall|i: u32| #[trigger] post.keys_of(i) == self.keys_of(i) && post.included_of(i)
            == self.included_of(i)
    }

    /// The state after releasing `account` from the alias it is held under: neither maps to
    /// the other any more; nothing else changes.
    pub open spec fn alias_account_unset(&self, post: &Self, account: AccountId) -> bool {
        &&& post.account_aliases() == self.account_aliases().remove(account@)
        &&& post.alias_accounts() == self.alias_accounts().remove(
            self.account_aliases()[account@]@,
        )
        &&& post.records() == self.records()
        &&& post.key_owners() == self.key_owners()
        &&& post.roots() == self.roots()
        &&& post.current() == self.current()
        &&& post.cfg() == self.cfg()
        &&& post.event_log() == self.event_log()
        &&& post.chunk_store() == self.chunk_store()
        &&& forall|i: u32| #[trigger] post.keys_of(i) == self.keys_of(i) && post.included_of(i)
            == self.included_of(i)
    }

    /// Where a call of `origin` under its alias goes: the contextual alias the signing account
    /// is held under, free, or why not.
    pub open spec fn under_alias_outcome(&self, origin: Origin) -> Result<
        (Origin, Pays),
        DispatchError<Error>,
    > {
        match origin {
            Origin::Signed(account) => if self.account_aliases().dom().contains(account@) {
                Ok((Origin::PersonalAlias(self.account_aliases()[account@]), Pays::No))
            } else {
                Err(DispatchError::Module(Error::InvalidAccount))
            },
            _ => Err(DispatchError::BadOrigin),
        }
    }
}

impl<C: RingCrypto> People<C> {
    /// Holds `account` under the contextual alias of `origin`, releasing the account held
    /// before, if any. The call is free when no account was held before.
    pub fn set_alias_account(&mut self, origin: Origin, account: AccountId) -> (r: Result<
        (Pays, Vec<SystemEffect>),
        DispatchError<Error>,
    >)
        requires
            old(self).wf(),
        ensures
            final(self).wf(),
            match origin_alias(origin) {
                None => r == Err::<(Pays, Vec<SystemEffect>), DispatchError<Error>>(
                    DispatchError::BadOrigin,
                ) && *final(self) == *old(self),
                Some(ca) => if !old(self).cfg().account_contexts@.contains(ca.context) {
                    r == Err::<(Pays, Vec<SystemEffect>), DispatchError<Error>>(
                        DispatchError::Module(Error::InvalidContext),
                    ) && *final(self) == *old(self)
                } else if old(self).account_aliases().dom().contains(account@) {
                    r == Err::<(Pays, Vec<SystemEffect>), DispatchError<Error>>(
                        DispatchError::Module(Error::AccountInUse),
                    ) && *final(self) == *old(self)
                } else {
                    let had = old(self).alias_accounts().dom().contains(ca@);
                    let old_account = old(self).alias_accounts()[ca@];
                    &&& r is Ok
                    &&& r->Ok_0.0 == if had {
                        Pays::Yes
                    } else {
                        Pays::No
                    }
                    &&& r->Ok_0.1@ == if had {
                        seq![
                            SystemEffect::DecSufficients(old_account),
                            SystemEffect::IncSufficients(account),
                        ]
                    } else {
                        seq![SystemEffect::IncSufficients(account)]
                    }
                    &&& old(self).alias_account_set(&*final(self), ca, account)
                },
            },
    {
        let ca = match ensure_personal_alias(origin) {
            Ok(ca) => ca,
            Err(_) => return Err(DispatchError::BadOrigin),
        };
        if !account_context_allowed(&self.config, &ca.context) {
            return Err(DispatchError::Module(Error::InvalidContext));
        }
        if self.account_to_alias.contains_key(&account) {
            return Err(DispatchError::Module(Error::AccountInUse));
        }
        let ghost pre = *self;
        proof {
            lemma_bijection_rebind(pre.alias_accounts(), pre.account_aliases(), ca, account);
        }
        let mut effects: Vec<SystemEffect> = Vec::new();
        let pays = match self.alias_to_account.get(&ca) {
            Some(old_account) => {
                let old_account = *old_account;
                effects.push(SystemEffect::DecSufficients(old_account));
                let _ = self.account_to_alias.remove(&old_account);
                Pays::Yes
            },
            None => Pays::No,
        };
        effects.push(SystemEffect::IncSufficients(account));
        self.account_to_alias.insert(account, ca);
        self.alias_to_account.insert(ca, account);
        proof {
            let o = *old(self);
            assert forall|i: u32| #[trigger] self.keys_of(i) == o.keys_of(i) && self.included_of(i)
                == o.included_of(i) by {}
            assert(self.records() == o.records());
            assert(self.key_owners() == o.key_owners());
            assert(self.reserved_ids() == o.reserved_ids());
            assert(self.ever_reserved_ids() == o.ever_reserved_ids());
            assert(self.next_id() == o.next_id());
            assert(self.alias_to_account.wf());
            assert(self.account_to_alias.wf());
            assert(alias_bijection(self.alias_accounts(), self.account_aliases()));
            if o.alias_accounts().dom().contains(ca@) {
                assert(effects@ =~= seq![
                    SystemEffect::DecSufficients(o.alias_accounts()[ca@]),
                    SystemEffect::IncSufficients(account),
                ]);
            } else {
                assert(effects@ =~= seq![SystemEffect::IncSufficients(account)]);
            }
        }
        Ok((pays, effects))
    }

    /// Releases the account that signed `origin` from the alias it is held under.
    pub fn unset_alias_account(&mut self, origin: Origin) -> (r: Result<
        (Pays, Vec<SystemEffect>),
        DispatchError<Error>,
    >)
        requires
            old(self).wf(),
        ensures
            final(self).wf(),
            match origin {
                Origin::Signed(account) => if !old(self).account_aliases().dom().contains(
                    account@,
                ) {
                    r == Err::<(Pays, Vec<SystemEffect>), DispatchError<Error>>(
                        DispatchError::Module(Error::InvalidAccount),
                    ) && *final(self) == *old(self)
                } else {
                    &&& r is Ok
                    &&& r->Ok_0.0 == Pays::No
                    &&& r->Ok_0.1@ == seq![SystemEffect::DecSufficients(account)]
                    &&& old(self).alias_account_unset(&*final(self), account)
                },
                _ => r == Err::<(Pays, Vec<SystemEffect>), DispatchError<Error>>(
                    DispatchError::BadOrigin,
                ) && *final(self) == *old(self),
            },
    {
        let account = match ensure_signed(origin) {
            Ok(a) => a,
            Err(_) => return Err(DispatchError::BadOrigin),
        };
        if !self.account_to_alias.contains_key(&account) {
            return Err(DispatchError::Module(Error::InvalidAccount));
        }
        let ghost pre = *self;
        proof {
            lemma_bijection_release(pre.alias_accounts(), pre.account_aliases(), account@);
        }
        let alias = match self.account_to_alias.remove(&account) {
            Some(a) => a,
            None => return Err(DispatchError::Module(Error::InvalidAccount)),
        };
        let _ = self.alias_to_account.remove(&alias);
        proof {
            assert forall|i: u32| #[trigger] self.keys_of(i) == pre.keys_of(i) && self.included_of(i)
                == pre.included_of(i) by {}
            assert(self.records() == pre.records());
            assert(self.key_owners() == pre.key_owners());
            assert(self.reserved_ids() == pre.reserved_ids());
            assert(self.ever_reserved_ids() == pre.ever_reserved_ids());
            assert(self.next_id() == pre.next_id());
            assert(alias_bijection(self.alias_accounts(), self.account_aliases()));
        }
        let mut effects: Vec<SystemEffect> = Vec::new();
        effects.push(SystemEffect::DecSufficients(account));
        proof {
            assert(effects@ =~= seq![SystemEffect::DecSufficients(account)]);
        }
        Ok((Pays::No, effects))
    }

    /// The origin to dispatch a call of the account that signed `origin` with: the contextual
    /// alias the account is held under. The call is free.
    pub fn under_alias(&self, origin: Origin) -> (r: Result<(Origin, Pays), DispatchError<Error>>)
        requires
            self.wf(),
        ensures
            r == self.under_alias_outcome(origin),
    {
        let account = match ensure_signed(origin) {
            Ok(a) => a,
            Err(_) => return Err(DispatchError::BadOrigin),
        };
        match self.account_to_alias.get(&account) {
            Some(ca) => Ok((Origin::PersonalAlias(*ca), Pays::No)),
            None => Err(DispatchError::Module(Error::InvalidAccount)),
        }
    }

    /// Forgets every ring root, key, person and alias account; the origin must be root.
    pub fn reset_root(&mut self, origin: Origin) -> (r: Result<Pays, DispatchError<Error>>)
        requires
            old(self).wf(),
        ensures
            final(self).wf(),
            origin is Root ==> {
                &&& r == Ok::<Pays, DispatchError<Error>>(Pays::No)
                &&& final(self).roots().is_empty()
                &&& final(self).key_owners().is_empty()
                &&& final(self).records().is_empty()
                &&& final(self).alias_accounts().is_empty()
                &&& final(self).account_aliases().is_empty()
                &&& final(self).current() == old(self).current()
                &&& final(self).cfg() == old(self).cfg()
                &&& final(self).event_log() == old(self).event_log()
                &&& final(self).chunk_store() == old(self).chunk_store()
                &&& forall|i: u32| #[trigger] final(self).keys_of(i) == old(self).keys_of(i)
                    && final(self).included_of(i) == old(self).included_of(i)
            },
            !(origin is Root) ==> r == Err::<Pays, DispatchError<Error>>(DispatchError::BadOrigin)
                && *final(self) == *old(self),
    {
        if ensure_root(origin).is_err() {
            return Err(DispatchError::BadOrigin);
        }
        let ghost pre = *self;
        self.root.clear();
        self.keys.clear();
        self.people.clear();
        self.alias_to_account.clear();
        self.account_to_alias.clear();
        proof {
            assert forall|i: u32| #[trigger] self.keys_of(i) == pre.keys_of(i) && self.included_of(i)
                == pre.included_of(i) by {}
            assert(self.reserved_ids() == pre.reserved_ids());
            assert(self.ever_reserved_ids() == pre.ever_reserved_ids());
            assert(self.records().is_empty());
        }
        Ok(Pays::No)
    }
}

/// A copy of the keys of a ring.
fn copy_keys_for_ring(k: &KeysForRing) -> (c: KeysForRing)
    ensures
        c.keys@ == k.keys@,
        c.included == k.included,
{
    let mut keys: Vec<Member> = Vec::new();
    let mut i: usize = 0;
    while i < k.keys.len()
        invariant
            i <= k.keys@.len(),
            keys@ == k.keys@.take(i as int),
        decreases k.keys@.len() - i,
    {
        keys.push(k.keys[i]);
        proof {
            assert(k.keys@.take(i + 1) =~= k.keys@.take(i as int).push(k.keys@[i as int]));
        }
        i = i + 1;
    }
    proof {
        assert(k.keys@.take(k.keys@.len() as int) =~= k.keys@);
    }
    KeysForRing { keys, included: k.included }
}

impl<C: RingCrypto> People<C> {
    /// In every state, the next key goes into the ring being filled.
    pub proof fn law_next_key_goes_into_current_ring(&self)
        requires
            self.wf(),
        ensures
            self.insert_target() == self.current(),
    {
    }

    /// The ring the next key goes into, with its keys. When the ring being filled is full, the
    /// next ring becomes the one being filled; in every state this leaves it as it is.
    pub fn available_ring(&mut self) -> (r: (RingIndex, KeysForRing))
        requires
            old(self).wf(),
        ensures
            final(self).wf(),
            r.0 == old(self).insert_target(),
            final(self).current() == r.0,
            r.1.keys@ == old(self).keys_of(r.0),
            r.1.included == old(self).included_of(r.0),
            *final(self) == *old(self),
    {
        let mut index = self.current_ring_index;
        let mut current_keys = match self.ring_keys.get(&index) {
            Some(k) => copy_keys_for_ring(k),
            None => KeysForRing { keys: Vec::new(), included: 0 },
        };
        if current_keys.keys.len() >= self.config.max_ring_size as usize {
            index = next_ring_index(index);
            self.current_ring_index = index;
            current_keys = match self.ring_keys.get(&index) {
                Some(k) => copy_keys_for_ring(k),
                None => KeysForRing { keys: Vec::new(), included: 0 },
            };
        }
        (index, current_keys)
    }

    /// Why adding the key `key` for the person `who` is refused, if it is.
    pub open spec fn insert_key_error(&self, who: PersonalId, key: Member) -> Option<Error> {
        if self.key_owners().dom().contains(key@) {
            Some(Error::KeyAlreadyInUse)
        } else if self.records().dom().contains(who) && self.records()[who].key == key {
            Some(Error::SameKey)
        } else if self.keys_of(self.insert_target()).len() >= self.cfg().max_ring_size {
            Some(Error::TooManyMembers)
        } else {
            None
        }
    }

    /// The state after adding the key `key` for the person `who`: the key goes at the end of the
    /// ring being filled and belongs to `who`, whose record points at it; the recognition is
    /// reported; the next ring is filled from then on if that ring is now full; and the personal
    /// id is used: it is no longer reserved, and ids are handed out past it.
    pub open spec fn inserted_key(&self, post: &Self, who: PersonalId, key: Member) -> bool {
        let t = self.insert_target();
        let n = self.keys_of(t).len() + 1;
        &&& post.keys_of(t) == self.keys_of(t).push(key)
        &&& forall|i: u32| #[trigger] post.keys_of(i) == self.keys_of(i) || i == t
        &&& forall|i: u32| #[trigger] post.included_of(i) == self.included_of(i)
        &&& post.key_owners() == self.key_owners().insert(key@, who)
        &&& post.records() == self.records().insert(
            who,
            PersonRecord { key, ring_index: t, key_index: n as u32 },
        )
        &&& post.event_log() == self.event_log().push(Event::PersonhoodRecognized { who, key })
        &&& post.current() == if n >= self.cfg().max_ring_size {
            next_ring(t)
        } else {
            t
        }
        &&& post.roots() == self.roots()
        &&& post.alias_accounts() == self.alias_accounts()
        &&& post.account_aliases() == self.account_aliases()
        &&& post.cfg() == self.cfg()
        &&& post.chunk_store() == self.chunk_store()
        &&& post.reserved_ids() == self.reserved_ids().remove(who)
        &&& post.ever_reserved_ids() == self.ever_reserved_ids()
        &&& post.next_id() == if who < self.next_id() {
            self.next_id()
        } else if who < u64::MAX {
            (who + 1) as u64
        } else {
            u64::MAX
        }
    }

    /// Associates the key `key` with the person `who`, placing it at the end of the ring being
    /// filled. A person already recognized gets the new key in place of the old one.
    pub fn do_insert_key(&mut self, who: PersonalId, key: Member) -> (r: Result<(), Error>)
        requires
            old(self).wf(),
        ensures
            final(self).wf(),
            match old(self).insert_key_error(who, key) {
                Some(e) => r == Err::<(), Error>(e) && *final(self) == *old(self),
                None => r is Ok && old(self).inserted_key(&*final(self), who, key),
            },
    {
        if self.keys.contains_key(&key) {
            return Err(Error::KeyAlreadyInUse);
        }
        match self.people.get(&who) {
            Some(rec) => {
                if arrays_equal(&rec.key, &key) {
                    return Err(Error::SameKey);
                }
            },
            None => {},
        }
        let (mut index, mut current_keys) = self.available_ring();
        if current_keys.keys.len() >= self.config.max_ring_size as usize {
            return Err(Error::TooManyMembers);
        }
        let ghost pre = *self;
        current_keys.keys.push(key);
        let keys_len = current_keys.keys.len() as u32;
        self.ring_keys.insert(index, current_keys);
        let record = PersonRecord { key, ring_index: index, key_index: keys_len };
        self.events.push(Event::PersonhoodRecognized { who, key });
        self.keys.insert(key, who);
        self.people.insert(who, record);
        let _ = self.reserved.remove(&who);
        if who >= self.next_personal_id {
            self.next_personal_id = if who < u64::MAX {
                who + 1
            } else {
                u64::MAX
            };
        }
        let included = match self.ring_keys_meta.get(&index) {
            Some(m) => m.1,
            None => 0,
        };
        self.ring_keys_meta.insert(index, (keys_len, included));
        if keys_len >= self.config.max_ring_size {
            index = next_ring_index(index);
            self.current_ring_index = index;
        }
        proof {
            let t = pre.current();
            assert forall|i: u32| #[trigger] self.keys_of(i) == pre.keys_of(i) || i == t by {}
            assert forall|i: u32| #[trigger] self.included_of(i) == pre.included_of(i) by {}
            assert(self.keys_of(t) =~= pre.keys_of(t).push(key));
            assert forall|i: u32| #[trigger] self.meta_of(i) == pre.meta_of(i) || i == t by {}
            assert forall|w: PersonalId| #[trigger] self.records().dom().contains(w) implies {
                let rec = self.records()[w];
                &&& self.key_owners().dom().contains(rec.key@)
                &&& self.key_owners()[rec.key@] == w
                &&& 1 <= rec.key_index <= self.keys_of(rec.ring_index).len()
                &&& self.keys_of(rec.ring_index)[rec.key_index - 1] == rec.key
            } by {
                if w != who {
                    let rec = pre.records()[w];
                    assert(pre.key_owners().dom().contains(rec.key@));
                    assert(rec.key@ != key@);
                    assert(pre.keys_of(rec.ring_index)[rec.key_index - 1] == rec.key);
                    if rec.ring_index == t {
                        assert(self.keys_of(t)[rec.key_index - 1] == pre.keys_of(t)[rec.key_index
                            - 1]);
                    }
                }
            }
            assert forall|k: Seq<u8>| #[trigger] self.key_owners().dom().contains(k) implies self.records().dom().contains(
                self.key_owners()[k],
            ) by {
                if k != key@ {
                    assert(pre.key_owners().dom().contains(k));
                }
            }
            assert forall|r: u32| r > self.current() implies #[trigger] self.keys_of(r).len() == 0 by {
                assert(pre.keys_of(r).len() == 0);
            }
            assert forall|w: PersonalId| #[trigger] self.reserved_ids().contains(w) implies self.ever_reserved_ids().contains(w)
                && !self.records().dom().contains(w) by {
                assert(pre.reserved_ids().contains(w));
            }
            assert forall|w: PersonalId| #[trigger] self.ever_reserved_ids().contains(w) implies w
                < self.next_id() by {
                assert(pre.ever_reserved_ids().contains(w));
            }
            assert forall|w: PersonalId| #[trigger] self.records().dom().contains(w) implies w
                < self.next_id() || self.next_id() == u64::MAX by {
                if w != who {
                    assert(pre.records().dom().contains(w));
                }
            }
            if self.current() < u32::MAX && self.current() != t {
                assert(self.current() == t + 1);
                assert(pre.keys_of((t + 1) as u32).len() == 0);
            }
        }
        Ok(())
    }

    /// The state after the reserved personal ids become `reserved` and the ids reserved at
    /// least once become `ever`, the least id never handed out becoming `next`: nothing else
    /// changes.
    pub open spec fn reservations_changed(
        &self,
        post: &Self,
        reserved: Set<PersonalId>,
        ever: Set<PersonalId>,
        next: PersonalId,
    ) -> bool {
        &&& post.reserved_ids() == reserved
        &&& post.ever_reserved_ids() == ever
        &&& post.next_id() == next
        &&& post.records() == self.records()
        &&& post.key_owners() == self.key_owners()
        &&& post.roots() == self.roots()
        &&& post.alias_accounts() == self.alias_accounts()
        &&& post.account_aliases() == self.account_aliases()
        &&& post.current() == self.current()
        &&& post.cfg() == self.cfg()
        &&& post.event_log() == self.event_log()
        &&& post.chunk_store() == self.chunk_store()
        &&& forall|i: u32| #[trigger] post.keys_of(i) == self.keys_of(i) && post.included_of(i)
            == self.included_of(i)
    }

    /// Reserves a new personal id for a future person: one that is not recognized, not
    /// reserved, and was never reserved before. Ids are handed out in increasing order, so the
    /// largest id cannot be handed out.
    pub fn reserve_new_id(&mut self) -> (id: PersonalId)
        requires
            old(self).wf(),
            old(self).next_id() < u64::MAX,
        ensures
            final(self).wf(),
            id == old(self).next_id(),
            !old(self).records().dom().contains(id),
            !old(self).ever_reserved_ids().contains(id),
            old(self).reservations_changed(
                &*final(self),
                old(self).reserved_ids().insert(id),
                old(self).ever_reserved_ids().insert(id),
                (id + 1) as u64,
            ),
    {
        let ghost pre = *self;
        let id = self.next_personal_id;
        self.reserved.insert(id, ());
        self.reserved_before.insert(id, ());
        self.next_personal_id = id + 1;
        proof {
            assert(!pre.ever_reserved_ids().contains(id));
            assert forall|i: u32| #[trigger] self.keys_of(i) == pre.keys_of(i) && self.included_of(i)
                == pre.included_of(i) by {}
            assert forall|i: u32| #[trigger] self.meta_of(i) == pre.meta_of(i) by {}
            assert(self.records() == pre.records());
            assert(self.key_owners() == pre.key_owners());
            assert forall|w: PersonalId| #[trigger] self.reserved_ids().contains(w) implies self.ever_reserved_ids().contains(w)
                && !self.records().dom().contains(w) by {
                if w != id {
                    assert(pre.reserved_ids().contains(w));
                }
            }
            assert forall|w: PersonalId| #[trigger] self.ever_reserved_ids().contains(w) implies w
                < self.next_id() by {
                if w != id {
                    assert(pre.ever_reserved_ids().contains(w));
                }
            }
            assert forall|w: PersonalId| #[trigger] self.records().dom().contains(w) implies w
                < self.next_id() || self.next_id() == u64::MAX by {
                assert(pre.records().dom().contains(w));
            }
        }
        id
    }

    /// Renews the reservation of the personal id `personal_id`, which must have been reserved
    /// before and must not be used by a recognized person.
    pub fn renew_id_reservation(&mut self, personal_id: PersonalId) -> (r: Result<(), Error>)
        requires
            old(self).wf(),
        ensures
            final(self).wf(),
            if !old(self).ever_reserved_ids().contains(personal_id) || old(self).records().dom().contains(
                personal_id,
            ) {
                r == Err::<(), Error>(Error::PersonalIdReservationCannotRenew) && *final(self)
                    == *old(self)
            } else {
                r is Ok && old(self).reservations_changed(
                    &*final(self),
                    old(self).reserved_ids().insert(personal_id),
                    old(self).ever_reserved_ids(),
                    old(self).next_id(),
                )
            },
    {
        if !self.reserved_before.contains_key(&personal_id) || self.people.contains_key(
            &personal_id,
        ) {
            return Err(Error::PersonalIdReservationCannotRenew);
        }
        let ghost pre = *self;
        self.reserved.insert(personal_id, ());
        proof {
            assert forall|i: u32| #[trigger] self.keys_of(i) == pre.keys_of(i) && self.included_of(i)
                == pre.included_of(i) by {}
            assert forall|i: u32| #[trigger] self.meta_of(i) == pre.meta_of(i) by {}
            assert(self.records() == pre.records());
            assert(self.key_owners() == pre.key_owners());
            assert(self.ever_reserved_ids() == pre.ever_reserved_ids());
            assert forall|w: PersonalId| #[trigger] self.reserved_ids().contains(w) implies self.ever_reserved_ids().contains(w)
                && !self.records().dom().contains(w) by {
                if w != personal_id {
                    assert(pre.reserved_ids().contains(w));
                }
            }
        }
        Ok(())
    }

    /// Cancels the reservation of the personal id `personal_id`, which must be reserved.
    pub fn cancel_id_reservation(&mut self, personal_id: PersonalId) -> (r: Result<(), Error>)
        requires
            old(self).wf(),
        ensures
            final(self).wf(),
            if !old(self).reserved_ids().contains(personal_id) {
                r == Err::<(), Error>(Error::PersonalIdNotReserved) && *final(self) == *old(self)
            } else {
                r is Ok && old(self).reservations_changed(
                    &*final(self),
                    old(self).reserved_ids().remove(personal_id),
                    old(self).ever_reserved_ids(),
                    old(self).next_id(),
                )
            },
    {
        if !self.reserved.contains_key(&personal_id) {
            return Err(Error::PersonalIdNotReserved);
        }
        let ghost pre = *self;
        let _ = self.reserved.remove(&personal_id);
        proof {
            assert forall|i: u32| #[trigger] self.keys_of(i) == pre.keys_of(i) && self.included_of(i)
                == pre.included_of(i) by {}
            assert forall|i: u32| #[trigger] self.meta_of(i) == pre.meta_of(i) by {}
            assert(self.records() == pre.records());
            assert(self.key_owners() == pre.key_owners());
            assert(self.ever_reserved_ids() == pre.ever_reserved_ids());
            assert forall|w: PersonalId| #[trigger] self.reserved_ids().contains(w) implies self.ever_reserved_ids().contains(w)
                && !self.records().dom().contains(w) by {
                assert(pre.reserved_ids().contains(w));
            }
        }
        Ok(())
    }

    /// Why recognizing the person `who` with the key `key` is refused, if it is: the key is
    /// in use, the personal id is used by a person already recognized, or it is not reserved;
    /// then as adding the key is.
    pub open spec fn recognize_error(&self, who: PersonalId, key: Member) -> Option<Error> {
        if self.key_owners().dom().contains(key@) {
            Some(Error::KeyAlreadyInUse)
        } else if self.records().dom().contains(who) {
            Some(Error::AlreadyRecognized)
        } else if !self.reserved_ids().contains(who) {
            Some(Error::PersonalIdNotReserved)
        } else {
            self.insert_key_error(who, key)
        }
    }

    /// Recognizes the person `who` with the key `maybe_key`: a key must be given, and the
    /// personal id must be reserved and not used by a person already recognized.
    pub fn recognize_personhood(&mut self, who: PersonalId, maybe_key: Option<Member>) -> (r: Result<
        (),
        Error,
    >)
        requires
            old(self).wf(),
        ensures
            final(self).wf(),
            match maybe_key {
                None => r == Err::<(), Error>(Error::NoKey) && *final(self) == *old(self),
                Some(key) => match old(self).recognize_error(who, key) {
                    Some(e) => r == Err::<(), Error>(e) && *final(self) == *old(self),
                    None => r is Ok && old(self).inserted_key(&*final(self), who, key),
                },
            },
    {
        match maybe_key {
            None => Err(Error::NoKey),
            Some(key) => {
                if self.key_owner(&key).is_some() {
                    return Err(Error::KeyAlreadyInUse);
                }
                if self.person(who).is_some() {
                    return Err(Error::AlreadyRecognized);
                }
                if !self.reserved.contains_key(&who) {
                    return Err(Error::PersonalIdNotReserved);
                }
                self.do_insert_key(who, key)
            },
        }
    }
}

impl<C: RingCrypto> People<C> {
    /// The keys of ring `ring_index` not yet built into its root, in order.
    pub open spec fn pending_keys(&self, ring_index: RingIndex) -> Seq<Member> {
        self.keys_of(ring_index).subrange(
            self.included_of(ring_index) as int,
            self.keys_of(ring_index).len() as int,
        )
    }

    /// Whether `start` is what building ring `ring_index` starts from: a copy of the ring as
    /// built so far, or a new ring when it has no root.
    pub open spec fn ring_start(&self, ring_index: RingIndex, start: C::Intermediate) -> bool {
        if self.roots().dom().contains(ring_index) {
            cloned::<C::Intermediate>(self.roots()[ring_index].intermediate, start)
        } else {
            call_ensures(C::start_members, (), start)
        }
    }

    /// Whether `post` holds the root of ring `ring_index` built through `states`: the ring
    /// crypto pushed the pending keys, in order, into where building starts, each push giving
    /// the next state; the last state is kept, and the root is what the ring crypto finishes it
    /// into.
    pub open spec fn ring_built_through(
        &self,
        post: &Self,
        ring_index: RingIndex,
        states: Seq<C::Intermediate>,
    ) -> bool {
        &&& states.len() >= 1
        &&& self.ring_start(ring_index, states[0])
        &&& pushed_in_order::<C>(states, self.pending_keys(ring_index), self.chunk_store())
        &&& post.roots()[ring_index].intermediate == states.last()
        &&& call_ensures(C::finish_members, (&states.last(),), post.roots()[ring_index].root)
    }

    /// Whether the ring crypto refused a pending key of ring `ring_index` after accepting the
    /// ones before it, through `states`.
    pub open spec fn push_refused_through(&self, ring_index: RingIndex, states: Seq<C::Intermediate>) -> bool {
        let pending = self.pending_keys(ring_index);
        let n = states.len() - 1;
        &&& states.len() >= 1
        &&& n < pending.len()
        &&& self.ring_start(ring_index, states[0])
        &&& pushed_in_order::<C>(states, pending.take(n), self.chunk_store())
        &&& call_ensures(
            C::push_member,
            (states.last(), pending[n], &self.chunk_store()),
            None::<C::Intermediate>,
        )
    }

    /// Why building the root of ring `ring_index` is refused before any key is pushed, if it
    /// is: every key is already included; too few keys wait to be included while the ring is
    /// not full; or the root's revision cannot grow.
    pub open spec fn build_ring_error(&self, ring_index: RingIndex) -> Option<DispatchError<Error>> {
        let len = self.keys_of(ring_index).len();
        let inc = self.included_of(ring_index);
        let not_included = if len >= inc {
            len - inc
        } else {
            0
        };
        let onboarding = self.cfg().onboarding_size;
        let max = self.cfg().max_ring_size;
        if not_included == 0 {
            Some(DispatchError::Module(Error::StillFresh))
        } else if !(len == max || (not_included >= onboarding && max - len >= onboarding)) {
            Some(DispatchError::Module(Error::Incomplete))
        } else if self.roots().dom().contains(ring_index) && self.roots()[ring_index].revision
            == u32::MAX {
            Some(DispatchError::Overflow)
        } else {
            None
        }
    }

    /// The revision of the next root of ring `ring_index`: one more than the current one, or
    /// zero for the first root.
    pub open spec fn next_revision(&self, ring_index: RingIndex) -> RevisionIndex {
        if self.roots().dom().contains(ring_index) {
            (self.roots()[ring_index].revision + 1) as u32
        } else {
            0
        }
    }

    /// The state after building the root of ring `ring_index`: every key of the ring is
    /// included, the recorded numbers say so, and the ring has a root of the next revision;
    /// nothing else changes.
    pub open spec fn built_ring(&self, post: &Self, ring_index: RingIndex) -> bool {
        &&& forall|i: u32| #[trigger] post.keys_of(i) == self.keys_of(i)
        &&& post.included_of(ring_index) == self.keys_of(ring_index).len()
        &&& forall|i: u32| #[trigger] post.included_of(i) == self.included_of(i) || i == ring_index
        &&& post.roots().dom() == self.roots().dom().insert(ring_index)
        &&& post.roots()[ring_index].revision == self.next_revision(ring_index)
        &&& exists|states: Seq<C::Intermediate>| #[trigger] self.ring_built_through(post, ring_index, states)
        &&& forall|i: u32|
            #[trigger] post.roots().dom().contains(i) && i != ring_index ==> post.roots()[i]
                == self.roots()[i]
        &&& post.key_owners() == self.key_owners()
        &&& post.records() == self.records()
        &&& post.alias_accounts() == self.alias_accounts()
        &&& post.account_aliases() == self.account_aliases()
        &&& post.current() == self.current()
        &&& post.cfg() == self.cfg()
        &&& post.event_log() == self.event_log()
        &&& post.chunk_store() == self.chunk_store()
    }

    /// Builds the root of ring `ring_index` from its keys: the keys not yet included are pushed
    /// into the ring as built so far, and the root of the result is kept under the next
    /// revision.
    ///
    /// Whether the ring crypto accepts each key is its own: when it refuses one, the call fails
    /// with `CouldNotPush` and nothing changes.
    pub fn build_ring(&mut self, ring_index: RingIndex) -> (r: Result<(), DispatchError<Error>>)
        requires
            old(self).wf(),
        ensures
            final(self).wf(),
            match old(self).build_ring_error(ring_index) {
                Some(e) => r == Err::<(), DispatchError<Error>>(e) && *final(self) == *old(self),
                None => (r == Err::<(), DispatchError<Error>>(
                    DispatchError::Module(Error::CouldNotPush),
                ) && *final(self) == *old(self) && exists|states: Seq<C::Intermediate>|
                    #[trigger] old(self).push_refused_through(ring_index, states)) || (r is Ok
                    && old(self).built_ring(&*final(self), ring_index)),
            },
            r is Ok ==> old(self).keys_of(ring_index).len() == old(self).cfg().max_ring_size || (
            old(self).keys_of(ring_index).len() - old(self).included_of(ring_index)
                >= old(self).cfg().onboarding_size && old(self).cfg().max_ring_size - old(
                self,
            ).keys_of(ring_index).len() >= old(self).cfg().onboarding_size),
            old(self).included_of(ring_index) < old(self).keys_of(ring_index).len() < old(
                self,
            ).cfg().max_ring_size && (old(self).keys_of(ring_index).len() - old(self).included_of(
                ring_index,
            ) < old(self).cfg().onboarding_size || old(self).cfg().max_ring_size - old(
                self,
            ).keys_of(ring_index).len() < old(self).cfg().onboarding_size) ==> r == Err::<
                (),
                DispatchError<Error>,
            >(DispatchError::Module(Error::Incomplete)),
    {
        let entry = match self.ring_keys.get(&ring_index) {
            Some(k) => k,
            None => return Err(DispatchError::Module(Error::StillFresh)),
        };
        proof {
            assert(self.keys_of(ring_index) == entry.keys@);
            assert(self.keys_of(ring_index).len() <= self.config.max_ring_size);
        }
        let keys_len = entry.keys.len() as u32;
        let included = entry.included;
        let not_included = keys_len.saturating_sub(included);
        if not_included == 0 {
            return Err(DispatchError::Module(Error::StillFresh));
        }
        let onboarding = self.config.onboarding_size;
        let max = self.config.max_ring_size;
        let queue_full = not_included >= onboarding && max - keys_len >= onboarding;
        let should_build = keys_len == max || queue_full;
        if !should_build {
            return Err(DispatchError::Module(Error::Incomplete));
        }
        let (next_revision, mut intermediate) = match self.root.get(&ring_index) {
            Some(existing) => {
                if existing.revision == u32::MAX {
                    return Err(DispatchError::Overflow);
                }
                let copy = existing.intermediate.clone();
                proof {
                    assert(cloned::<C::Intermediate>(existing.intermediate, copy));
                }
                (existing.revision + 1, copy)
            },
            None => {
                let start = C::start_members();
                proof {
                    assert(call_ensures(C::start_members, (), start));
                }
                (0, start)
            },
        };
        let ghost pending = old(self).pending_keys(ring_index);
        let ghost mut states: Seq<C::Intermediate> = seq![intermediate];
        proof {
            assert(old(self).ring_start(ring_index, states[0]));
            assert(pending.take(0) =~= Seq::<Member>::empty());
        }
        let mut i: usize = included as usize;
        while i < entry.keys.len()
            invariant
                included <= i <= entry.keys@.len(),
                *self == *old(self),
                old(self).wf(),
                old(self).build_ring_error(ring_index) is None,
                entry.keys@ == old(self).keys_of(ring_index),
                entry.included == old(self).included_of(ring_index),
                keys_len == entry.keys@.len(),
                next_revision == old(self).next_revision(ring_index),
                pending == entry.keys@.subrange(included as int, entry.keys@.len() as int),
                pending == old(self).pending_keys(ring_index),
                states.len() == i - included + 1,
                old(self).ring_start(ring_index, states[0]),
                states.last() == intermediate,
                pushed_in_order::<C>(states, pending.take(i - included), self.chunk_store()),
            decreases entry.keys@.len() - i,
        {
            let ghost cur = intermediate;
            let key = entry.keys[i];
            let ghost k = i - included;
            match C::push_member(intermediate, key, &self.chunks) {
                Some(next) => {
                    proof {
                        let old_states = states;
                        assert(call_ensures(C::push_member, (cur, key, &self.chunks), Some(next)));
                        states = states.push(next);
                        assert(pending[k] == key);
                        let done = pending.take(k + 1);
                        assert forall|j: int| 0 <= j < done.len() implies #[trigger] call_ensures(
                            C::push_member,
                            (states[j], done[j], &self.chunk_store()),
                            Some(states[j + 1]),
                        ) by {
                            if j < k {
                                assert(done[j] == pending.take(k)[j]);
                                assert(states[j] == old_states[j]);
                                assert(states[j + 1] == old_states[j + 1]);
                            } else {
                                assert(states[j] == cur);
                                assert(done[j] == key);
                            }
                        }
                    }
                    intermediate = next;
                },
                None => {
                    proof {
                        assert(call_ensures(C::push_member, (cur, key, &self.chunks), None::<C::Intermediate>));
                        assert(pending[k] == key);
                        assert(old(self).push_refused_through(ring_index, states));
                    }
                    return Err(DispatchError::Module(Error::CouldNotPush));
                },
            }
            i = i + 1;
        }
        let ghost pre = *self;
        let root = C::finish_members(&intermediate);
        proof {
            assert(call_ensures(C::finish_members, (&intermediate,), root));
            assert(pending.take(pending.len() as int) =~= pending);
        }
        let mut updated = match self.ring_keys.remove(&ring_index) {
            Some(k) => k,
            None => KeysForRing { keys: Vec::new(), included: 0 },
        };
        updated.included = keys_len;
        self.ring_keys_meta.insert(ring_index, (keys_len, keys_len));
        self.root.insert(ring_index, RingRoot { root, revision: next_revision, intermediate });
        self.ring_keys.insert(ring_index, updated);
        proof {
            assert forall|j: u32| #[trigger] self.keys_of(j) == pre.keys_of(j) by {}
            assert forall|j: u32| #[trigger] self.included_of(j) == pre.included_of(j) || j
                == ring_index by {}
            assert forall|j: u32| #[trigger] self.meta_of(j) == pre.meta_of(j) || j
                == ring_index by {}
            assert(self.included_of(ring_index) == keys_len);
            assert(self.meta_of(ring_index) == (keys_len, keys_len));
            assert(self.records() == pre.records());
            assert(self.key_owners() == pre.key_owners());
            assert(self.reserved_ids() == pre.reserved_ids());
            assert(self.ever_reserved_ids() == pre.ever_reserved_ids());
            assert(self.next_id() == pre.next_id());
            assert(pre.ring_built_through(self, ring_index, states));
            assert forall|j: u32|
                #![trigger self.keys_of(j)]
                #![trigger self.meta_of(j)]
                self.keys_of(j).len() <= self.config.max_ring_size && self.included_of(j)
                    <= self.keys_of(j).len() && self.meta_of(j) == (
                    self.keys_of(j).len() as u32,
                    self.included_of(j),
                ) by {
                assert(pre.keys_of(j).len() <= pre.config.max_ring_size);
            }
        }
        Ok(())
    }
}

/// The chunks the ring crypto reads, given at genesis.
pub struct GenesisConfig<C: RingCrypto> {
    /// All the chunks, in order.
    pub chunks: Vec<C::StaticChunk>,
}

impl<C: RingCrypto> GenesisConfig<C> {
    /// Stores the chunks in pages of `chunk_page_size` chunks, the last one holding what is
    /// left; there must be exactly `CHUNK_COUNT` of them.
    pub fn build(self, people: &mut People<C>)
        requires
            old(people).wf(),
            self.chunks@.len() == CHUNK_COUNT,
        ensures
            final(people).wf(),
            chunks_in_pages(
                final(people).chunk_store().pages(),
                old(people).chunk_store().pages(),
                self.chunks@,
                old(people).cfg().chunk_page_size as int,
            ),
            final(people).chunk_store().page_size() == old(people).chunk_store().page_size(),
            forall|i: u32| #[trigger] final(people).keys_of(i) == old(people).keys_of(i),
            forall|i: u32| #[trigger] final(people).included_of(i) == old(people).included_of(i),
            final(people).roots() == old(people).roots(),
            final(people).key_owners() == old(people).key_owners(),
            final(people).records() == old(people).records(),
            final(people).alias_accounts() == old(people).alias_accounts(),
            final(people).account_aliases() == old(people).account_aliases(),
            final(people).current() == old(people).current(),
            final(people).cfg() == old(people).cfg(),
            final(people).event_log() == old(people).event_log(),
    {
        people.store_chunks(self.chunks);
    }
}

impl<C: RingCrypto> People<C> {
    /// Stores `chunks` in pages of `chunk_page_size` chunks.
    fn store_chunks(&mut self, chunks: Vec<C::StaticChunk>)
        requires
            old(self).wf(),
            chunks@.len() == CHUNK_COUNT,
        ensures
            final(self).wf(),
            chunks_in_pages(
                final(self).chunk_store().pages(),
                old(self).chunk_store().pages(),
                chunks@,
                old(self).cfg().chunk_page_size as int,
            ),
            final(self).chunk_store().page_size() == old(self).chunk_store().page_size(),
            forall|i: u32| #[trigger] final(self).keys_of(i) == old(self).keys_of(i),
            forall|i: u32| #[trigger] final(self).included_of(i) == old(self).included_of(i),
            final(self).roots() == old(self).roots(),
            final(self).key_owners() == old(self).key_owners(),
            final(self).records() == old(self).records(),
            final(self).alias_accounts() == old(self).alias_accounts(),
            final(self).account_aliases() == old(self).account_aliases(),
            final(self).current() == old(self).current(),
            final(self).cfg() == old(self).cfg(),
            final(self).event_log() == old(self).event_log(),
    {
        let ghost pre = *self;
        self.chunks.fill(chunks);
        proof {
            assert forall|i: u32| #[trigger] self.keys_of(i) == pre.keys_of(i) by {}
            assert forall|i: u32| #[trigger] self.included_of(i) == pre.included_of(i) by {}
            assert forall|i: u32| #[trigger] self.meta_of(i) == pre.meta_of(i) by {}
            assert(self.records() == pre.records());
            assert(self.key_owners() == pre.key_owners());
            assert(self.reserved_ids() == pre.reserved_ids());
            assert(self.ever_reserved_ids() == pre.ever_reserved_ids());
            assert(self.next_id() == pre.next_id());
            assert(self.alias_accounts() == pre.alias_accounts());
            assert(self.account_aliases() == pre.account_aliases());
        }
    }

    /// Whether `signature` is a signature of `msg` by the key of the person `signer`, as the
    /// ring crypto decides for the key in the person's record; never for someone who is not a
    /// person.
    pub fn verify_signature(&self, signer: PersonalId, msg: &[u8], signature: &C::Signature) -> (b:
        bool)
        requires
            self.wf(),
        ensures
            b ==> self.records().dom().contains(signer),
            self.records().dom().contains(signer) ==> call_ensures(
                C::verify_signature,
                (signature, msg, &self.records()[signer].key),
                b,
            ),
    {
        match self.people.get(&signer) {
            Some(record) => C::verify_signature(signature, msg, &record.key),
            None => false,
        }
    }

    /// Where a call from `origin` as the person `index` goes, `signature_valid` being whether
    /// the call is signed by the person's key: the origin to dispatch it with, or why not.
    pub open spec fn personal_identity_outcome(
        &self,
        origin: Origin,
        index: PersonalId,
        signature_valid: bool,
    ) -> Result<Origin, DispatchError<Error>> {
        match origin {
            Origin::Signed(_) => if !self.records().dom().contains(index) {
                Err(DispatchError::Module(Error::NotPerson))
            } else if !signature_valid {
                Err(DispatchError::Module(Error::InvalidSignature))
            } else {
                Ok(Origin::PersonalIdentity(index))
            },
            _ => Err(DispatchError::BadOrigin),
        }
    }

    /// The origin to dispatch a call of `origin` as the person `index` with, given whether the
    /// call is signed by the person's key.
    pub fn as_personal_identity_checked(
        &self,
        origin: Origin,
        index: PersonalId,
        signature_valid: bool,
    ) -> (r: Result<Origin, DispatchError<Error>>)
        requires
            self.wf(),
        ensures
            r == self.personal_identity_outcome(origin, index, signature_valid),
    {
        if ensure_signed(origin).is_err() {
            return Err(DispatchError::BadOrigin);
        }
        if self.people.get(&index).is_none() {
            return Err(DispatchError::Module(Error::NotPerson));
        }
        if !signature_valid {
            return Err(DispatchError::Module(Error::InvalidSignature));
        }
        Ok(Origin::PersonalIdentity(index))
    }

    /// The origin to dispatch the encoded call `call` of `origin` as the person `index` with,
    /// checking `signature` of the call against the person's key. The call is free once
    /// dispatched.
    ///
    /// Whether the signature is valid is the ring crypto's answer on the call and the person's
    /// key: the outcome is that of [`Self::as_personal_identity_checked`] for it.
    pub fn as_personal_identity(
        &self,
        origin: Origin,
        index: PersonalId,
        call: &[u8],
        signature: &C::Signature,
    ) -> (r: Result<Origin, DispatchError<Error>>)
        requires
            self.wf(),
        ensures
            exists|signature_valid: bool|
                r == #[trigger] self.personal_identity_outcome(origin, index, signature_valid) && (
                (origin is Signed && self.records().dom().contains(index)) ==> call_ensures(
                    C::verify_signature,
                    (signature, call, &self.records()[index].key),
                    signature_valid,
                )),
    {
        let signature_valid = match (origin, self.people.get(&index)) {
            (Origin::Signed(_), Some(record)) => C::verify_signature(signature, call, &record.key),
            _ => false,
        };
        self.as_personal_identity_checked(origin, index, signature_valid)
    }

    /// Where a call from `origin` under an alias in `context` goes, proved to come from a
    /// member of ring `ring`, `validated` being the alias the proof gives, if it is valid.
    pub open spec fn personal_alias_outcome(
        &self,
        origin: Origin,
        context: Context,
        ring: RingIndex,
        validated: Option<Alias>,
    ) -> Result<Origin, DispatchError<Error>> {
        match origin {
            Origin::Signed(_) => if !self.roots().dom().contains(ring) {
                Err(DispatchError::Module(Error::NoMembers))
            } else {
                match validated {
                    None => Err(DispatchError::Module(Error::InvalidProof)),
                    Some(alias) => Ok(
                        Origin::PersonalAlias(ContextualAlias { alias, context }),
                    ),
                }
            },
            _ => Err(DispatchError::BadOrigin),
        }
    }

    /// The origin to dispatch a call of `origin` under an alias in `context` with, given the
    /// alias that the proof of membership in ring `ring` gives, if it is valid.
    pub fn as_personal_alias_checked(
        &self,
        origin: Origin,
        context: Context,
        ring: RingIndex,
        validated: Option<Alias>,
    ) -> (r: Result<Origin, DispatchError<Error>>)
        requires
            self.wf(),
        ensures
            r == self.personal_alias_outcome(origin, context, ring, validated),
    {
        if ensure_signed(origin).is_err() {
            return Err(DispatchError::BadOrigin);
        }
        if self.root.get(&ring).is_none() {
            return Err(DispatchError::Module(Error::NoMembers));
        }
        match validated {
            None => Err(DispatchError::Module(Error::InvalidProof)),
            Some(alias) => Ok(Origin::PersonalAlias(ContextualAlias { alias, context })),
        }
    }

    /// The origin to dispatch the encoded call `call` of `origin` under an alias in `context`
    /// with, checking `proof` of membership in ring `ring` for the call. The call is free once
    /// dispatched.
    ///
    /// Whether the proof is valid, and the alias it gives, are the ring crypto's answer on the
    /// ring's root, the context and the call: the outcome is that of
    /// [`Self::as_personal_alias_checked`] for it.
    pub fn as_personal_alias(
        &self,
        origin: Origin,
        context: Context,
        call: &[u8],
        proof: &C::Proof,
        ring: RingIndex,
    ) -> (r: Result<Origin, DispatchError<Error>>)
        requires
            self.wf(),
        ensures
            exists|validated: Option<Alias>|
                r == #[trigger] self.personal_alias_outcome(origin, context, ring, validated) && (
                (origin is Signed && self.roots().dom().contains(ring)) ==> exists|c: &[u8]|
                    c@ == context@ && #[trigger] call_ensures(
                        C::validate,
                        (proof, &self.roots()[ring].root, c, call),
                        validated,
                    )),
    {
        let validated = match (origin, self.root.get(&ring)) {
            (Origin::Signed(_), Some(root)) => {
                let ctx: &[u8] = context.as_slice();
                let v = C::validate(proof, &root.root, ctx, call);
                proof {
                    assert(call_ensures(C::validate, (proof, &root.root, ctx, call), v));
                }
                v
            },
            _ => None,
        };
        self.as_personal_alias_checked(origin, context, ring, validated)
    }
}

/// Once an account is held under an alias, a call the account signs is dispatched as that
/// alias, for free.
pub proof fn law_held_account_acts_as_alias<C: RingCrypto>(
    pre: People<C>,
    post: People<C>,
    ca: ContextualAlias,
    account: AccountId,
)
    requires
        pre.wf(),
        pre.alias_account_set(&post, ca, account),
    ensures
        post.under_alias_outcome(Origin::Signed(account)) == Ok::<
            (Origin, Pays),
            DispatchError<Error>,
        >((Origin::PersonalAlias(ca), Pays::No)),
{
}

/// Releasing an account just held under an alias that held none before leaves the accounts
/// and the aliases as they were.
pub proof fn law_unset_undoes_set<C: RingCrypto>(
    s0: People<C>,
    s1: People<C>,
    s2: People<C>,
    ca: ContextualAlias,
    account: AccountId,
)
    requires
        s0.wf(),
        !s0.alias_accounts().dom().contains(ca@),
        !s0.account_aliases().dom().contains(account@),
        s0.alias_account_set(&s1, ca, account),
        s1.alias_account_unset(&s2, account),
    ensures
        s2.alias_accounts() == s0.alias_accounts(),
        s2.account_aliases() == s0.account_aliases(),
{
    assert(s2.alias_accounts() =~= s0.alias_accounts());
    assert(s2.account_aliases() =~= s0.account_aliases());
}

/// A key belongs to one person only: once associated with someone, it is refused to everyone,
/// them included; and a person recognized once is not recognized again, whatever key they
/// bring.
pub proof fn law_key_used_once<C: RingCrypto>(
    pre: People<C>,
    post: People<C>,
    who: PersonalId,
    key: Member,
    other: PersonalId,
    other_key: Member,
)
    requires
        pre.wf(),
        pre.inserted_key(&post, who, key),
    ensures
        post.insert_key_error(other, key) == Some(Error::KeyAlreadyInUse),
        post.recognize_error(other, key) == Some(Error::KeyAlreadyInUse),
        post.recognize_error(who, other_key) is Some,
{
}

/// A ring that is not full is built only when at least the onboarding size of keys wait to
/// be included and at least as many places are still free in it. With a ring not full, keys
/// waiting, and fewer waiting keys or fewer free places than the onboarding size, building is
/// refused as incomplete.
pub proof fn law_partial_ring_needs_onboarding_room<C: RingCrypto>(s: People<C>, r: RingIndex)
    requires
        s.wf(),
    ensures
        s.build_ring_error(r) is None ==> s.keys_of(r).len() == s.cfg().max_ring_size || (
        s.keys_of(r).len() - s.included_of(r) >= s.cfg().onboarding_size && s.cfg().max_ring_size
            - s.keys_of(r).len() >= s.cfg().onboarding_size),
        s.included_of(r) < s.keys_of(r).len() < s.cfg().max_ring_size && (s.keys_of(r).len()
            - s.included_of(r) < s.cfg().onboarding_size || s.cfg().max_ring_size - s.keys_of(
            r,
        ).len() < s.cfg().onboarding_size) ==> s.build_ring_error(r) == Some(
            DispatchError::<Error>::Module(Error::Incomplete),
        ),
{
}

/// A ring whose root was just built includes all its keys: building it again is refused as
/// still fresh.
pub proof fn law_built_ring_is_fresh<C: RingCrypto>(
    pre: People<C>,
    post: People<C>,
    ring_index: RingIndex,
)
    requires
        pre.wf(),
        pre.built_ring(&post, ring_index),
    ensures
        post.build_ring_error(ring_index) == Some(DispatchError::<Error>::Module(Error::StillFresh)),
{
    assert(post.keys_of(ring_index) == pre.keys_of(ring_index));
}

/// The weight reported back for a call dispatched under a person's origin: `base`, the weight
/// of dispatching under the origin, plus what the call used, from the weight it reported, if
/// any, bounded by `info`; the same on success and on failure, which is passed on.
pub fn derivative_call<E>(
    base: Weight,
    dispatched: Result<Option<Weight>, (E, Option<Weight>)>,
    info: &DispatchInfo,
) -> (r: Result<Weight, (E, Weight)>)
    ensures
        match dispatched {
            Ok(actual) => r == Ok::<Weight, (E, Weight)>(
                weight_sum(base, actual_weight_of(actual, *info)),
            ),
            Err((e, actual)) => r == Err::<Weight, (E, Weight)>(
                (e, weight_sum(base, actual_weight_of(actual, *info))),
            ),
        },
{
    match dispatched {
        Ok(actual) => Ok(base.saturating_add(extract_actual_weight(actual, info))),
        Err((e, actual)) => Err((e, base.saturating_add(extract_actual_weight(actual, info)))),
    }
}

/// In every state, each ring holds at most `max_ring_size` keys, includes at most the keys it
/// holds in its root, and the recorded numbers of its keys and of its included keys are those.
pub proof fn law_ring_records_are_up_to_date<C: RingCrypto>(s: People<C>, r: RingIndex)
    requires
        s.wf(),
    ensures
        s.keys_of(r).len() <= s.cfg().max_ring_size,
        s.included_of(r) <= s.keys_of(r).len(),
        s.meta_of(r) == (s.keys_of(r).len() as u32, s.included_of(r)),
{
}

/// In every state, a person's key belongs to them and sits in their ring at their position,
/// and every key belongs to a person.
pub proof fn law_person_keys_sit_in_rings<C: RingCrypto>(s: People<C>, who: PersonalId, key: Seq<u8>)
    requires
        s.wf(),
    ensures
        s.records().dom().contains(who) ==> {
            let rec = s.records()[who];
            &&& s.key_owners().dom().contains(rec.key@)
            &&& s.key_owners()[rec.key@] == who
            &&& 1 <= rec.key_index <= s.keys_of(rec.ring_index).len()
            &&& s.keys_of(rec.ring_index)[rec.key_index - 1] == rec.key
        },
        s.key_owners().dom().contains(key) ==> s.records().dom().contains(s.key_owners()[key]),
{
}

/// In every state, the account held under an alias is held under that alias only, and the
/// alias of an account holds that account.
pub proof fn law_alias_accounts_are_inverse<C: RingCrypto>(s: People<C>)
    requires
        s.wf(),
    ensures
        alias_bijection(s.alias_accounts(), s.account_aliases()),
{
}

} // verus!
