//! The fetch-cache coordinator: for one resource key it decides whether the
//! stored bytes are served or the resource is fetched, what is stored after a
//! fetch, and whether a delay is owed before the next request.
//!
//! The coordinator does no reading, fetching or writing itself. It is told
//! what a read or a fetch gave and answers with what to do next; whoever
//! drives it performs that. It never looks inside a payload.

use crate::outcome::outcome_view;
use vstd::prelude::*;
use vstd::string::*;

verus! {

/// The seconds to let pass after a resource had to be fetched.
pub const FETCH_DELAY_SECONDS: u64 = 8;

/// Where a payload came from.
#[derive(Debug, Clone, Copy, PartialEq, Eq, Structural)]
pub enum Origin {
    /// It was fetched just now.
    Fresh,
    /// It was read from the store.
    Cached,
}

/// A resolved resource: its key, its bytes as they were received, and where
/// they came from.
#[derive(Debug, Clone, PartialEq)]
pub struct CacheEntry {
    pub key: String,
    pub payload: Vec<u8>,
    pub origin: Origin,
}

/// The model of a `CacheEntry`.
pub struct CacheEntryView {
    pub key: Seq<char>,
    pub payload: Seq<u8>,
    pub origin: Origin,
}

impl View for CacheEntry {
    type V = CacheEntryView;

    open spec fn view(&self) -> CacheEntryView {
        CacheEntryView { key: self.key@, payload: self.payload@, origin: self.origin }
    }
}

/// The entry of `key` with these bytes and this origin.
pub open spec fn entry(key: Seq<char>, payload: Seq<u8>, origin: Origin) -> CacheEntryView {
    CacheEntryView { key, payload, origin }
}

/// An error that ends the batch.
#[derive(Debug, Clone, PartialEq)]
pub enum BatchError {
    /// A fetch was needed and failed; the transport's message.
    Transport(String),
    /// Bytes from the store could not be decoded; the bytes' text.
    MalformedCache(String),
    /// Bytes just fetched could not be decoded; the bytes' text.
    Decode(String),
}

/// The model of a `BatchError`.
pub enum BatchErrorView {
    Transport(Seq<char>),
    MalformedCache(Seq<char>),
    Decode(Seq<char>),
}

impl View for BatchError {
    type V = BatchErrorView;

    open spec fn view(&self) -> BatchErrorView {
        match self {
            BatchError::Transport(message) => BatchErrorView::Transport(message@),
            BatchError::MalformedCache(raw) => BatchErrorView::MalformedCache(raw@),
            BatchError::Decode(raw) => BatchErrorView::Decode(raw@),
        }
    }
}

/// What reading the slot of a key gave.
#[derive(Debug, Clone, PartialEq)]
pub enum StoreRead {
    /// There is no such slot, or it could not be read.
    Absent,
    /// The bytes of the slot, which may be none.
    Present(Vec<u8>),
}

/// The model of a `StoreRead`.
pub enum StoreReadView {
    Absent,
    Present(Seq<u8>),
}

impl View for StoreRead {
    type V = StoreReadView;

    open spec fn view(&self) -> StoreReadView {
        match self {
            StoreRead::Absent => StoreReadView::Absent,
            StoreRead::Present(bytes) => StoreReadView::Present(bytes@),
        }
    }
}

/// What a fetch gave.
#[derive(Debug, Clone, PartialEq)]
pub enum FetchOutcome {
    /// The whole response body.
    Body(Vec<u8>),
    /// The request failed; the transport's message.
    Failed(String),
}

/// The model of a `FetchOutcome`.
pub enum FetchOutcomeView {
    Body(Seq<u8>),
    Failed(Seq<char>),
}

impl View for FetchOutcome {
    type V = FetchOutcomeView;

    open spec fn view(&self) -> FetchOutcomeView {
        match self {
            FetchOutcome::Body(bytes) => FetchOutcomeView::Body(bytes@),
            FetchOutcome::Failed(message) => FetchOutcomeView::Failed(message@),
        }
    }
}

/// What the coordinator is told.
#[derive(Debug, Clone, PartialEq)]
pub enum Event {
    SlotRead(StoreRead),
    Fetched(FetchOutcome),
}

/// The model of an `Event`.
pub enum EventView {
    SlotRead(StoreReadView),
    Fetched(FetchOutcomeView),
}

impl View for Event {
    type V = EventView;

    open spec fn view(&self) -> EventView {
        match self {
            Event::SlotRead(read) => EventView::SlotRead(read@),
            Event::Fetched(outcome) => EventView::Fetched(outcome@),
        }
    }
}

/// What the coordinator asks for.
#[derive(Debug, Clone, PartialEq)]
pub enum Action {
    /// Issue one request for the key and report what it gave.
    Fetch,
    /// Hand out the entry; nothing is to be stored.
    Deliver(CacheEntry),
    /// Store the entry's bytes in the slot of its key, whole, then hand out
    /// the entry.
    StoreAndDeliver(CacheEntry),
    /// Give up on this resource; nothing is to be stored.
    Fail(BatchError),
}

/// The model of an `Action`.
pub enum ActionView {
    Fetch,
    Deliver(CacheEntryView),
    StoreAndDeliver(CacheEntryView),
    Fail(BatchErrorView),
}

impl View for Action {
    type V = ActionView;

    open spec fn view(&self) -> ActionView {
        match self {
            Action::Fetch => ActionView::Fetch,
            Action::Deliver(entry) => ActionView::Deliver(entry@),
            Action::StoreAndDeliver(entry) => ActionView::StoreAndDeliver(entry@),
            Action::Fail(error) => ActionView::Fail(error@),
        }
    }
}

/// How far the resolution of one key has come.
#[derive(Debug, Clone, Copy, PartialEq, Eq, Structural)]
pub enum Phase {
    /// The slot is being read.
    AwaitingRead,
    /// The slot held nothing; the resource is being fetched.
    AwaitingFetch,
    /// The resource was handed out or given up.
    Finished,
}

/// The coordinator's rule: from a phase and an event to the next phase and
/// the action, or nothing where the event does not belong to the phase.
///
/// A slot with bytes is served as it is. A slot that is absent or empty calls
/// for a fetch. A fetched body is stored and handed out, whatever it holds; a
/// failed fetch is reported and stores nothing.
pub open spec fn transition(phase: Phase, key: Seq<char>, event: EventView) -> Option<
    (Phase, ActionView),
> {
    match phase {
        Phase::AwaitingRead => match event {
            EventView::SlotRead(StoreReadView::Present(bytes)) => if bytes.len() > 0 {
                Some((Phase::Finished, ActionView::Deliver(entry(key, bytes, Origin::Cached))))
            } else {
                Some((Phase::AwaitingFetch, ActionView::Fetch))
            },
            EventView::SlotRead(StoreReadView::Absent) => Some(
                (Phase::AwaitingFetch, ActionView::Fetch),
            ),
            EventView::Fetched(_) => None,
        },
        Phase::AwaitingFetch => match event {
            EventView::Fetched(FetchOutcomeView::Body(bytes)) => Some(
                (Phase::Finished, ActionView::StoreAndDeliver(entry(key, bytes, Origin::Fresh))),
            ),
            EventView::Fetched(FetchOutcomeView::Failed(message)) => Some(
                (Phase::Finished, ActionView::Fail(BatchErrorView::Transport(message))),
            ),
            EventView::SlotRead(_) => None,
        },
        Phase::Finished => None,
    }
}

/// The phase after an event: that of `transition`, or the same phase where
/// the event does not belong to it.
pub open spec fn phase_after(phase: Phase, key: Seq<char>, event: EventView) -> Phase {
    match transition(phase, key, event) {
        Some((next, _)) => next,
        None => phase,
    }
}

/// The resolution of one resource key, step by step.
pub struct Coordinator {
    key: String,
    phase: Phase,
}

impl Coordinator {
    /// The key that is being resolved.
    pub closed spec fn key(&self) -> Seq<char> {
        self.key@
    }

    /// How far the resolution has come.
    pub closed spec fn phase(&self) -> Phase {
        self.phase
    }

    /// Starts the resolution of `key`. The slot of the key is to be read
    /// next, and what that gave reported to `step`.
    pub fn new(key: String) -> (coordinator: Coordinator)
        ensures
            coordinator.key() == key@,
            coordinator.phase() == Phase::AwaitingRead,
    {
        Coordinator { key, phase: Phase::AwaitingRead }
    }

    /// The phase the resolution is in.
    pub fn current_phase(&self) -> (phase: Phase)
        ensures
            phase == self.phase(),
    {
        self.phase
    }

    /// Takes an event and says what to do next, by the rule `transition`.
    /// An event that does not belong to the phase changes nothing and gets no
    /// action.
    pub fn step(&mut self, event: Event) -> (action: Option<Action>)
        ensures
            final(self).key() == old(self).key(),
            final(self).phase() == phase_after(old(self).phase(), old(self).key(), event@),
            action is Some <==> transition(old(self).phase(), old(self).key(), event@) is Some,
            action is Some ==> action->Some_0@ == transition(
                old(self).phase(),
                old(self).key(),
                event@,
            )->Some_0.1,
    {
        match self.phase {
            Phase::AwaitingRead => match event {
                Event::SlotRead(StoreRead::Present(bytes)) => {
                    if bytes.len() > 0 {
                        self.phase = Phase::Finished;
                        Some(
                            Action::Deliver(
                                CacheEntry {
                                    key: self.key.clone(),
                                    payload: bytes,
                                    origin: Origin::Cached,
                                },
                            ),
                        )
                    } else {
                        self.phase = Phase::AwaitingFetch;
                        Some(Action::Fetch)
                    }
                },
                Event::SlotRead(StoreRead::Absent) => {
                    self.phase = Phase::AwaitingFetch;
                    Some(Action::Fetch)
                },
                Event::Fetched(_) => None,
            },
            Phase::AwaitingFetch => match event {
                Event::Fetched(FetchOutcome::Body(bytes)) => {
                    self.phase = Phase::Finished;
                    Some(
                        Action::StoreAndDeliver(
                            CacheEntry {
                                key: self.key.clone(),
                                payload: bytes,
                                origin: Origin::Fresh,
                            },
                        ),
                    )
                },
                Event::Fetched(FetchOutcome::Failed(message)) => {
                    self.phase = Phase::Finished;
                    Some(Action::Fail(BatchError::Transport(message)))
                },
                Event::SlotRead(_) => None,
            },
            Phase::Finished => None,
        }
    }
}

/// The delay policy around the coordinator: a pause after each resource that
/// had to be fetched, none after one that came from the store.
#[derive(Debug, Clone, Copy, PartialEq, Eq, Structural)]
pub struct RateLimiter {
    pub delay_seconds: u64,
}

impl RateLimiter {
    /// The limiter that pauses for `FETCH_DELAY_SECONDS`.
    pub fn standard() -> (limiter: RateLimiter)
        ensures
            limiter.delay_seconds == FETCH_DELAY_SECONDS,
    {
        RateLimiter { delay_seconds: FETCH_DELAY_SECONDS }
    }

    /// The limiter that never pauses.
    pub fn none() -> (limiter: RateLimiter)
        ensures
            limiter.delay_seconds == 0,
    {
        RateLimiter { delay_seconds: 0 }
    }

    /// The seconds to pause after an entry of this origin was processed and
    /// before the next resource is asked for.
    pub fn wait_if_fresh(&self, origin: Origin) -> (seconds: u64)
        ensures
            origin == Origin::Fresh ==> seconds == self.delay_seconds,
            origin == Origin::Cached ==> seconds == 0,
    {
        match origin {
            Origin::Fresh => self.delay_seconds,
            Origin::Cached => 0,
        }
    }
}

/// Says which error it is that an entry's bytes could not be decoded: a
/// malformed cache where they came from the store, a decode error where they
/// were just fetched. Either carries the bytes' text.
pub fn undecodable(origin: Origin, raw: String) -> (error: BatchError)
    ensures
        origin == Origin::Cached ==> error@ == BatchErrorView::MalformedCache(raw@),
        origin == Origin::Fresh ==> error@ == BatchErrorView::Decode(raw@),
{
    match origin {
        Origin::Cached => BatchError::MalformedCache(raw),
        Origin::Fresh => BatchError::Decode(raw),
    }
}

/// The coordinator asks for at most one fetch: only a read can call for one,
/// and whatever the fetch gives ends the resolution, after which no event
/// gets an action.
pub proof fn lemma_at_most_one_fetch(key: Seq<char>, event: EventView, later: EventView)
    ensures
        transition(Phase::AwaitingFetch, key, event) is Some ==> transition(
            Phase::AwaitingFetch,
            key,
            event,
        )->Some_0.0 == Phase::Finished && !(transition(Phase::AwaitingFetch, key, event)->Some_0.1
            is Fetch),
        transition(Phase::AwaitingRead, key, event) is Some && transition(
            Phase::AwaitingRead,
            key,
            event,
        )->Some_0.1 is Fetch ==> transition(Phase::AwaitingRead, key, event)->Some_0.0
            == Phase::AwaitingFetch,
        transition(Phase::Finished, key, later) is None,
{
}

/// What a store holds: the bytes of each slot, by key.
pub type Slots = Map<Seq<char>, Seq<u8>>;

/// What reading the slot of `key` gives.
pub open spec fn slot_of(slots: Slots, key: Seq<char>) -> StoreReadView {
    if slots.contains_key(key) {
        StoreReadView::Present(slots[key])
    } else {
        StoreReadView::Absent
    }
}

/// The slot of `key` holds bytes that can be served.
pub open spec fn is_hit(slots: Slots, key: Seq<char>) -> bool {
    slots.contains_key(key) && slots[key].len() > 0
}

/// A store after a resolution, and what the resolution gave.
pub struct Resolution {
    pub slots: Slots,
    pub outcome: Result<CacheEntryView, BatchErrorView>,
}

/// Resolving `key` against a store, where a fetch would give `remote`.
///
/// A hit serves the stored bytes and leaves the store alone. Otherwise the
/// fetched body is stored under the key and handed out as fresh, or the
/// failure is reported and the store is left alone.
pub open spec fn resolved(slots: Slots, key: Seq<char>, remote: FetchOutcomeView) -> Resolution {
    if is_hit(slots, key) {
        Resolution { slots, outcome: Ok(entry(key, slots[key], Origin::Cached)) }
    } else {
        match remote {
            FetchOutcomeView::Body(bytes) => Resolution {
                slots: slots.insert(key, bytes),
                outcome: Ok(entry(key, bytes, Origin::Fresh)),
            },
            FetchOutcomeView::Failed(message) => Resolution {
                slots,
                outcome: Err(BatchErrorView::Transport(message)),
            },
        }
    }
}

/// One write: a key and the bytes written under it.
struct Written {
    key: String,
    bytes: Vec<u8>,
}

/// What the writes up to now leave in the slot of `key`: the bytes of the
/// latest write under that key.
spec fn latest(log: Seq<Written>, key: Seq<char>) -> StoreReadView
    decreases log.len(),
{
    if log.len() == 0 {
        StoreReadView::Absent
    } else if log.last().key@ == key {
        StoreReadView::Present(log.last().bytes@)
    } else {
        latest(log.drop_last(), key)
    }
}

/// A store in memory. It keeps every write; a slot holds what was written to
/// it last.
pub struct MemoryStore {
    log: Vec<Written>,
}

impl View for MemoryStore {
    type V = Slots;

    closed spec fn view(&self) -> Slots {
        Map::new(
            |key: Seq<char>| latest(self.log@, key) is Present,
            |key: Seq<char>| latest(self.log@, key)->Present_0,
        )
    }
}

impl MemoryStore {
    /// A store without slots.
    pub fn new() -> (store: MemoryStore)
        ensures
            store@ == Slots::empty(),
    {
        let store = MemoryStore { log: Vec::new() };
        proof {
            assert(store@ =~= Slots::empty());
        }
        store
    }

    /// Reads the slot of `key`.
    pub fn read(&self, key: &String) -> (read: StoreRead)
        ensures
            read@ == slot_of(self@, key@),
    {
        let mut i: usize = self.log.len();
        proof {
            assert(self.log@.take(i as int) == self.log@);
        }
        while i > 0
            invariant
                i <= self.log@.len(),
                latest(self.log@, key@) == latest(self.log@.take(i as int), key@),
            decreases i,
        {
            proof {
                assert(self.log@.take(i as int).last() == self.log@[i - 1]);
                assert(self.log@.take(i as int).drop_last() == self.log@.take(i - 1));
            }
            if self.log[i - 1].key == *key {
                let bytes = copy_of(&self.log[i - 1].bytes);
                return StoreRead::Present(bytes);
            }
            i -= 1;
        }
        StoreRead::Absent
    }

    /// Writes `bytes` to the slot of `key`, in place of what it held.
    pub fn write(&mut self, key: String, bytes: Vec<u8>)
        ensures
            final(self)@ == old(self)@.insert(key@, bytes@),
    {
        let ghost before = self.log@;
        self.log.push(Written { key, bytes });
        proof {
            assert(self.log@.drop_last() == before);
            assert(final(self)@ =~= old(self)@.insert(key@, bytes@));
        }
    }
}

/// Copies a list of bytes.
fn copy_of(bytes: &Vec<u8>) -> (copy: Vec<u8>)
    ensures
        copy@ == bytes@,
{
    let mut copy: Vec<u8> = Vec::new();
    let mut i: usize = 0;
    while i < bytes.len()
        invariant
            i <= bytes@.len(),
            copy@ == bytes@.take(i as int),
        decreases bytes@.len() - i,
    {
        copy.push(bytes[i]);
        proof {
            assert(bytes@.take(i + 1) == bytes@.take(i as int).push(bytes@[i as int]));
        }
        i += 1;
    }
    proof {
        assert(bytes@.take(i as int) == bytes@);
    }
    copy
}

/// Resolves `key` against a store in memory, with `remote` standing for what
/// a fetch gives. The coordinator decides each step; the fetch is consulted
/// only where the coordinator asks for it.
pub fn resolve(store: &mut MemoryStore, key: &String, remote: FetchOutcome) -> (outcome: Result<
    CacheEntry,
    BatchError,
>)
    ensures
        final(store)@ == resolved(old(store)@, key@, remote@).slots,
        outcome_view(outcome) == resolved(old(store)@, key@, remote@).outcome,
{
    let mut coordinator = Coordinator::new(key.clone());
    let read = store.read(key);
    match coordinator.step(Event::SlotRead(read)) {
        Some(Action::Deliver(entry)) => Ok(entry),
        Some(Action::Fetch) => match coordinator.step(Event::Fetched(remote)) {
            Some(Action::StoreAndDeliver(entry)) => {
                store.write(entry.key.clone(), copy_of(&entry.payload));
                Ok(entry)
            },
            Some(Action::Fail(error)) => Err(error),
            _ => unreached(),
        },
        _ => unreached(),
    }
}

/// The cache round trip: where the slot of a key holds nothing to serve and
/// the fetch gives a body that is not empty, resolving the key hands out that
/// body as fresh, and resolving it again hands out the same bytes as cached,
/// whatever a fetch would give by then, and leaves the store as it is.
pub proof fn lemma_cache_round_trip(
    slots: Slots,
    key: Seq<char>,
    body: Seq<u8>,
    later: FetchOutcomeView,
)
    requires
        !is_hit(slots, key),
        body.len() > 0,
    ensures
        resolved(slots, key, FetchOutcomeView::Body(body)).outcome == Ok::<
            CacheEntryView,
            BatchErrorView,
        >(entry(key, body, Origin::Fresh)),
        resolved(resolved(slots, key, FetchOutcomeView::Body(body)).slots, key, later).outcome
            == Ok::<CacheEntryView, BatchErrorView>(entry(key, body, Origin::Cached)),
        resolved(resolved(slots, key, FetchOutcomeView::Body(body)).slots, key, later).slots
            == resolved(slots, key, FetchOutcomeView::Body(body)).slots,
{
}

/// Bytes that are served once are served again: after any resolution that
/// hands out an entry with bytes, resolving the same key hands out the same
/// bytes as cached and changes nothing.
pub proof fn lemma_resolved_stays_resolved(
    slots: Slots,
    key: Seq<char>,
    remote: FetchOutcomeView,
    later: FetchOutcomeView,
)
    requires
        resolved(slots, key, remote).outcome is Ok,
        resolved(slots, key, remote).outcome->Ok_0.payload.len() > 0,
    ensures
        resolved(resolved(slots, key, remote).slots, key, later).outcome == Ok::<
            CacheEntryView,
            BatchErrorView,
        >(entry(key, resolved(slots, key, remote).outcome->Ok_0.payload, Origin::Cached)),
        resolved(resolved(slots, key, remote).slots, key, later).slots == resolved(
            slots,
            key,
            remote,
        ).slots,
{
}

/// An empty slot heals: a slot without bytes counts as absent, so resolving
/// its key fetches, and where the body is not empty the slot holds it
/// afterwards and is no longer empty.
pub proof fn lemma_empty_placeholder_heals(slots: Slots, key: Seq<char>, body: Seq<u8>)
    requires
        slots.contains_key(key),
        slots[key].len() == 0,
        body.len() > 0,
    ensures
        transition(Phase::AwaitingRead, key, EventView::SlotRead(slot_of(slots, key))) == Some(
            (Phase::AwaitingFetch, ActionView::Fetch),
        ),
        resolved(slots, key, FetchOutcomeView::Body(body)).outcome == Ok::<
            CacheEntryView,
            BatchErrorView,
        >(entry(key, body, Origin::Fresh)),
        is_hit(resolved(slots, key, FetchOutcomeView::Body(body)).slots, key),
        resolved(slots, key, FetchOutcomeView::Body(body)).slots[key] == body,
{
}

/// A hit needs no fetch: where the slot holds bytes, the resolution is the
/// same whatever a fetch would give, and the store is left alone.
pub proof fn lemma_hit_makes_no_fetch(
    slots: Slots,
    key: Seq<char>,
    remote: FetchOutcomeView,
    other: FetchOutcomeView,
)
    requires
        is_hit(slots, key),
    ensures
        resolved(slots, key, remote) == resolved(slots, key, other),
        resolved(slots, key, remote).slots == slots,
        transition(Phase::AwaitingRead, key, EventView::SlotRead(slot_of(slots, key))) is Some,
        transition(Phase::AwaitingRead, key, EventView::SlotRead(slot_of(slots, key)))->Some_0.1
            is Deliver,
{
}

/// A failed fetch is reported and leaves nothing behind: the outcome is the
/// transport's error and the store is as it was, so a later run fetches
/// again.
pub proof fn lemma_failed_fetch_stores_nothing(slots: Slots, key: Seq<char>, message: Seq<char>)
    requires
        !is_hit(slots, key),
    ensures
        resolved(slots, key, FetchOutcomeView::Failed(message)).outcome == Err::<
            CacheEntryView,
            BatchErrorView,
        >(BatchErrorView::Transport(message)),
        resolved(slots, key, FetchOutcomeView::Failed(message)).slots == slots,
        !is_hit(resolved(slots, key, FetchOutcomeView::Failed(message)).slots, key),
{
}

/// A resolution touches no slot but that of its key.
pub proof fn lemma_other_slots_are_kept(
    slots: Slots,
    key: Seq<char>,
    remote: FetchOutcomeView,
    other: Seq<char>,
)
    requires
        other != key,
    ensures
        slot_of(resolved(slots, key, remote).slots, other) == slot_of(slots, other),
{
}

} // verus!
