//! Lock primitives and the lock journal.
//!
//! Two tiers of readers-writer locks guard the stores. An access lock, one
//! per store family, guards the structure of a pool; an instance lock, one
//! per open store, guards what that store holds. `StoreLock` is the state of
//! one such lock. `StoreLockJournal` records, in order, every acquisition and
//! release that an operation performs, and `disciplined` says of such a
//! record that it obeys the global lock order.
use vstd::prelude::*;

verus! {

/// The store family a lock belongs to.
#[derive(Clone, Copy, Debug, PartialEq, Eq, Structural)]
pub enum StoreLockFamily {
    KV,
    FST,
}

/// The tier of a lock: the access lock of a pool, or the lock of one instance.
#[derive(Clone, Copy, Debug, PartialEq, Eq, Structural)]
pub enum StoreLockTier {
    Access,
    Instance,
}

/// How a lock is taken: shared with other readers, or exclusively.
#[derive(Clone, Copy, Debug, PartialEq, Eq, Structural)]
pub enum StoreLockMode {
    Shared,
    Exclusive,
}

/// Whether a journal entry marks the taking or the giving back of a lock.
#[derive(Clone, Copy, Debug, PartialEq, Eq, Structural)]
pub enum StoreLockPhase {
    Acquire,
    Release,
}

/// What a lock is at one moment: free, shared by a positive number of
/// readers, or held by one writer.
pub enum StoreLockState {
    Free,
    Shared(nat),
    Exclusive,
}

impl StoreLockState {
    /// A lock that is shared has at least one reader.
    pub open spec fn wf(self) -> bool {
        self matches StoreLockState::Shared(readers) ==> readers > 0
    }

    /// Whether a request in `mode` is granted at once in this state: a reader
    /// joins unless a writer holds the lock, a writer needs the lock free.
    pub open spec fn admits(self, mode: StoreLockMode) -> bool {
        match mode {
            StoreLockMode::Shared => match self {
                StoreLockState::Free => true,
                StoreLockState::Shared(readers) => readers < usize::MAX,
                StoreLockState::Exclusive => false,
            },
            StoreLockMode::Exclusive => self is Free,
        }
    }

    /// Whether the lock is currently held in `mode` by someone.
    pub open spec fn held(self, mode: StoreLockMode) -> bool {
        match mode {
            StoreLockMode::Shared => self is Shared,
            StoreLockMode::Exclusive => self is Exclusive,
        }
    }

    /// Whether the lock is held at all.
    pub open spec fn held_any(self) -> bool {
        !(self is Free)
    }

    /// The state after a granted request in `mode`.
    pub open spec fn acquired(self, mode: StoreLockMode) -> StoreLockState {
        match mode {
            StoreLockMode::Shared => match self {
                StoreLockState::Shared(readers) => StoreLockState::Shared(readers + 1),
                _ => StoreLockState::Shared(1),
            },
            StoreLockMode::Exclusive => StoreLockState::Exclusive,
        }
    }

    /// The state after one holder in `mode` has let go.
    pub open spec fn released(self, mode: StoreLockMode) -> StoreLockState {
        match (mode, self) {
            (StoreLockMode::Shared, StoreLockState::Shared(readers)) => if readers > 1 {
                StoreLockState::Shared((readers - 1) as nat)
            } else {
                StoreLockState::Free
            },
            _ => StoreLockState::Free,
        }
    }
}

/// Taking a lock and giving it back leaves it as it was found, and while it
/// is held in one mode it admits no writer; held by a writer it admits
/// nobody.
pub proof fn lemma_lock_round_trip(state: StoreLockState, mode: StoreLockMode)
    requires
        state.wf(),
        state.admits(mode),
    ensures
        state.acquired(mode).wf(),
        state.acquired(mode).held(mode),
        state.acquired(mode).released(mode) == state,
        !state.acquired(mode).admits(StoreLockMode::Exclusive),
        mode is Exclusive ==> !state.acquired(mode).admits(StoreLockMode::Shared),
{
}

/// A readers-writer lock, as a state: the number of readers and whether a
/// writer is in.
pub struct StoreLock {
    readers: usize,
    writer: bool,
}

impl View for StoreLock {
    type V = StoreLockState;

    closed spec fn view(&self) -> StoreLockState {
        if self.writer {
            StoreLockState::Exclusive
        } else if self.readers == 0 {
            StoreLockState::Free
        } else {
            StoreLockState::Shared(self.readers as nat)
        }
    }
}

impl StoreLock {
    /// A lock that nobody holds.
    pub fn new() -> (lock: StoreLock)
        ensures
            lock@ is Free,
    {
        StoreLock { readers: 0, writer: false }
    }

    /// Whether nobody holds the lock.
    pub fn is_free(&self) -> (free: bool)
        ensures
            free == (self@ is Free),
    {
        !self.writer && self.readers == 0
    }

    /// Whether a request in `mode` would be granted at once.
    pub fn admits(&self, mode: StoreLockMode) -> (admitted: bool)
        ensures
            admitted == self@.admits(mode),
    {
        match mode {
            StoreLockMode::Shared => !self.writer && self.readers < usize::MAX,
            StoreLockMode::Exclusive => !self.writer && self.readers == 0,
        }
    }

    /// Asks for the lock in `mode` without waiting. The request is granted
    /// exactly when the state admits it; a refused request changes nothing.
    pub fn try_acquire(&mut self, mode: StoreLockMode) -> (granted: bool)
        ensures
            granted == old(self)@.admits(mode),
            granted ==> final(self)@ == old(self)@.acquired(mode),
            !granted ==> final(self)@ == old(self)@,
    {
        match mode {
            StoreLockMode::Shared => {
                if self.writer || self.readers == usize::MAX {
                    false
                } else {
                    self.readers = self.readers + 1;
                    true
                }
            },
            StoreLockMode::Exclusive => {
                if self.writer || self.readers != 0 {
                    false
                } else {
                    self.writer = true;
                    true
                }
            },
        }
    }

    /// Takes the lock in `mode`, in a state that is known to admit it. A
    /// caller that can show this never waits on itself.
    pub fn acquire(&mut self, mode: StoreLockMode)
        requires
            old(self)@.admits(mode),
        ensures
            final(self)@ == old(self)@.acquired(mode),
    {
        match mode {
            StoreLockMode::Shared => {
                self.readers = self.readers + 1;
            },
            StoreLockMode::Exclusive => {
                self.writer = true;
            },
        }
    }

    /// Gives back one hold in `mode`.
    pub fn release(&mut self, mode: StoreLockMode)
        requires
            old(self)@.held(mode),
        ensures
            final(self)@ == old(self)@.released(mode),
    {
        match mode {
            StoreLockMode::Shared => {
                self.readers = self.readers - 1;
            },
            StoreLockMode::Exclusive => {
                self.writer = false;
                self.readers = 0;
            },
        }
    }
}

/// One entry of the lock journal.
pub struct StoreLockEvent {
    /// The identifier of the operation that took or gave back the lock.
    pub id: String,
    pub family: StoreLockFamily,
    pub tier: StoreLockTier,
    pub mode: StoreLockMode,
    pub phase: StoreLockPhase,
}

/// A journal entry as a plain value.
pub struct StoreLockEventView {
    pub id: Seq<char>,
    pub family: StoreLockFamily,
    pub tier: StoreLockTier,
    pub mode: StoreLockMode,
    pub phase: StoreLockPhase,
}

impl View for StoreLockEvent {
    type V = StoreLockEventView;

    open spec fn view(&self) -> StoreLockEventView {
        StoreLockEventView {
            id: self.id@,
            family: self.family,
            tier: self.tier,
            mode: self.mode,
            phase: self.phase,
        }
    }
}

/// The entry that marks the taking of a lock.
pub open spec fn acquire_event(
    id: Seq<char>,
    family: StoreLockFamily,
    tier: StoreLockTier,
    mode: StoreLockMode,
) -> StoreLockEventView {
    StoreLockEventView { id, family, tier, mode, phase: StoreLockPhase::Acquire }
}

/// The entry that marks the giving back of a lock.
pub open spec fn release_event(
    id: Seq<char>,
    family: StoreLockFamily,
    tier: StoreLockTier,
    mode: StoreLockMode,
) -> StoreLockEventView {
    StoreLockEventView { id, family, tier, mode, phase: StoreLockPhase::Release }
}

/// The place of a lock in the global order: access locks come before
/// instance locks, and within a tier the key/value family comes before the
/// full-text family.
pub open spec fn lock_rank(family: StoreLockFamily, tier: StoreLockTier) -> int {
    match (tier, family) {
        (StoreLockTier::Access, StoreLockFamily::KV) => 0,
        (StoreLockTier::Access, StoreLockFamily::FST) => 1,
        (StoreLockTier::Instance, StoreLockFamily::KV) => 2,
        (StoreLockTier::Instance, StoreLockFamily::FST) => 3,
    }
}

/// One step of replaying a journal against the stack of locks held so far.
/// Taking a lock is in order when every lock held ranks below it, which, the
/// stack being sorted, is to say that the top one does. Giving a lock back is
/// in order when it is the one taken last. `None` marks a breach.
pub open spec fn replay_step(held: Seq<StoreLockEventView>, event: StoreLockEventView) -> Option<
    Seq<StoreLockEventView>,
> {
    match event.phase {
        StoreLockPhase::Acquire => if held.len() == 0 || lock_rank(
            held.last().family,
            held.last().tier,
        ) < lock_rank(event.family, event.tier) {
            Some(held.push(event))
        } else {
            None
        },
        StoreLockPhase::Release => if held.len() > 0 && held.last().family == event.family
            && held.last().tier == event.tier && held.last().mode == event.mode {
            Some(held.drop_last())
        } else {
            None
        },
    }
}

/// Replays `events` from the first to the last, starting with `held`, and
/// returns the locks still held at the end, or `None` after a breach.
pub open spec fn replay(held: Seq<StoreLockEventView>, events: Seq<StoreLockEventView>) -> Option<
    Seq<StoreLockEventView>,
>
    decreases events.len(),
{
    if events.len() == 0 {
        Some(held)
    } else {
        match replay(held, events.drop_last()) {
            Some(before) => replay_step(before, events.last()),
            None => None,
        }
    }
}

/// Whether the locks of a stack rank in strictly rising order from the
/// bottom to the top.
pub open spec fn rising(held: Seq<StoreLockEventView>) -> bool {
    forall|i: int, j: int|
        0 <= i < j < held.len() ==> lock_rank((#[trigger] held[i]).family, held[i].tier)
            < lock_rank((#[trigger] held[j]).family, held[j].tier)
}

/// Replaying in order keeps a rising stack rising. So where a lock is taken
/// in order, every lock held at that moment ranks below it, not the top one
/// alone, and no lock is ever taken while it is held.
pub proof fn lemma_replay_rising(held: Seq<StoreLockEventView>, events: Seq<StoreLockEventView>)
    requires
        rising(held),
        replay(held, events) is Some,
    ensures
        rising(replay(held, events)->Some_0),
    decreases events.len(),
{
    if events.len() > 0 {
        lemma_replay_rising(held, events.drop_last());
    }
}

/// The lock discipline of one operation: locks are taken in rising rank,
/// given back in the reverse order of their taking, and none is kept.
pub open spec fn disciplined(events: Seq<StoreLockEventView>) -> bool {
    replay(Seq::empty(), events) == Some(Seq::<StoreLockEventView>::empty())
}

/// Replaying a journal that grew by one entry is one more step.
pub proof fn lemma_replay_push(
    held: Seq<StoreLockEventView>,
    events: Seq<StoreLockEventView>,
    event: StoreLockEventView,
)
    ensures
        replay(held, events.push(event)) == match replay(held, events) {
            Some(before) => replay_step(before, event),
            None => None,
        },
{
    assert(events.push(event).drop_last() =~= events);
}

/// What a journal holds beyond what it held before.
pub open spec fn appended(before: Seq<StoreLockEventView>, after: Seq<StoreLockEventView>) -> Seq<
    StoreLockEventView,
> {
    after.subrange(before.len() as int, after.len() as int)
}

/// What was appended to a journal is what it now holds behind the old
/// entries.
pub proof fn lemma_appended(before: Seq<StoreLockEventView>, events: Seq<StoreLockEventView>)
    ensures
        appended(before, before + events) == events,
{
}

/// A lock that is taken and given back at once, with nothing in between
/// but events that are in order above it, is in order itself. This is the
/// step by which the journal of an operation is shown to be disciplined from
/// the innermost lock outwards.
pub proof fn lemma_replay_bracket(
    held: Seq<StoreLockEventView>,
    inner: Seq<StoreLockEventView>,
    id: Seq<char>,
    family: StoreLockFamily,
    tier: StoreLockTier,
    mode: StoreLockMode,
)
    requires
        held.len() == 0 || lock_rank(held.last().family, held.last().tier) < lock_rank(
            family,
            tier,
        ),
        replay(held.push(acquire_event(id, family, tier, mode)), inner) == Some(
            held.push(acquire_event(id, family, tier, mode)),
        ),
    ensures
        replay(
            held,
            seq![acquire_event(id, family, tier, mode)] + inner + seq![
                release_event(id, family, tier, mode),
            ],
        ) == Some(held),
{
    let taken = acquire_event(id, family, tier, mode);
    let given = release_event(id, family, tier, mode);
    lemma_replay_prefix(held, seq![taken], inner);
    lemma_replay_push(held, Seq::<StoreLockEventView>::empty(), taken);
    lemma_replay_push(held, seq![taken] + inner, given);
    assert((seq![taken] + inner).push(given) =~= seq![taken] + inner + seq![given]);
}

/// Replaying two journals one after the other is replaying the second from
/// where the first ended.
pub proof fn lemma_replay_prefix(
    held: Seq<StoreLockEventView>,
    first: Seq<StoreLockEventView>,
    second: Seq<StoreLockEventView>,
)
    ensures
        replay(held, first + second) == match replay(held, first) {
            Some(between) => replay(between, second),
            None => None,
        },
    decreases second.len(),
{
    if second.len() == 0 {
    } else {
        lemma_replay_prefix(held, first, second.drop_last());
        assert((first + second).drop_last() =~= first + second.drop_last());
    }
}

/// The journal of lock events, oldest first.
pub struct StoreLockJournal {
    events: Vec<StoreLockEvent>,
}

impl View for StoreLockJournal {
    type V = Seq<StoreLockEventView>;

    closed spec fn view(&self) -> Seq<StoreLockEventView> {
        Seq::new(self.events@.len(), |i: int| self.events@[i]@)
    }
}

impl StoreLockJournal {
    /// An empty journal.
    pub fn new() -> (journal: StoreLockJournal)
        ensures
            journal@ == Seq::<StoreLockEventView>::empty(),
    {
        let journal = StoreLockJournal { events: Vec::new() };
        journal
    }

    /// The number of entries.
    pub fn len(&self) -> (n: usize)
        ensures
            n == self@.len(),
    {
        self.events.len()
    }

    /// The entry at `index`, counted from the oldest.
    pub fn event(&self, index: usize) -> (event: &StoreLockEvent)
        requires
            index < self@.len(),
        ensures
            event@ == self@[index as int],
    {
        &self.events[index]
    }

    /// Appends one entry.
    pub fn record(
        &mut self,
        id: &String,
        family: StoreLockFamily,
        tier: StoreLockTier,
        mode: StoreLockMode,
        phase: StoreLockPhase,
    )
        ensures
            final(self)@ == old(self)@.push(
                StoreLockEventView { id: id@, family, tier, mode, phase },
            ),
    {
        let event = StoreLockEvent { id: id.clone(), family, tier, mode, phase };
        self.events.push(event);
    }

    /// Drops every entry.
    pub fn clear(&mut self)
        ensures
            final(self)@ == Seq::<StoreLockEventView>::empty(),
    {
        self.events.clear();
    }
}

} // verus!
