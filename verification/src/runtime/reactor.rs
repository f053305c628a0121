//! The reactor: who waits for which readiness handle, and what to do next.
//!
//! The reactor performs no I/O. A driver runs the loop around it: it resumes
//! the computations that a [`Turn::Resume`] names, returns on
//! [`Turn::Return`], and on [`Turn::Block`] asks the host to wait until one of
//! the listed handles is ready, then reports what the host answered with
//! [`Reactor::notify`]. A computation that is resumed asks with
//! [`Reactor::consume`] or [`Reactor::race`] whether what it waited for has
//! come, which takes its registration out of the table.

use vstd::prelude::*;

verus! {

/// The key of a registration: the index of its slot in the table.
pub type EventKey = usize;

/// A computation that waits for a readiness handle.
#[derive(Debug, Clone, Copy, PartialEq, Eq, Structural)]
pub struct Registration {
    /// The host's handle for the event waited for.
    pub handle: u32,
    /// The resume slot of the computation that waits.
    pub waker: u64,
    /// Whether the host has reported the handle as ready.
    pub ready: bool,
}

/// The state of a reactor.
pub struct Table {
    /// The slots of the table; a registration's key is the index of its slot.
    pub slots: Seq<Option<Registration>>,
    /// The keys whose handles are ready and whose computations were not
    /// resumed yet, in the order in which the host reported them.
    pub queue: Seq<EventKey>,
}

impl Table {
    /// Whether `key` names a registration.
    pub open spec fn registered(self, key: EventKey) -> bool {
        key < self.slots.len() && self.slots[key as int] is Some
    }

    /// Whether `key` names a registration whose handle is known to be ready.
    pub open spec fn is_ready(self, key: EventKey) -> bool {
        self.registered(key) && self.slots[key as int]->0.ready
    }

    /// Whether the computation under `key` is due to be resumed.
    pub open spec fn queued(self, key: EventKey) -> bool {
        self.queue.contains(key)
    }

    /// Every slot has a key, every queued key names a ready registration, and
    /// none is queued twice.
    pub open spec fn wf(self) -> bool {
        &&& self.slots.len() <= usize::MAX
        &&& self.queue.no_duplicates()
        &&& forall|i: int| 0 <= i < self.queue.len() ==> self.is_ready(#[trigger] self.queue[i])
    }

    /// Whether every slot below `key` is taken and the slot of `key`, if the
    /// table has one, is vacant: `key` is the lowest vacant place.
    pub open spec fn lowest_vacant(self, key: EventKey) -> bool {
        &&& key <= self.slots.len()
        &&& !self.registered(key)
        &&& forall|j: EventKey| j < key ==> self.registered(j)
    }

    /// The table with `registration` stored under `key`.
    pub open spec fn insert(self, key: EventKey, registration: Registration) -> Table {
        if key < self.slots.len() {
            Table { slots: self.slots.update(key as int, Some(registration)), ..self }
        } else {
            Table { slots: self.slots.push(Some(registration)), ..self }
        }
    }

    /// The table without the registration under `key`: its slot is vacant and
    /// it is no longer queued.
    pub open spec fn remove(self, key: EventKey) -> Table {
        Table {
            slots: if key < self.slots.len() {
                self.slots.update(key as int, None)
            } else {
                self.slots
            },
            queue: if self.queue.contains(key) {
                self.queue.remove(self.queue.index_of(key))
            } else {
                self.queue
            },
        }
    }

    /// The table after the host reported the handle under `key` as ready: the
    /// registration is marked and queued. A key that names no registration,
    /// or one that is marked already, changes nothing.
    pub open spec fn mark(self, key: EventKey) -> Table {
        if self.registered(key) && !self.is_ready(key) {
            Table {
                slots: self.slots.update(
                    key as int,
                    Some(Registration { ready: true, ..self.slots[key as int]->0 }),
                ),
                queue: self.queue.push(key),
            }
        } else {
            self
        }
    }

    /// The registrations in the first `n` slots whose handles are not known
    /// to be ready, each as its key and its handle, in the order of the keys.
    pub open spec fn outstanding_below(self, n: nat) -> Seq<(EventKey, u32)>
        decreases n,
    {
        if n == 0 {
            Seq::empty()
        } else {
            let before = self.outstanding_below((n - 1) as nat);
            match self.slots[n - 1] {
                Some(r) => if r.ready {
                    before
                } else {
                    before.push(((n - 1) as EventKey, r.handle))
                },
                None => before,
            }
        }
    }

    /// The registrations whose handles are not known to be ready, each as its
    /// key and its handle, in the order of the keys: what the host is asked
    /// to wait for.
    pub open spec fn outstanding(self) -> Seq<(EventKey, u32)> {
        self.outstanding_below(self.slots.len())
    }

    /// The table after the host reported `indexes` as ready, each an index
    /// into `outstanding()`, in the host's order. An index past the end of
    /// that list changes nothing, nor does one that comes a second time.
    pub open spec fn notified(self, indexes: Seq<u32>) -> Table
        decreases indexes.len(),
    {
        if indexes.len() == 0 {
            self
        } else {
            let before = self.notified(indexes.drop_last());
            if indexes.last() < self.outstanding().len() {
                before.mark(self.outstanding()[indexes.last() as int].0)
            } else {
                before
            }
        }
    }

    /// The resume slots of the queued computations, in the order of the
    /// queue.
    pub open spec fn wakers(self) -> Seq<u64> {
        Seq::new(
            self.queue.len(),
            |i: int|
                match self.slots[self.queue[i] as int] {
                    Some(r) => r.waker,
                    None => 0,
                },
        )
    }

    /// The table after every queued computation was handed out to be
    /// resumed: the queue is empty, the registrations stay until the
    /// computations consume them.
    pub open spec fn drained(self) -> Table {
        Table { queue: Seq::empty(), ..self }
    }

    /// What the driver does next: resume what is queued before anything else,
    /// return once the root computation is complete, and block only when
    /// nothing else is left to do.
    pub open spec fn next_action(self, root_complete: bool) -> Action {
        if self.queue.len() > 0 {
            Action::Resume
        } else if root_complete {
            Action::Return
        } else {
            Action::Block
        }
    }
}

/// What the driver of a reactor does next.
#[derive(Debug, Clone, Copy, PartialEq, Eq, Structural)]
pub enum Action {
    /// Resume the computations whose handles are ready.
    Resume,
    /// Return the result of the root computation.
    Return,
    /// Ask the host to block until a handle is ready.
    Block,
}

/// One turn of the driver's loop: the action, with what it needs.
#[derive(Debug)]
pub enum Turn {
    /// Resume the computations with these resume slots, in this order.
    Resume(Vec<u64>),
    /// Return the result of the root computation.
    Return,
    /// Ask the host to block until one of these handles is ready, and report
    /// the indexes it answers with to [`Reactor::notify`]. The list is empty
    /// when no computation waits for the host: nothing can resume the root
    /// computation then.
    Block(Vec<u32>),
}

/// The side that won a race.
#[derive(Debug, Clone, Copy, PartialEq, Eq, Structural)]
pub enum Winner {
    /// The operation became ready: its result stands.
    Operation,
    /// The timer expired first: the operation timed out.
    Timer,
}

/// The winner of a race, given which side is ready: the operation if it is
/// ready, else the timer if it is, else nobody yet.
pub open spec fn race_winner(operation_ready: bool, timer_ready: bool) -> Option<Winner> {
    if operation_ready {
        Some(Winner::Operation)
    } else if timer_ready {
        Some(Winner::Timer)
    } else {
        None
    }
}

/// The handles of a list of registrations, in order.
pub open spec fn handles_of(list: Seq<(EventKey, u32)>) -> Seq<u32> {
    Seq::new(list.len(), |i: int| list[i].1)
}

/// The single-threaded reactor.
#[derive(Debug)]
pub struct Reactor {
    slots: Vec<Option<Registration>>,
    queue: Vec<EventKey>,
}

impl View for Reactor {
    type V = Table;

    closed spec fn view(&self) -> Table {
        Table { slots: self.slots@, queue: self.queue@ }
    }
}

/// The index at which `key` stands in `list`, if it stands there.
fn find(list: &Vec<EventKey>, key: EventKey) -> (at: Option<usize>)
    ensures
        match at {
            Some(i) => i < list@.len() && list@[i as int] == key,
            None => !list@.contains(key),
        },
{
    let mut i: usize = 0;
    while i < list.len()
        invariant
            i <= list@.len(),
            forall|j: int| 0 <= j < i ==> list@[j] != key,
        decreases list@.len() - i,
    {
        if list[i] == key {
            return Some(i);
        }
        i += 1;
    }
    None
}

impl Reactor {
    /// A reactor with nothing registered.
    pub fn new() -> (r: Reactor)
        ensures
            r@.slots.len() == 0,
            r@.queue.len() == 0,
            r@.wf(),
    {
        Reactor { slots: Vec::new(), queue: Vec::new() }
    }

    /// Whether `key` names a registration.
    pub fn is_registered(&self, key: EventKey) -> (b: bool)
        ensures
            b == self@.registered(key),
    {
        key < self.slots.len() && self.slots[key].is_some()
    }

    /// The registration under `key`, if there is one.
    pub fn get(&self, key: EventKey) -> (r: Option<Registration>)
        ensures
            r == if self@.registered(key) {
                self@.slots[key as int]
            } else {
                None
            },
    {
        if key < self.slots.len() {
            self.slots[key]
        } else {
            None
        }
    }

    /// Whether `key` names a registration whose handle is known to be ready.
    pub fn is_ready(&self, key: EventKey) -> (b: bool)
        ensures
            b == self@.is_ready(key),
    {
        match self.get(key) {
            Some(r) => r.ready,
            None => false,
        }
    }

    /// Registers that the computation with resume slot `waker` waits for
    /// `handle`, in the lowest vacant slot, and returns the key.
    pub fn register(&mut self, handle: u32, waker: u64) -> (key: EventKey)
        requires
            old(self)@.wf(),
        ensures
            old(self)@.lowest_vacant(key),
            final(self)@ == old(self)@.insert(key, Registration { handle, waker, ready: false }),
            final(self)@.wf(),
    {
        let registration = Registration { handle, waker, ready: false };
        let mut i: usize = 0;
        while i < self.slots.len() && self.slots[i].is_some()
            invariant
                i <= self.slots@.len(),
                *self == *old(self),
                forall|j: EventKey| j < i ==> self@.registered(j),
            decreases self.slots@.len() - i,
        {
            i += 1;
        }
        if i < self.slots.len() {
            self.slots[i] = Some(registration);
        } else {
            self.slots.push(Some(registration));
        }
        proof {
            assert(self@ == old(self)@.insert(i, registration));
            assert(self@.slots.len() == self.slots.len());
            assert forall|j: int| 0 <= j < self@.queue.len() implies self@.is_ready(
                #[trigger] self@.queue[j],
            ) by {
                assert(old(self)@.is_ready(old(self)@.queue[j]));
            }
        }
        i
    }

    /// Removes the registration under `key` and returns it: the computation
    /// stops waiting. What the host has already done for the handle is not
    /// undone.
    pub fn deregister(&mut self, key: EventKey) -> (r: Option<Registration>)
        requires
            old(self)@.wf(),
        ensures
            r == if old(self)@.registered(key) {
                old(self)@.slots[key as int]
            } else {
                None
            },
            final(self)@ == old(self)@.remove(key),
            final(self)@.wf(),
    {
        let found = self.get(key);
        match find(&self.queue, key) {
            Some(i) => {
                proof {
                    let j = self@.queue.index_of(key);
                    assert(self@.queue[j] == key);
                    assert(j == i);
                }
                let _ = self.queue.remove(i);
            },
            None => {},
        }
        if key < self.slots.len() {
            self.slots[key] = None;
        }
        proof {
            assert(self@ == old(self)@.remove(key));
            lemma_remove_forgets_key(old(self)@, key);
        }
        found
    }

    /// Asks whether what the computation under `key` waits for has come. If
    /// the handle is ready the registration is taken out of the table and the
    /// answer is `true`; otherwise nothing changes.
    pub fn consume(&mut self, key: EventKey) -> (came: bool)
        requires
            old(self)@.wf(),
        ensures
            came == old(self)@.is_ready(key),
            final(self)@ == if came {
                old(self)@.remove(key)
            } else {
                old(self)@
            },
            final(self)@.wf(),
    {
        if self.is_ready(key) {
            let _ = self.deregister(key);
            true
        } else {
            false
        }
    }

    /// The registrations whose handles are not known to be ready, each as its
    /// key and its handle, in the order of the keys.
    pub fn outstanding(&self) -> (list: Vec<(EventKey, u32)>)
        ensures
            list@ == self@.outstanding(),
    {
        let mut list: Vec<(EventKey, u32)> = Vec::new();
        let mut i: usize = 0;
        while i < self.slots.len()
            invariant
                i <= self.slots@.len(),
                list@ == self@.outstanding_below(i as nat),
            decreases self.slots@.len() - i,
        {
            match self.slots[i] {
                Some(r) => {
                    if !r.ready {
                        list.push((i, r.handle));
                    }
                },
                None => {},
            }
            i += 1;
        }
        list
    }

    /// Records that the host reported the handle under `key` as ready, and
    /// returns whether this was news: `false` for a key that names no
    /// registration or one that is marked already, which changes nothing.
    pub fn mark_ready(&mut self, key: EventKey) -> (news: bool)
        requires
            old(self)@.wf(),
        ensures
            news == (old(self)@.registered(key) && !old(self)@.is_ready(key)),
            final(self)@ == old(self)@.mark(key),
            final(self)@.wf(),
    {
        match self.get(key) {
            Some(r) => {
                if r.ready {
                    return false;
                }
                self.slots[key] = Some(Registration { handle: r.handle, waker: r.waker, ready: true });
                self.queue.push(key);
                proof {
                    assert(self@ == old(self)@.mark(key));
                    lemma_mark_keeps_wf(old(self)@, key);
                }
                true
            },
            None => false,
        }
    }

    /// Records what the host answered to a wait: `indexes` are positions in
    /// the list of [`Reactor::outstanding`], in the host's order. The
    /// computations are queued to be resumed in that order.
    pub fn notify(&mut self, indexes: &[u32])
        requires
            old(self)@.wf(),
        ensures
            final(self)@ == old(self)@.notified(indexes@),
            final(self)@.wf(),
    {
        let list = self.outstanding();
        let mut i: usize = 0;
        while i < indexes.len()
            invariant
                i <= indexes@.len(),
                list@ == old(self)@.outstanding(),
                self@ == old(self)@.notified(indexes@.take(i as int)),
                self@.wf(),
            decreases indexes@.len() - i,
        {
            proof {
                assert(indexes@.take(i + 1).drop_last() =~= indexes@.take(i as int));
            }
            let at = indexes[i] as usize;
            if at < list.len() {
                let _ = self.mark_ready(list[at].0);
            }
            i += 1;
        }
        proof {
            assert(indexes@.take(i as int) =~= indexes@);
        }
    }

    /// Empties the queue and returns the resume slots of the computations
    /// that were in it, in the order in which the host reported them. The
    /// registrations stay until the computations consume them.
    pub fn drain(&mut self) -> (wakers: Vec<u64>)
        requires
            old(self)@.wf(),
        ensures
            wakers@ == old(self)@.wakers(),
            final(self)@ == old(self)@.drained(),
            final(self)@.wf(),
    {
        let mut wakers: Vec<u64> = Vec::new();
        let mut i: usize = 0;
        while i < self.queue.len()
            invariant
                i <= self.queue@.len(),
                *self == *old(self),
                self@.wf(),
                wakers@ == self@.wakers().take(i as int),
            decreases self.queue@.len() - i,
        {
            let key = self.queue[i];
            proof {
                assert(self@.is_ready(self@.queue[i as int]));
            }
            match self.slots[key] {
                Some(r) => {
                    wakers.push(r.waker);
                },
                None => {},
            }
            proof {
                assert(wakers@ =~= self@.wakers().take(i + 1));
            }
            i += 1;
        }
        self.queue = Vec::new();
        proof {
            assert(wakers@ =~= old(self)@.wakers());
            assert(self@.queue =~= old(self)@.drained().queue);
        }
        wakers
    }

    /// What the driver does next, given whether the root computation is
    /// complete.
    pub fn next_action(&self, root_complete: bool) -> (action: Action)
        ensures
            action == self@.next_action(root_complete),
    {
        if self.queue.len() > 0 {
            Action::Resume
        } else if root_complete {
            Action::Return
        } else {
            Action::Block
        }
    }

    /// One turn of the driver's loop.
    ///
    /// Whatever is queued is drained and handed out to be resumed, before
    /// anything else. With nothing queued, the loop returns if the root
    /// computation is complete; otherwise the host is to block on every
    /// handle that is registered and not known to be ready. Only a drain
    /// changes the table.
    pub fn turn(&mut self, root_complete: bool) -> (turn: Turn)
        requires
            old(self)@.wf(),
        ensures
            final(self)@.wf(),
            match old(self)@.next_action(root_complete) {
                Action::Resume => turn matches Turn::Resume(wakers) && wakers@ == old(
                    self,
                )@.wakers() && final(self)@ == old(self)@.drained(),
                Action::Return => turn is Return && final(self)@ == old(self)@,
                Action::Block => turn matches Turn::Block(handles) && handles@ == handles_of(
                    old(self)@.outstanding(),
                ) && final(self)@ == old(self)@,
            },
    {
        match self.next_action(root_complete) {
            Action::Resume => Turn::Resume(self.drain()),
            Action::Return => Turn::Return,
            Action::Block => {
                let list = self.outstanding();
                let mut handles: Vec<u32> = Vec::new();
                let mut i: usize = 0;
                while i < list.len()
                    invariant
                        i <= list@.len(),
                        handles@ == handles_of(list@.take(i as int)),
                    decreases list@.len() - i,
                {
                    handles.push(list[i].1);
                    proof {
                        assert(handles@ =~= handles_of(list@.take(i + 1)));
                    }
                    i += 1;
                }
                proof {
                    assert(list@.take(i as int) =~= list@);
                }
                Turn::Block(handles)
            },
        }
    }

    /// Decides a race between the operation registered under `operation` and
    /// the timer registered under `timer`.
    ///
    /// The operation wins if it is ready, else the timer if it is. On a win
    /// both registrations leave the table: the winner's readiness is consumed
    /// and the loser stops waiting at once. With neither ready the race goes
    /// on and nothing changes.
    pub fn race(&mut self, operation: EventKey, timer: EventKey) -> (winner: Option<Winner>)
        requires
            old(self)@.wf(),
        ensures
            winner == race_winner(old(self)@.is_ready(operation), old(self)@.is_ready(timer)),
            final(self)@ == if winner is Some {
                old(self)@.remove(operation).remove(timer)
            } else {
                old(self)@
            },
            final(self)@.wf(),
    {
        let winner = if self.is_ready(operation) {
            Some(Winner::Operation)
        } else if self.is_ready(timer) {
            Some(Winner::Timer)
        } else {
            None
        };
        if winner.is_some() {
            let _ = self.deregister(operation);
            let _ = self.deregister(timer);
        }
        winner
    }
}

/// Marking a key keeps a well-formed table well formed.
pub proof fn lemma_mark_keeps_wf(t: Table, key: EventKey)
    requires
        t.wf(),
    ensures
        t.mark(key).wf(),
        t.mark(key).slots.len() == t.slots.len(),
        forall|k: EventKey| t.mark(key).registered(k) == t.registered(k),
        forall|k: EventKey| k != key ==> t.mark(key).is_ready(k) == t.is_ready(k),
        t.registered(key) ==> t.mark(key).is_ready(key),
{
    let after = t.mark(key);
    if t.registered(key) && !t.is_ready(key) {
        assert forall|i: int| 0 <= i < after.queue.len() implies after.is_ready(
            #[trigger] after.queue[i],
        ) by {
            if i < t.queue.len() {
                assert(t.is_ready(t.queue[i]));
            }
        }
        assert forall|i: int, j: int|
            0 <= i < after.queue.len() && 0 <= j < after.queue.len() && i != j implies after.queue[i]
            != after.queue[j] by {
            if i < t.queue.len() {
                assert(t.is_ready(t.queue[i]));
            }
            if j < t.queue.len() {
                assert(t.is_ready(t.queue[j]));
            }
        }
    }
}

/// Removing a key from a well-formed table leaves it well formed, takes the
/// key out of the table and out of the queue, and touches no other key.
pub proof fn lemma_remove_forgets_key(t: Table, key: EventKey)
    requires
        t.wf(),
    ensures
        t.remove(key).wf(),
        !t.remove(key).registered(key),
        !t.remove(key).is_ready(key),
        !t.remove(key).queued(key),
        t.remove(key).slots.len() == t.slots.len(),
        forall|k: EventKey|
            k != key ==> t.remove(key).registered(k) == t.registered(k) && t.remove(key).is_ready(
                k,
            ) == t.is_ready(k) && t.remove(key).queued(k) == t.queued(k),
        forall|k: EventKey|
            k != key && t.registered(k) ==> #[trigger] t.remove(key).slots[k as int]
                == t.slots[k as int],
{
    let after = t.remove(key);
    if t.queue.contains(key) {
        let at = t.queue.index_of(key);
        assert(t.queue[at] == key);
        assert forall|k: EventKey| k != key implies after.queued(k) == t.queued(k) by {
            if t.queued(k) {
                let i = choose|i: int| 0 <= i < t.queue.len() && t.queue[i] == k;
                if i < at {
                    assert(after.queue[i] == k);
                } else {
                    assert(after.queue[i - 1] == k);
                }
            }
            if after.queued(k) {
                let i = choose|i: int| 0 <= i < after.queue.len() && after.queue[i] == k;
                if i < at {
                    assert(t.queue[i] == k);
                } else {
                    assert(t.queue[i + 1] == k);
                }
            }
        }
        assert(!after.queued(key)) by {
            if after.queued(key) {
                let i = choose|i: int| 0 <= i < after.queue.len() && after.queue[i] == key;
                if i < at {
                    assert(t.queue[i] == t.queue[at]);
                } else {
                    assert(t.queue[i + 1] == t.queue[at]);
                }
            }
        }
        assert forall|i: int| 0 <= i < after.queue.len() implies after.is_ready(
            #[trigger] after.queue[i],
        ) by {
            let j = if i < at {
                i
            } else {
                i + 1
            };
            assert(after.queue[i] == t.queue[j]);
            assert(t.is_ready(t.queue[j]));
            assert(t.queue[j] != t.queue[at]);
        }
        assert forall|i: int, j: int|
            0 <= i < after.queue.len() && 0 <= j < after.queue.len() && i != j implies after.queue[i]
            != after.queue[j] by {
            let a = if i < at {
                i
            } else {
                i + 1
            };
            let b = if j < at {
                j
            } else {
                j + 1
            };
            assert(after.queue[i] == t.queue[a]);
            assert(after.queue[j] == t.queue[b]);
        }
    } else {
        assert forall|i: int| 0 <= i < after.queue.len() implies after.is_ready(
            #[trigger] after.queue[i],
        ) by {
            assert(t.is_ready(t.queue[i]));
            assert(t.queue.contains(t.queue[i]));
        }
    }
}

/// The loop returns only when the root computation is complete, and then as
/// soon as nothing is left to resume: after at most one drain.
pub proof fn lemma_returns_iff_root_completes(t: Table, root_complete: bool)
    ensures
        t.next_action(root_complete) == Action::Return <==> root_complete && t.queue.len() == 0,
        !root_complete ==> t.next_action(root_complete) != Action::Return,
        root_complete ==> t.drained().next_action(root_complete) == Action::Return,
{
}

/// While a computation is due to be resumed the loop does not block: it
/// resumes. So it is when every registered handle is ready and queued, and
/// there is one.
pub proof fn lemma_never_blocks_while_ready(t: Table, root_complete: bool)
    ensures
        t.queue.len() > 0 ==> t.next_action(root_complete) == Action::Resume,
        t.next_action(root_complete) == Action::Block ==> t.queue.len() == 0 && !root_complete,
        (exists|k: EventKey| t.registered(k)) && (forall|k: EventKey|
            t.registered(k) ==> t.queued(k)) ==> t.next_action(root_complete) == Action::Resume,
{
    if (exists|k: EventKey| t.registered(k)) && (forall|k: EventKey|
        t.registered(k) ==> t.queued(k)) {
        let k = choose|k: EventKey| t.registered(k);
        assert(t.queued(k));
    }
}

/// A drain hands out every queued computation once: afterwards nothing is
/// left to resume until the host reports again, and the table of
/// registrations is as it was.
pub proof fn lemma_drain_empties_queue(t: Table)
    requires
        t.wf(),
    ensures
        t.drained().wf(),
        t.drained().queue.len() == 0,
        t.drained().slots == t.slots,
        t.wakers().len() == t.queue.len(),
        t.drained().wakers().len() == 0,
{
}

/// Whether an event that becomes ready at time `at` is ready at time `now`.
pub open spec fn ready_by(at: nat, now: nat) -> bool {
    at <= now
}

/// The earlier of two times.
pub open spec fn earlier(a: nat, b: nat) -> nat {
    if a <= b {
        a
    } else {
        b
    }
}

/// A race between a timer that expires at time `timer` and an operation that
/// becomes ready at time `operation` is undecided before the earlier of the
/// two times and decided from then on. At that time the operation has won
/// unless the timer was strictly earlier.
pub proof fn lemma_race_resolves_at_earlier(timer: nat, operation: nat, now: nat)
    ensures
        race_winner(ready_by(operation, now), ready_by(timer, now)) is Some <==> earlier(
            timer,
            operation,
        ) <= now,
        now == earlier(timer, operation) ==> race_winner(
            ready_by(operation, now),
            ready_by(timer, now),
        ) == Some(
            if operation <= timer {
                Winner::Operation
            } else {
                Winner::Timer
            },
        ),
{
}

/// Once a race is decided neither side is registered any more, so the loser
/// has no further effect: it is not resumed, and a later report of its
/// readiness changes nothing. Registrations outside the race are untouched.
pub proof fn lemma_race_deregisters_both(t: Table, operation: EventKey, timer: EventKey)
    requires
        t.wf(),
    ensures
        ({
            let after = t.remove(operation).remove(timer);
            &&& after.wf()
            &&& !after.registered(operation)
            &&& !after.registered(timer)
            &&& !after.queued(operation)
            &&& !after.queued(timer)
            &&& after.mark(operation) == after
            &&& after.mark(timer) == after
            &&& forall|k: EventKey|
                k != operation && k != timer ==> after.registered(k) == t.registered(k)
                    && after.is_ready(k) == t.is_ready(k) && after.queued(k) == t.queued(k)
        }),
{
    lemma_remove_forgets_key(t, operation);
    lemma_remove_forgets_key(t.remove(operation), timer);
}

/// The keys that the host reported: for each of `indexes`, the key at that
/// place of `outstanding()`.
pub open spec fn reported_keys(t: Table, indexes: Seq<u32>) -> Seq<EventKey> {
    Seq::new(indexes.len(), |i: int| t.outstanding()[indexes[i] as int].0)
}

/// Every entry of the list to wait for names a registration that is not
/// known to be ready, with its handle, and the keys of the list ascend.
pub proof fn lemma_outstanding_lists_waiting(t: Table, n: nat, i: int)
    requires
        t.wf(),
        n <= t.slots.len(),
        0 <= i < t.outstanding_below(n).len(),
    ensures
        t.outstanding_below(n)[i].0 < n,
        t.registered(t.outstanding_below(n)[i].0),
        !t.is_ready(t.outstanding_below(n)[i].0),
        t.slots[t.outstanding_below(n)[i].0 as int]->0.handle == t.outstanding_below(n)[i].1,
        forall|j: int| 0 <= j < i ==> (#[trigger] t.outstanding_below(n)[j]).0 < t.outstanding_below(n)[i].0,
    decreases n,
{
    if n > 0 {
        let before = t.outstanding_below((n - 1) as nat);
        if i < before.len() {
            lemma_outstanding_lists_waiting(t, (n - 1) as nat, i);
            assert(t.outstanding_below(n)[i] == before[i]);
            assert forall|j: int| 0 <= j < i implies (#[trigger] t.outstanding_below(n)[j]).0
                < t.outstanding_below(n)[i].0 by {
                assert(t.outstanding_below(n)[j] == before[j]);
            }
        } else {
            assert forall|j: int| 0 <= j < i implies (#[trigger] t.outstanding_below(n)[j]).0
                < t.outstanding_below(n)[i].0 by {
                lemma_outstanding_lists_waiting(t, (n - 1) as nat, j);
                assert(t.outstanding_below(n)[j] == before[j]);
            }
        }
    }
}

/// What the host reports is queued in the host's order, behind what was
/// queued before, and so the computations are resumed in that order. The
/// report marks the registrations it names and changes nothing else.
pub proof fn lemma_notify_queues_in_host_order(t: Table, indexes: Seq<u32>)
    requires
        t.wf(),
        indexes.no_duplicates(),
        forall|i: int| 0 <= i < indexes.len() ==> #[trigger] indexes[i] < t.outstanding().len(),
    ensures
        t.notified(indexes).wf(),
        t.notified(indexes).queue == t.queue + reported_keys(t, indexes),
        t.notified(indexes).slots.len() == t.slots.len(),
        forall|k: EventKey| t.notified(indexes).registered(k) == t.registered(k),
        forall|k: EventKey|
            t.notified(indexes).is_ready(k) == (t.is_ready(k) || reported_keys(t, indexes).contains(
                k,
            )),
        forall|k: EventKey|
            t.registered(k) ==> (#[trigger] t.notified(indexes).slots[k as int])->0.waker
                == t.slots[k as int]->0.waker,
    decreases indexes.len(),
{
    let keys = reported_keys(t, indexes);
    if indexes.len() == 0 {
        assert(t.queue + keys =~= t.queue);
    } else {
        let pre = indexes.drop_last();
        let last = indexes.last();
        let pre_keys = reported_keys(t, pre);
        assert forall|i: int, j: int| 0 <= i < pre.len() && 0 <= j < pre.len() && i != j implies pre[i]
            != pre[j] by {
            assert(indexes[i] != indexes[j]);
        }
        assert forall|i: int| 0 <= i < pre.len() implies #[trigger] pre[i] < t.outstanding().len() by {
            assert(indexes[i] < t.outstanding().len());
        }
        lemma_notify_queues_in_host_order(t, pre);
        let before = t.notified(pre);
        let key = t.outstanding()[last as int].0;
        assert(indexes[indexes.len() - 1] < t.outstanding().len());
        lemma_outstanding_lists_waiting(t, t.slots.len(), last as int);
        assert(!pre_keys.contains(key)) by {
            if pre_keys.contains(key) {
                let i = choose|i: int| 0 <= i < pre_keys.len() && pre_keys[i] == key;
                assert(indexes[i] != indexes[indexes.len() - 1]);
                let a = pre[i] as int;
                let b = last as int;
                assert(indexes[i] < t.outstanding().len());
                if a < b {
                    lemma_outstanding_lists_waiting(t, t.slots.len(), b);
                    assert(t.outstanding()[a].0 < t.outstanding()[b].0);
                } else {
                    lemma_outstanding_lists_waiting(t, t.slots.len(), a);
                    assert(t.outstanding()[b].0 < t.outstanding()[a].0);
                }
            }
        }
        assert(before.registered(key) && !before.is_ready(key));
        lemma_mark_keeps_wf(before, key);
        let after = before.mark(key);
        assert(after == t.notified(indexes));
        assert(keys =~= pre_keys.push(key));
        assert(after.queue =~= t.queue + keys);
        assert forall|k: EventKey|
            after.is_ready(k) == (t.is_ready(k) || keys.contains(k)) by {
            if k == key {
                assert(keys[keys.len() - 1] == key);
            } else {
                if pre_keys.contains(k) {
                    let i = choose|i: int| 0 <= i < pre_keys.len() && pre_keys[i] == k;
                    assert(keys[i] == k);
                }
                if keys.contains(k) {
                    let i = choose|i: int| 0 <= i < keys.len() && keys[i] == k;
                    assert(pre_keys[i] == k);
                }
            }
        }
    }
}

} // verus!
