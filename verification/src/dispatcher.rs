//! The bounded-concurrency dispatcher as a state machine.
//!
//! The dispatcher decides; its caller acts. The caller asks what may happen
//! next, starts the unit of work of an item when a slot has been acquired for
//! it, and reports each completion, whatever its outcome. No slot is
//! acquired beyond the budget, and each item is attempted once.

use vstd::prelude::*;

verus! {

/// Where one item stands.
#[derive(Debug, Clone, Copy, PartialEq, Eq, Structural)]
pub enum Phase {
    /// Not started: no slot has been acquired for it.
    Pending,
    /// Started: it holds a slot.
    Running,
    /// Completed: its slot has been released and its outcome is kept.
    Finished,
}

/// The state of a dispatch as contracts see it.
pub struct Dispatch {
    /// How many items may run at once.
    pub budget: nat,
    /// How many items have been started; they are started in order.
    pub started: nat,
    /// Where each item stands.
    pub phases: Seq<Phase>,
}

/// How many items are running.
pub open spec fn running(phases: Seq<Phase>) -> nat
    decreases phases.len(),
{
    if phases.len() == 0 {
        0
    } else {
        running(phases.drop_last()) + if phases.last() is Running {
            1nat
        } else {
            0nat
        }
    }
}

impl Dispatch {
    /// The state before anything has started.
    pub open spec fn initial(items: nat, budget: nat) -> Dispatch {
        Dispatch { budget, started: 0, phases: Seq::new(items, |i: int| Phase::Pending) }
    }

    /// How many items are running.
    pub open spec fn in_flight(self) -> nat {
        running(self.phases)
    }

    /// The states that a dispatch can be in: the items before `started`, and
    /// only they, have left `Pending`, and no more run than the budget allows.
    pub open spec fn wf(self) -> bool {
        &&& self.started <= self.phases.len()
        &&& forall|i: int|
            0 <= i < self.phases.len() ==> ((#[trigger] self.phases[i]) is Pending <==> i
                >= self.started)
        &&& self.in_flight() <= self.budget
    }

    /// Whether the next item may be started: one is left, and a slot is free.
    pub open spec fn can_start(self) -> bool {
        self.started < self.phases.len() && self.in_flight() < self.budget
    }

    /// Whether every item has completed.
    pub open spec fn done(self) -> bool {
        self.started == self.phases.len() && self.in_flight() == 0
    }

    /// The state after an attempt to start the next item.
    pub open spec fn after_start(self) -> Dispatch {
        if self.can_start() {
            Dispatch {
                budget: self.budget,
                started: self.started + 1,
                phases: self.phases.update(self.started as int, Phase::Running),
            }
        } else {
            self
        }
    }

    /// Whether `item` is running.
    pub open spec fn is_running(self, item: int) -> bool {
        0 <= item < self.phases.len() && self.phases[item] is Running
    }

    /// The state after `item` has been reported complete.
    pub open spec fn after_complete(self, item: int) -> Dispatch {
        if self.is_running(item) {
            Dispatch {
                budget: self.budget,
                started: self.started,
                phases: self.phases.update(item, Phase::Finished),
            }
        } else {
            self
        }
    }
}

/// Something that happens to a dispatch.
pub enum Event {
    /// An attempt to start the next item.
    Start,
    /// The report that an item has completed.
    Complete(int),
}

/// The state after one event.
pub open spec fn after(state: Dispatch, event: Event) -> Dispatch {
    match event {
        Event::Start => state.after_start(),
        Event::Complete(item) => state.after_complete(item),
    }
}

/// The state after a run of events.
pub open spec fn after_all(state: Dispatch, events: Seq<Event>) -> Dispatch
    decreases events.len(),
{
    if events.len() == 0 {
        state
    } else {
        after(after_all(state, events.drop_last()), events.last())
    }
}

/// Changing where one item stands changes the number running by that item
/// alone.
pub proof fn lemma_running_update(phases: Seq<Phase>, i: int, phase: Phase)
    requires
        0 <= i < phases.len(),
    ensures
        running(phases.update(i, phase)) + (if phases[i] is Running {
            1nat
        } else {
            0nat
        }) == running(phases) + (if phase is Running {
            1nat
        } else {
            0nat
        }),
    decreases phases.len(),
{
    let changed = phases.update(i, phase);
    if i == phases.len() - 1 {
        assert(changed.drop_last() =~= phases.drop_last());
    } else {
        lemma_running_update(phases.drop_last(), i, phase);
        assert(changed.drop_last() =~= phases.drop_last().update(i, phase));
    }
}

/// Where nothing runs, no item is running; where an item is running,
/// something runs.
pub proof fn lemma_running_counts(phases: Seq<Phase>)
    ensures
        running(phases) <= phases.len(),
        running(phases) == 0 <==> forall|i: int|
            0 <= i < phases.len() ==> !((#[trigger] phases[i]) is Running),
    decreases phases.len(),
{
    if phases.len() > 0 {
        let init = phases.drop_last();
        lemma_running_counts(init);
        if running(phases) == 0 {
            assert forall|i: int| 0 <= i < phases.len() implies !((#[trigger] phases[i])
                is Running) by {
                if i < init.len() {
                    assert(init[i] == phases[i]);
                }
            }
        } else if phases.last() is Running {
        } else {
            let i = choose|i: int| 0 <= i < init.len() && (#[trigger] init[i]) is Running;
            assert(phases[i] is Running);
        }
    }
}

/// The initial state is one that a dispatch can be in, and nothing runs
/// in it.
pub proof fn lemma_initial_wf(items: nat, budget: nat)
    ensures
        Dispatch::initial(items, budget).wf(),
        Dispatch::initial(items, budget).in_flight() == 0,
{
    lemma_running_counts(Dispatch::initial(items, budget).phases);
}

/// No event leads out of the states that a dispatch can be in, and none
/// changes the budget: whatever happens, no more items run than the budget
/// allows.
pub proof fn lemma_event_keeps_budget(state: Dispatch, event: Event)
    requires
        state.wf(),
    ensures
        after(state, event).wf(),
        after(state, event).budget == state.budget,
        after(state, event).phases.len() == state.phases.len(),
        after(state, event).in_flight() <= state.budget,
{
    match event {
        Event::Start => {
            if state.can_start() {
                lemma_running_update(state.phases, state.started as int, Phase::Running);
            }
        },
        Event::Complete(item) => {
            if state.is_running(item) {
                lemma_running_update(state.phases, item, Phase::Finished);
            }
        },
    }
}

/// From the initial state on, after every run of events, no more items run
/// than the budget allows.
pub proof fn lemma_never_over_budget(items: nat, budget: nat, events: Seq<Event>)
    ensures
        after_all(Dispatch::initial(items, budget), events).wf(),
        after_all(Dispatch::initial(items, budget), events).budget == budget,
        after_all(Dispatch::initial(items, budget), events).in_flight() <= budget,
    decreases events.len(),
{
    if events.len() == 0 {
        lemma_initial_wf(items, budget);
    } else {
        lemma_never_over_budget(items, budget, events.drop_last());
        lemma_event_keeps_budget(
            after_all(Dispatch::initial(items, budget), events.drop_last()),
            events.last(),
        );
    }
}

/// Once a dispatch is done, every item has completed.
pub proof fn lemma_done_all_finished(state: Dispatch)
    requires
        state.wf(),
        state.done(),
    ensures
        forall|i: int| 0 <= i < state.phases.len() ==> (#[trigger] state.phases[i]) is Finished,
{
    lemma_running_counts(state.phases);
}

/// One item of a dispatch: where it stands, and its outcome once it has one.
pub enum Slot<T> {
    /// Not started.
    Pending,
    /// Started and not yet complete.
    Running,
    /// Complete, with its outcome.
    Finished(T),
}

impl<T> Slot<T> {
    /// Where the item stands.
    pub open spec fn phase(self) -> Phase {
        match self {
            Slot::Pending => Phase::Pending,
            Slot::Running => Phase::Running,
            Slot::Finished(_) => Phase::Finished,
        }
    }

    /// The outcome, once there is one.
    pub open spec fn outcome(self) -> Option<T> {
        match self {
            Slot::Finished(outcome) => Some(outcome),
            _ => None,
        }
    }
}

/// What the caller of a dispatcher is to do next.
#[derive(Debug, Clone, Copy, PartialEq, Eq, Structural)]
pub enum Action {
    /// A slot is free and an item is left: start the item of this index.
    Start(usize),
    /// Every slot is taken, or nothing is left to start: await a completion.
    Wait,
    /// Every item has completed: collect the outcomes.
    Done,
    /// Items are left, nothing runs and the budget is zero: nothing can
    /// ever start.
    Stalled,
}

/// A dispatcher over a fixed number of items with outcomes of type `T`.
pub struct Dispatcher<T> {
    budget: usize,
    started: usize,
    in_flight: usize,
    slots: Vec<Slot<T>>,
}

impl<T> View for Dispatcher<T> {
    type V = Dispatch;

    closed spec fn view(&self) -> Dispatch {
        Dispatch {
            budget: self.budget as nat,
            started: self.started as nat,
            phases: self.slots@.map_values(|slot: Slot<T>| slot.phase()),
        }
    }
}

impl<T> Dispatcher<T> {
    /// What holds of every dispatcher: it is in a state that a dispatch can
    /// be in.
    #[verifier::type_invariant]
    pub closed spec fn valid(self) -> bool {
        &&& self@.wf()
        &&& self.in_flight == self@.in_flight()
    }

    /// The outcome of each item, as far as it has one.
    pub closed spec fn outcomes(&self) -> Seq<Option<T>> {
        self.slots@.map_values(|slot: Slot<T>| slot.outcome())
    }

    /// A dispatcher never runs more than its budget allows, and an item has
    /// an outcome exactly when it has completed.
    pub proof fn lemma_within_budget(self)
        requires
            self.valid(),
        ensures
            self@.wf(),
            self@.in_flight() <= self@.budget,
            self.outcomes().len() == self@.phases.len(),
            forall|i: int|
                0 <= i < self@.phases.len() ==> ((#[trigger] self.outcomes()[i]) is Some
                    <==> self@.phases[i] is Finished),
    {
    }

    /// A dispatcher for `items` items, of which at most `budget` run at once.
    pub fn new(items: usize, budget: usize) -> (dispatcher: Self)
        ensures
            dispatcher@ == Dispatch::initial(items as nat, budget as nat),
            dispatcher.outcomes() == Seq::new(items as nat, |i: int| None::<T>),
    {
        let mut slots: Vec<Slot<T>> = Vec::new();
        let mut i: usize = 0;
        while i < items
            invariant
                i <= items,
                slots.len() == i,
                forall|j: int| 0 <= j < i ==> slots@[j] == Slot::<T>::Pending,
            decreases items - i,
        {
            slots.push(Slot::Pending);
            i = i + 1;
        }
        proof {
            lemma_initial_wf(items as nat, budget as nat);
            assert(slots@.map_values(|slot: Slot<T>| slot.phase()) =~= Dispatch::initial(
                items as nat,
                budget as nat,
            ).phases);
            assert(slots@.map_values(|slot: Slot<T>| slot.outcome()) =~= Seq::new(
                items as nat,
                |i: int| None::<T>,
            ));
        }
        Dispatcher { budget, started: 0, in_flight: 0, slots }
    }

    /// How many items there are.
    pub fn total(&self) -> (items: usize)
        ensures
            items == self@.phases.len(),
    {
        self.slots.len()
    }

    /// How many items may run at once.
    pub fn budget(&self) -> (budget: usize)
        ensures
            budget == self@.budget,
    {
        self.budget
    }

    /// How many items are running; never more than the budget.
    pub fn in_flight(&self) -> (count: usize)
        ensures
            count == self@.in_flight(),
            count <= self@.budget,
            self@.wf(),
    {
        proof {
            use_type_invariant(self);
        }
        self.in_flight
    }

    /// Whether every item has completed.
    pub fn is_done(&self) -> (done: bool)
        ensures
            done == self@.done(),
    {
        proof {
            use_type_invariant(self);
        }
        self.started == self.slots.len() && self.in_flight == 0
    }

    /// What the caller is to do next.
    pub fn poll(&self) -> (action: Action)
        ensures
            action == (if self@.can_start() {
                Action::Start(self@.started as usize)
            } else if self@.in_flight() > 0 {
                Action::Wait
            } else if self@.done() {
                Action::Done
            } else {
                Action::Stalled
            }),
            action is Stalled ==> self@.budget == 0,
    {
        proof {
            use_type_invariant(self);
        }
        if self.started < self.slots.len() && self.in_flight < self.budget {
            Action::Start(self.started)
        } else if self.in_flight > 0 {
            Action::Wait
        } else if self.started == self.slots.len() {
            Action::Done
        } else {
            Action::Stalled
        }
    }

    /// Takes the dispatcher apart, leaving one without items in its place.
    fn take_parts(&mut self) -> (parts: (usize, usize, usize, Vec<Slot<T>>))
        ensures
            parts.0 == old(self).budget,
            parts.1 == old(self).started,
            parts.2 == old(self).in_flight,
            parts.3 == old(self).slots,
            old(self).valid(),
    {
        proof {
            use_type_invariant(&*self);
        }
        let mut taken: Dispatcher<T> = Dispatcher::new(0, 0);
        std::mem::swap(self, &mut taken);
        let Dispatcher { budget, started, in_flight, slots } = taken;
        (budget, started, in_flight, slots)
    }

    /// Acquires a slot for the next item, if one is left and a slot is
    /// free, and says which item that is. Otherwise nothing changes.
    pub fn start(&mut self) -> (item: Option<usize>)
        ensures
            final(self)@ == old(self)@.after_start(),
            final(self)@.in_flight() <= final(self)@.budget,
            final(self).outcomes() == old(self).outcomes(),
            item == (if old(self)@.can_start() {
                Some(old(self)@.started as usize)
            } else {
                None
            }),
    {
        proof {
            use_type_invariant(&*self);
        }
        if self.started < self.slots.len() && self.in_flight < self.budget {
            let (budget, started, in_flight, mut slots) = self.take_parts();
            proof {
                lemma_event_keeps_budget(old(self)@, Event::Start);
                lemma_running_update(old(self)@.phases, started as int, Phase::Running);
            }
            slots.set(started, Slot::Running);
            proof {
                assert(slots@.map_values(|slot: Slot<T>| slot.phase()) =~= old(
                    self,
                )@.phases.update(started as int, Phase::Running));
                assert(slots@.map_values(|slot: Slot<T>| slot.outcome()) =~= old(
                    self,
                ).outcomes());
            }
            *self = Dispatcher { budget, started: started + 1, in_flight: in_flight + 1, slots };
            Some(started)
        } else {
            None
        }
    }

    /// Takes the report that `item` has completed with `outcome`: releases
    /// its slot and keeps the outcome. A report on an item that is not
    /// running changes nothing; the answer says whether the report counted.
    pub fn complete(&mut self, item: usize, outcome: T) -> (counted: bool)
        ensures
            final(self)@ == old(self)@.after_complete(item as int),
            final(self)@.in_flight() <= final(self)@.budget,
            counted == old(self)@.is_running(item as int),
            final(self).outcomes() == (if counted {
                old(self).outcomes().update(item as int, Some(outcome))
            } else {
                old(self).outcomes()
            }),
    {
        proof {
            use_type_invariant(&*self);
        }
        if item >= self.slots.len() {
            return false;
        }
        let is_running = match &self.slots[item] {
            Slot::Running => true,
            _ => false,
        };
        if !is_running {
            return false;
        }
        let (budget, started, in_flight, mut slots) = self.take_parts();
        proof {
            lemma_event_keeps_budget(old(self)@, Event::Complete(item as int));
            lemma_running_update(old(self)@.phases, item as int, Phase::Finished);
        }
        slots.set(item, Slot::Finished(outcome));
        proof {
            assert(slots@.map_values(|slot: Slot<T>| slot.phase()) =~= old(self)@.phases.update(
                item as int,
                Phase::Finished,
            ));
            assert(slots@.map_values(|slot: Slot<T>| slot.outcome()) =~= old(
                self,
            ).outcomes().update(item as int, Some(outcome)));
        }
        *self = Dispatcher { budget, started, in_flight: in_flight - 1, slots };
        true
    }

    /// Hands out the outcome of each item, in the order of the items; an
    /// item that has not completed has none. Once the dispatch is done,
    /// every item has one.
    pub fn into_outcomes(self) -> (outcomes: Vec<Option<T>>)
        ensures
            outcomes@ == self.outcomes(),
            self@.done() ==> forall|i: int| 0 <= i < outcomes.len() ==> (#[trigger] outcomes@[i]) is Some,
    {
        let ghost all = self.slots@;
        let ghost expected = self.outcomes();
        proof {
            use_type_invariant(&self);
            if self@.done() {
                lemma_done_all_finished(self@);
            }
        }
        let mut outcomes: Vec<Option<T>> = Vec::new();
        for slot in it: self.slots
            invariant
                it.seq() == all,
                expected == all.map_values(|slot: Slot<T>| slot.outcome()),
                outcomes@ == expected.take(it.index()),
        {
            let ghost before = outcomes@;
            let outcome = match slot {
                Slot::Finished(outcome) => Some(outcome),
                _ => None,
            };
            outcomes.push(outcome);
            assert(outcomes@ =~= expected.take(it.index() + 1));
        }
        proof {
            assert(expected.take(expected.len() as int) =~= expected);
            if self@.done() {
                assert forall|i: int| 0 <= i < outcomes.len() implies (#[trigger] outcomes@[i])
                    is Some by {
                    assert(self@.phases[i] is Finished);
                }
            }
        }
        outcomes
    }
}

} // verus!
