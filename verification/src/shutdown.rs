//! The shutdown coordinator: the one holder of the stop capability, which
//! hands it out at most once however many paths ask for it.

use vstd::prelude::*;

verus! {

/// Which path asks for the shutdown.
#[derive(Clone, Copy, Debug, PartialEq, Eq, Structural)]
pub enum ShutdownOrigin {
    /// The control loop, on completion or when the stream closed.
    ControlLoop,
    /// The handler of an external abort signal.
    AbortSignal,
}

/// What the asking path has to do.
#[derive(Debug)]
pub struct ShutdownPlan<C> {
    /// The stop capability, for the path that got it: that path invokes it
    /// and then disables the power output of the instrument that it yields.
    /// `None` says that another path has the shutdown in hand: nothing is
    /// left to do, and nothing is wrong.
    pub stop: Option<C>,
    /// Whether the process ends at once after the attempt.
    pub exit_process: bool,
}

/// A single slot that holds the stop capability until the first path takes
/// it. The coordinator is not a lock: paths that run concurrently share it
/// behind one.
#[derive(Debug)]
pub struct ShutdownCoordinator<C> {
    slot: Option<C>,
}

impl<C> View for ShutdownCoordinator<C> {
    type V = Option<C>;

    closed spec fn view(&self) -> Option<C> {
        self.slot
    }
}

/// What a path is told that finds `slot` in the coordinator.
pub open spec fn plan_for<C>(slot: Option<C>, origin: ShutdownOrigin) -> ShutdownPlan<C> {
    ShutdownPlan { stop: slot, exit_process: origin == ShutdownOrigin::AbortSignal }
}

/// What the slot holds after `attempts` attempts on `slot`.
pub open spec fn slot_after<C>(slot: Option<C>, attempts: nat) -> Option<C> {
    if attempts == 0 {
        slot
    } else {
        None
    }
}

/// Number of attempts, among those of `origins` in turn on `slot`, that
/// were handed the capability.
pub open spec fn stops_handed_out<C>(slot: Option<C>, origins: Seq<ShutdownOrigin>) -> nat
    decreases origins.len(),
{
    if origins.len() == 0 {
        0
    } else {
        let earlier = origins.drop_last();
        stops_handed_out(slot, earlier) + if plan_for(
            slot_after(slot, earlier.len()),
            origins.last(),
        ).stop is Some {
            1nat
        } else {
            0nat
        }
    }
}

impl<C> ShutdownCoordinator<C> {
    /// A coordinator that holds `capability`.
    pub fn new(capability: C) -> (coordinator: ShutdownCoordinator<C>)
        ensures
            coordinator@ == Some(capability),
    {
        ShutdownCoordinator { slot: Some(capability) }
    }

    /// Whether the capability is still in the slot.
    pub fn is_armed(&self) -> (armed: bool)
        ensures
            armed == self@.is_some(),
    {
        self.slot.is_some()
    }

    /// Takes the capability out of the slot, if it is there, and says what
    /// the asking path has to do. The slot is empty afterwards.
    pub fn take_and_stop(&mut self, origin: ShutdownOrigin) -> (plan: ShutdownPlan<C>)
        ensures
            plan == plan_for(old(self)@, origin),
            final(self)@ == slot_after(old(self)@, 1),
    {
        let stop = self.slot.take();
        ShutdownPlan { stop, exit_process: origin == ShutdownOrigin::AbortSignal }
    }
}

/// However many paths ask, and in whatever order, at most one is handed the
/// capability: the first, if the slot was filled. Every later one finds the
/// slot empty.
pub proof fn lemma_at_most_one_stop<C>(slot: Option<C>, origins: Seq<ShutdownOrigin>)
    ensures
        stops_handed_out(slot, origins) <= 1,
        stops_handed_out(slot, origins) == 1 <==> slot is Some && origins.len() > 0,
        forall|attempt: int|
            1 <= attempt < origins.len() ==> (#[trigger] plan_for(
                slot_after(slot, attempt as nat),
                origins[attempt],
            )).stop is None,
    decreases origins.len(),
{
    if origins.len() > 0 {
        lemma_at_most_one_stop(slot, origins.drop_last());
    }
}

} // verus!
