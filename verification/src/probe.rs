//! Which debug probe to use: the first of the enumerated probes that opens
//! and attaches to the chip.

use vstd::prelude::*;

verus! {

/// How the attempt on one probe ended.
#[derive(Clone, Copy, Debug, PartialEq, Eq, Structural)]
pub enum ProbeOutcome {
    /// The probe could not be opened.
    OpenFailed,
    /// The probe opened but did not attach to the chip.
    AttachFailed,
    /// The probe attached.
    Attached,
}

/// What the search asks for next.
#[derive(Clone, Copy, Debug, PartialEq, Eq, Structural)]
pub enum ProbeStep {
    /// Try the probe at this position of the enumeration.
    Try(usize),
    /// Done: the probe at this position attached.
    Attached(usize),
    /// Done: every probe was tried and none attached.
    Exhausted,
}

/// The search's state as mathematical values.
pub struct SearchState {
    /// Number of enumerated probes.
    pub candidates: nat,
    /// Number of probes tried and found failing.
    pub failed: nat,
    /// Position of the probe that attached, once one has.
    pub attached: Option<nat>,
}

/// The state of a search over `candidates` probes before any attempt.
pub open spec fn initial_search(candidates: nat) -> SearchState {
    SearchState { candidates, failed: 0, attached: None }
}

/// What a search in `state` asks for next.
pub open spec fn step_of(state: SearchState) -> ProbeStep {
    match state.attached {
        Some(at) => ProbeStep::Attached(at as usize),
        None => if state.failed < state.candidates {
            ProbeStep::Try(state.failed as usize)
        } else {
            ProbeStep::Exhausted
        },
    }
}

/// The state that follows `state` when the attempt it asked for ended in
/// `outcome`. A search that is done asks for no attempt and ignores the
/// outcome.
pub open spec fn search_next(state: SearchState, outcome: ProbeOutcome) -> SearchState {
    if state.attached is Some || state.failed >= state.candidates {
        state
    } else if outcome == ProbeOutcome::Attached {
        SearchState { attached: Some(state.failed), ..state }
    } else {
        SearchState { failed: state.failed + 1, ..state }
    }
}

/// The state of a search over `candidates` probes after the attempts ended
/// in `outcomes`, in turn.
pub open spec fn search_after(candidates: nat, outcomes: Seq<ProbeOutcome>) -> SearchState
    decreases outcomes.len(),
{
    if outcomes.len() == 0 {
        initial_search(candidates)
    } else {
        search_next(search_after(candidates, outcomes.drop_last()), outcomes.last())
    }
}

/// Position of the first of `outcomes` that is an attach, if there is one.
pub open spec fn first_attached(outcomes: Seq<ProbeOutcome>) -> Option<nat>
    decreases outcomes.len(),
{
    if outcomes.len() == 0 {
        None
    } else {
        match first_attached(outcomes.drop_last()) {
            Some(at) => Some(at),
            None => if outcomes.last() == ProbeOutcome::Attached {
                Some((outcomes.len() - 1) as nat)
            } else {
                None
            },
        }
    }
}

/// The search for a probe that attaches.
#[derive(Debug)]
pub struct ProbeSearch {
    candidates: usize,
    failed: usize,
    attached: Option<usize>,
}

impl View for ProbeSearch {
    type V = SearchState;

    closed spec fn view(&self) -> SearchState {
        SearchState {
            candidates: self.candidates as nat,
            failed: self.failed as nat,
            attached: match self.attached {
                Some(at) => Some(at as nat),
                None => None,
            },
        }
    }
}

impl ProbeSearch {
    #[verifier::type_invariant]
    spec fn well_formed(self) -> bool {
        &&& self.failed <= self.candidates
        &&& self.attached matches Some(at) ==> at == self.failed && at < self.candidates
    }

    /// A search over `candidates` enumerated probes.
    pub fn new(candidates: usize) -> (search: ProbeSearch)
        ensures
            search@ == initial_search(candidates as nat),
    {
        ProbeSearch { candidates, failed: 0, attached: None }
    }

    /// What to do next: try a probe, or stop with the probe that attached
    /// or with none.
    pub fn step(&self) -> (step: ProbeStep)
        ensures
            step == step_of(self@),
            self@.candidates <= usize::MAX,
            self@.failed <= self@.candidates,
            self@.attached matches Some(at) ==> at == self@.failed && at < self@.candidates,
            step matches ProbeStep::Try(at) ==> at == self@.failed && at < self@.candidates,
            step matches ProbeStep::Attached(at) ==> self@.attached == Some(at as nat) && at
                < self@.candidates,
    {
        proof {
            use_type_invariant(self);
        }
        match self.attached {
            Some(at) => ProbeStep::Attached(at),
            None => if self.failed < self.candidates {
                ProbeStep::Try(self.failed)
            } else {
                ProbeStep::Exhausted
            },
        }
    }

    /// Records how the attempt that `step` asked for ended: a probe that
    /// fails to open or to attach is skipped, the first that attaches ends
    /// the search.
    pub fn record(&mut self, outcome: ProbeOutcome)
        ensures
            final(self)@ == search_next(old(self)@, outcome),
    {
        proof {
            use_type_invariant(&*self);
        }
        if self.attached.is_none() && self.failed < self.candidates {
            match outcome {
                ProbeOutcome::Attached => {
                    self.attached = Some(self.failed);
                },
                _ => {
                    self.failed = self.failed + 1;
                },
            }
        }
    }
}

/// The search keeps the first success and fails only when every probe has
/// failed. After any attempts it has settled on the first probe that
/// attached, among as many outcomes as there are probes; with none so far
/// it has skipped every probe tried; and it is exhausted exactly when all
/// probes were tried and none attached.
pub proof fn lemma_search_keeps_first_success(candidates: nat, outcomes: Seq<ProbeOutcome>)
    ensures
        search_after(candidates, outcomes).candidates == candidates,
        outcomes.len() <= candidates ==> {
            &&& search_after(candidates, outcomes).attached == first_attached(outcomes)
            &&& first_attached(outcomes) is None ==> search_after(candidates, outcomes).failed
                == outcomes.len()
            &&& step_of(search_after(candidates, outcomes)) == ProbeStep::Exhausted <==> outcomes.len()
                == candidates && first_attached(outcomes) is None
        },
        outcomes.len() > candidates ==> search_after(candidates, outcomes) == search_after(
            candidates,
            outcomes.take(candidates as int),
        ),
    decreases outcomes.len(),
{
    if outcomes.len() > 0 {
        let earlier = outcomes.drop_last();
        lemma_search_keeps_first_success(candidates, earlier);
        lemma_first_attached_in_range(earlier);
        if outcomes.len() > candidates {
            lemma_search_keeps_first_success(candidates, outcomes.take(candidates as int));
            if earlier.len() > candidates {
                assert(earlier.take(candidates as int) =~= outcomes.take(candidates as int));
            } else {
                assert(earlier =~= outcomes.take(candidates as int));
            }
        }
    }
}

/// What `first_attached` finds: the least position that holds an attach.
pub proof fn lemma_first_attached_in_range(outcomes: Seq<ProbeOutcome>)
    ensures
        first_attached(outcomes) matches Some(at) ==> {
            &&& at < outcomes.len()
            &&& outcomes[at as int] == ProbeOutcome::Attached
            &&& forall|k: int| 0 <= k < at ==> #[trigger] outcomes[k] != ProbeOutcome::Attached
        },
        first_attached(outcomes) is None ==> forall|k: int|
            0 <= k < outcomes.len() ==> #[trigger] outcomes[k] != ProbeOutcome::Attached,
    decreases outcomes.len(),
{
    if outcomes.len() > 0 {
        let earlier = outcomes.drop_last();
        lemma_first_attached_in_range(earlier);
        assert forall|k: int| 0 <= k < earlier.len() implies earlier[k] == outcomes[k] by {}
    }
}

} // verus!
