//! The loader's state across processing steps: the single-slot deferred
//! load request and the bodies of the robot currently built.
use vstd::prelude::*;
use crate::colliders::{initial_state, initial_state_of, poll_at, poll_bodies, polled, BodyState, Finalized, MeshPoll};
use crate::plan::BodyPlan;

verus! {

/// A request, raised by the user interface, to load the named model.
pub struct LoadRobotRequest {
    pub model_name: String,
}

/// What the loader holds, seen abstractly.
pub struct LoaderView {
    /// The model whose build is deferred to the next step.
    pub marker: Option<Seq<char>>,
    pub bodies: Seq<BodyState>,
}

impl LoaderView {
    /// After a load request: every body is gone, and the marker names the
    /// requested model, whatever it named before.
    pub open spec fn requested(self, model_name: Seq<char>) -> LoaderView {
        LoaderView { marker: Some(model_name), bodies: Seq::empty() }
    }

    /// After the deferred request is taken: no marker.
    pub open spec fn taken(self) -> LoaderView {
        LoaderView { marker: None, bodies: self.bodies }
    }
}

/// The loader's state, owned by the host's scheduler.
pub struct LoaderState {
    pub marker: Option<String>,
    pub bodies: Vec<BodyState>,
}

pub open spec fn name_view(o: Option<String>) -> Option<Seq<char>> {
    match o {
        Some(s) => Some(s@),
        None => None,
    }
}

impl View for LoaderState {
    type V = LoaderView;

    open spec fn view(&self) -> LoaderView {
        LoaderView { marker: name_view(self.marker), bodies: self.bodies@ }
    }
}

impl LoaderState {
    /// Idle, with no robot.
    pub fn new() -> (r: LoaderState)
        ensures
            r@.marker is None,
            r@.bodies.len() == 0,
    {
        LoaderState { marker: None, bodies: Vec::new() }
    }

    /// Accepts a load request: the current robot is torn down at once and
    /// the build is deferred to the next step; an earlier request not yet
    /// taken is overwritten.
    pub fn request_load(&mut self, request: LoadRobotRequest)
        ensures
            final(self)@ == old(self)@.requested(request.model_name@),
    {
        self.bodies = Vec::new();
        self.marker = Some(request.model_name);
        assert(self@.bodies =~= Seq::<BodyState>::empty());
    }

    /// Takes the deferred request, if any; the marker is cleared whether or
    /// not the build that follows succeeds.
    pub fn take_request(&mut self) -> (r: Option<String>)
        ensures
            name_view(r) == old(self)@.marker,
            final(self)@ == old(self)@.taken(),
    {
        self.marker.take()
    }

    /// Records the bodies of a freshly built robot, each in its initial state.
    pub fn install(&mut self, plan: &Vec<BodyPlan>)
        ensures
            final(self)@.marker == old(self)@.marker,
            final(self)@.bodies.len() == plan@.len(),
            forall|k: int|
                0 <= k < plan@.len() ==> #[trigger] final(self)@.bodies[k] == initial_state(plan@[k]),
    {
        let mut bodies: Vec<BodyState> = Vec::new();
        let mut k: usize = 0;
        while k < plan.len()
            invariant
                k <= plan@.len(),
                bodies@.len() == k,
                forall|i: int| 0 <= i < k ==> #[trigger] bodies@[i] == initial_state(plan@[i]),
            decreases plan.len() - k,
        {
            bodies.push(initial_state_of(&plan[k]));
            k = k + 1;
        }
        self.bodies = bodies;
    }

    /// One step of the collider pipeline over every body, body `k` with `polls[k]`.
    pub fn poll(&mut self, polls: &Vec<MeshPoll>) -> (r: Vec<Finalized>)
        ensures
            final(self)@.marker == old(self)@.marker,
            final(self)@.bodies.len() == old(self)@.bodies.len(),
            r@.len() == old(self)@.bodies.len(),
            forall|k: int|
                0 <= k < r@.len() ==> (#[trigger] final(self)@.bodies[k], r@[k]) == polled(
                    old(self)@.bodies[k],
                    poll_at(polls@, k),
                ),
    {
        poll_bodies(&mut self.bodies, polls)
    }
}

/// Of two load requests in one step only the second is kept: the marker
/// names the second model, the first is never built, and taking the request
/// yields the second.
pub proof fn second_request_supersedes_first(v: LoaderView, first: Seq<char>, second: Seq<char>)
    ensures
        v.requested(first).requested(second) == v.requested(second),
        v.requested(first).requested(second).marker == Some(second),
        v.requested(first).requested(second).taken().marker is None,
{
}

} // verus!
