//! Deferred collider resolution: a body waits, fixed, until the mesh behind
//! its collider has loaded and yielded a convex hull; then it turns dynamic
//! and the joint waiting on it, if any, is attached.
use vstd::prelude::*;
use crate::plan::{Attachment, BodyPlan};

verus! {

/// What one poll found for a body's collider mesh.
#[derive(Clone, Copy, PartialEq, Eq, Debug, Structural)]
pub enum MeshPoll {
    /// The mesh has not finished loading.
    NotLoaded,
    /// The mesh loaded, but no hull could be made of it (no usable
    /// positions, or a degenerate point set); the next poll tries again.
    HullFailed,
    /// The mesh loaded and its scaled convex hull was built.
    HullBuilt,
}

/// Where a body stands in the collider pipeline.
#[derive(Clone, Copy, PartialEq, Eq, Debug, Structural)]
pub struct BodyState {
    /// Promoted from fixed to dynamic once its collider exists.
    pub dynamic: bool,
    /// A collider still waits for its mesh.
    pub collider_pending: bool,
    /// The joint that will attach this body to its parent once its collider exists.
    pub joint_pending: Option<Attachment>,
}

/// What a poll asks the physics host to do for a body.
#[derive(Clone, Copy, PartialEq, Eq, Debug, Structural)]
pub enum Finalized {
    Nothing,
    /// Attach the hull, make the body dynamic, put it in the robot collision group.
    Collider,
    /// As `Collider`, and attach the joint to the parent body.
    ColliderAndJoint(Attachment),
}

/// A freshly spawned body: fixed, with a pending collider where it has a
/// mesh, and its joint pending where it hangs from a parent.
pub open spec fn initial_state(b: BodyPlan) -> BodyState {
    BodyState { dynamic: false, collider_pending: b.collider is Some, joint_pending: b.attachment }
}

pub fn initial_state_of(b: &BodyPlan) -> (r: BodyState)
    ensures
        r == initial_state(*b),
{
    BodyState { dynamic: false, collider_pending: b.collider.is_some(), joint_pending: b.attachment }
}

/// One poll of a body: only a body with a pending collider whose hull was
/// built changes; it becomes dynamic, and its pending joint is released.
pub open spec fn polled(s: BodyState, poll: MeshPoll) -> (BodyState, Finalized) {
    if s.collider_pending && poll == MeshPoll::HullBuilt {
        (
            BodyState { dynamic: true, collider_pending: false, joint_pending: None },
            match s.joint_pending {
                Some(a) => Finalized::ColliderAndJoint(a),
                None => Finalized::Collider,
            },
        )
    } else {
        (s, Finalized::Nothing)
    }
}

pub fn poll_body(s: &mut BodyState, poll: MeshPoll) -> (r: Finalized)
    ensures
        (*final(s), r) == polled(*old(s), poll),
{
    if s.collider_pending && poll == MeshPoll::HullBuilt {
        let r = match s.joint_pending {
            Some(a) => Finalized::ColliderAndJoint(a),
            None => Finalized::Collider,
        };
        *s = BodyState { dynamic: true, collider_pending: false, joint_pending: None };
        r
    } else {
        Finalized::Nothing
    }
}

/// The poll reported for body `k`; a body with no report has not loaded.
pub open spec fn poll_at(polls: Seq<MeshPoll>, k: int) -> MeshPoll {
    if 0 <= k < polls.len() {
        polls[k]
    } else {
        MeshPoll::NotLoaded
    }
}

/// Polls every body once, body `k` with `polls[k]`.
pub fn poll_bodies(states: &mut Vec<BodyState>, polls: &Vec<MeshPoll>) -> (r: Vec<Finalized>)
    ensures
        final(states)@.len() == old(states)@.len(),
        r@.len() == old(states)@.len(),
        forall|k: int|
            0 <= k < r@.len() ==> (#[trigger] final(states)@[k], r@[k]) == polled(
                old(states)@[k],
                poll_at(polls@, k),
            ),
{
    let ghost before = states@;
    let mut r: Vec<Finalized> = Vec::new();
    let mut k: usize = 0;
    while k < states.len()
        invariant
            states@.len() == before.len(),
            k <= states@.len(),
            r@.len() == k,
            forall|i: int| k <= i < states@.len() ==> states@[i] == before[i],
            forall|i: int|
                0 <= i < k ==> (#[trigger] states@[i], r@[i]) == polled(before[i], poll_at(polls@, i)),
        decreases states.len() - k,
    {
        let poll = if k < polls.len() {
            polls[k]
        } else {
            MeshPoll::NotLoaded
        };
        let mut s = states[k];
        let f = poll_body(&mut s, poll);
        states.set(k, s);
        r.push(f);
        k = k + 1;
    }
    r
}

/// A body after a series of polls.
pub open spec fn after_polls(s: BodyState, polls: Seq<MeshPoll>) -> BodyState
    decreases polls.len(),
{
    if polls.len() == 0 {
        s
    } else {
        after_polls(polled(s, polls[0]).0, polls.subrange(1, polls.len() as int))
    }
}

/// A body whose mesh never reports loaded keeps its pending collider and
/// its classification, however often it is polled: a fixed body stays fixed.
pub proof fn unloaded_mesh_keeps_body_waiting(s: BodyState, polls: Seq<MeshPoll>)
    requires
        forall|i: int| 0 <= i < polls.len() ==> polls[i] == MeshPoll::NotLoaded,
    ensures
        after_polls(s, polls) == s,
        after_polls(s, polls).collider_pending == s.collider_pending,
        after_polls(s, polls).dynamic == s.dynamic,
    decreases polls.len(),
{
    if polls.len() > 0 {
        let rest = polls.subrange(1, polls.len() as int);
        assert forall|i: int| 0 <= i < rest.len() implies rest[i] == MeshPoll::NotLoaded by {
            assert(rest[i] == polls[i + 1]);
        }
        unloaded_mesh_keeps_body_waiting(s, rest);
    }
}

} // verus!
