//! What the health endpoints answer.

use vstd::prelude::*;

use crate::hash_ring::HashRing;
use crate::maps;
use crate::placement;

verus! {

/// An answer: the status and the body.
#[derive(Clone, Copy, Debug, PartialEq, Eq)]
pub struct HealthAnswer {
    pub status: u16,
    pub body: &'static str,
}

/// The process is alive as long as it answers.
pub fn healthz() -> (answer: HealthAnswer)
    ensures
        answer.status == 200,
        answer.body@ == "ok"@,
{
    HealthAnswer { status: 200, body: "ok" }
}

/// Whether the silo is on a ring at all; the store need not be asked where it is not.
pub fn ring_joined(ring: &HashRing) -> (yes: bool)
    ensures
        yes == !ring@.is_empty(),
{
    let members = ring.members();
    proof {
        assert(maps::views(members@).len() == members@.len());
        placement::no_members_on_an_empty_ring_only(ring@);
    }
    members.len() > 0
}

/// The silo is ready when it is on a ring and its store, if it has one to be asked, answers.
pub fn readyz(ring: &HashRing, store_probe: Option<Result<(), String>>) -> (answer: HealthAnswer)
    ensures
        if ring@.is_empty() {
            answer.status == 503 && answer.body@ == "ring empty"@
        } else if store_probe matches Some(Err(_)) {
            answer.status == 503 && answer.body@ == "store probe failed"@
        } else {
            answer.status == 200 && answer.body@ == "ready"@
        },
{
    if !ring_joined(ring) {
        return HealthAnswer { status: 503, body: "ring empty" };
    }
    if let Some(Err(_)) = store_probe {
        return HealthAnswer { status: 503, body: "store probe failed" };
    }
    HealthAnswer { status: 200, body: "ready" }
}

} // verus!
