use vstd::prelude::*;

use crate::vector::{bounded, ssub, P3, Vec3, COORD_BOUND};

verus! {

/// A point of a body and the place it should be moved to.
#[derive(Clone, Copy, Debug, PartialEq, Eq)]
pub struct Contact {
    pub current: Vec3,
    pub target: Vec3,
}

/// The correction target of a vertex at `p` that was at `q` one step earlier and has sunk
/// below the ground: its foot on the plane `z = 0`, pulled back by its horizontal motion.
/// (The motion's projection on the vertical correction is its vertical part, so the
/// tangential motion is the horizontal part.)
pub open spec fn ground_target(p: P3, q: P3) -> P3 {
    let delta = ssub(p, q);
    let tangential = (delta.0, delta.1, 0);
    ssub((p.0, p.1, 0), tangential)
}

/// The contacts for the first `n` vertices: one for each vertex below the ground.
pub open spec fn ground_upto(cur: Seq<Vec3>, past: Seq<Vec3>, n: nat) -> Seq<(P3, P3)>
    decreases n,
{
    if n == 0 {
        seq![]
    } else {
        let prev = ground_upto(cur, past, (n - 1) as nat);
        let p = cur[n - 1]@;
        if p.2 < 0 {
            prev.push((p, ground_target(p, past[n - 1]@)))
        } else {
            prev
        }
    }
}

pub open spec fn contacts_view(s: Seq<Contact>) -> Seq<(P3, P3)> {
    s.map_values(|c: Contact| (c.current@, c.target@))
}

/// Contacts of a body with the ground plane `z = 0`, from the world positions of its
/// vertices now (`current`) and one step earlier (`past`, same order): one contact, in
/// vertex order, for each vertex with `z < 0`.
pub fn ground(current: &Vec<Vec3>, past: &Vec<Vec3>) -> (r: Vec<Contact>)
    requires
        current@.len() == past@.len(),
        forall|i: int| 0 <= i < current@.len() ==> bounded(#[trigger] current@[i]@, COORD_BOUND as int),
        forall|i: int| 0 <= i < past@.len() ==> bounded(#[trigger] past@[i]@, COORD_BOUND as int),
    ensures
        contacts_view(r@) == ground_upto(current@, past@, current@.len()),
        forall|k: int|
            0 <= k < r@.len() ==> (#[trigger] r@[k]).current.z < 0 && r@[k].target.z == 0,
        r@.len() <= current@.len(),
{
    let mut r: Vec<Contact> = Vec::new();
    let mut i: usize = 0;
    while i < current.len()
        invariant
            0 <= i <= current@.len(),
            current@.len() == past@.len(),
            forall|k: int| 0 <= k < current@.len() ==> bounded(#[trigger] current@[k]@, COORD_BOUND as int),
            forall|k: int| 0 <= k < past@.len() ==> bounded(#[trigger] past@[k]@, COORD_BOUND as int),
            contacts_view(r@) == ground_upto(current@, past@, i as nat),
            forall|k: int|
                0 <= k < r@.len() ==> (#[trigger] r@[k]).current.z < 0 && r@[k].target.z == 0,
            r@.len() <= i,
        decreases current@.len() - i,
    {
        let position = current[i];
        let before = past[i];
        if position.z < 0 {
            let target = Vec3::new(position.x, position.y, 0);
            let delta = position.sub(&before, COORD_BOUND);
            let tangential = Vec3::new(delta.x, delta.y, 0);
            let goal = target.sub(&tangential, 0x20_0000);
            r.push(Contact { current: position, target: goal });
        }
        proof {
            assert(contacts_view(r@) =~= ground_upto(current@, past@, (i + 1) as nat));
        }
        i = i + 1;
    }
    r
}

impl Contact {
    /// The displacement from the current point to its target.
    pub fn difference(&self) -> (r: Vec3)
        requires
            bounded(self.current@, 0x1000_0000_0000_0000_0000_0000_0000),
            bounded(self.target@, 0x1000_0000_0000_0000_0000_0000_0000),
        ensures
            r@ == ssub(self.target@, self.current@),
    {
        self.target.sub(&self.current, 0x1000_0000_0000_0000_0000_0000_0000)
    }

    /// The contact needs no correction: its point already sits on its target.
    pub fn is_satisfied(&self) -> (r: bool)
        ensures
            r == (self.current == self.target),
    {
        self.current.x == self.target.x && self.current.y == self.target.y && self.current.z
            == self.target.z
    }
}

} // verus!
