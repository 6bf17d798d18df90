//! Touch-to-scroll decisions: which touch points are down, and which move
//! of a single finger drags the content, from which point to which. The
//! points (`P`) are the caller's; it turns a drag into a scroll delta.
use std::collections::HashMap;

use vstd::prelude::*;

verus! {

broadcast use vstd::std_specs::hash::group_hash_axioms;

/// The phases of a touch event.
#[derive(Clone, Copy, Debug, PartialEq, Eq, Structural)]
pub enum TouchEventType {
    Down,
    Move,
    Up,
    Cancel,
}

/// The touch points that are down, by touch id, with their last known
/// points.
pub struct TouchHandler<P> {
    active: HashMap<i32, P>,
}

/// What a touch event does: a touch going down is tracked; a move updates
/// its point and, where it is the only touch, drags from its last point to
/// the new one; a touch going up or cancelled is forgotten.
pub open spec fn after_touch<P>(active: Map<i32, P>, id: i32, event_type: TouchEventType, point: P) -> (
    Map<i32, P>,
    Option<(P, P)>,
) {
    match event_type {
        TouchEventType::Down => (active.insert(id, point), None),
        TouchEventType::Move => if active.len() != 1 {
            (
                if active.contains_key(id) {
                    active.insert(id, point)
                } else {
                    active
                },
                None,
            )
        } else if active.contains_key(id) {
            (active.insert(id, point), Some((active[id], point)))
        } else {
            (active, None)
        },
        TouchEventType::Up | TouchEventType::Cancel => (active.remove(id), None),
    }
}

impl<P> View for TouchHandler<P> {
    type V = Map<i32, P>;

    closed spec fn view(&self) -> Map<i32, P> {
        self.active@
    }
}

impl<P: Copy> TouchHandler<P> {
    /// No touch is down.
    pub fn new() -> (r: Self)
        ensures
            r@ == Map::<i32, P>::empty(),
    {
        TouchHandler { active: HashMap::new() }
    }

    /// Handles a touch event of touch `id` at `point` (see `after_touch`):
    /// the drag it makes, as its last point and its new point, if any.
    pub fn on_touch_event(&mut self, id: i32, event_type: TouchEventType, point: P) -> (r: Option<(P, P)>)
        ensures
            (final(self)@, r) == after_touch(old(self)@, id, event_type, point),
    {
        match event_type {
            TouchEventType::Down => {
                self.active.insert(id, point);
                None
            },
            TouchEventType::Move => {
                let single = self.active.len() == 1;
                let last = match self.active.get(&id) {
                    Some(p) => Some(*p),
                    None => None,
                };
                match last {
                    Some(from) => {
                        self.active.insert(id, point);
                        if single {
                            Some((from, point))
                        } else {
                            None
                        }
                    },
                    None => None,
                }
            },
            TouchEventType::Up | TouchEventType::Cancel => {
                self.active.remove(&id);
                None
            },
        }
    }
}

/// Two moves of a single finger drag along its path: the second drag starts
/// where the first ended.
pub proof fn lemma_drags_chain<P>(active: Map<i32, P>, id: i32, p1: P, p2: P)
    requires
        active.dom().finite(),
        after_touch(active, id, TouchEventType::Move, p1).1 is Some,
    ensures
        after_touch(after_touch(active, id, TouchEventType::Move, p1).0, id, TouchEventType::Move, p2).1 == Some(
            (p1, p2),
        ),
{
    let m1 = active.insert(id, p1);
    assert(m1.dom() =~= active.dom());
}

/// While more than one finger is down, nothing is dragged.
pub proof fn lemma_multi_touch_does_not_drag<P>(active: Map<i32, P>, id: i32, event_type: TouchEventType, point: P)
    requires
        active.len() != 1,
    ensures
        after_touch(active, id, event_type, point).1 is None,
{
}

} // verus!
