//! The pointer picker: given a click already converted to world space, scan
//! the cards in the store and report the first one whose rectangle contains
//! the point, boundary included.

use vstd::prelude::*;

use crate::geometry::{in_rect, point_in_aabb, Pos};
use crate::store::{live, node_of, Handle, Node, NodeBody, Store};

verus! {

/// Slot `i` holds a live card whose rectangle (center = its position,
/// size = its visual extent) contains the point, boundary included.
pub open spec fn card_hit(s: Seq<Option<Node>>, i: int, px: int, py: int) -> bool {
    &&& live(s, i)
    &&& node_of(s, i).body is Card
    &&& in_rect(
        px,
        py,
        node_of(s, i).pos.x as int,
        node_of(s, i).pos.y as int,
        node_of(s, i).size.w as int,
        node_of(s, i).size.h as int,
    )
}

/// Scan every card in the store, in slot order, and report the first one the
/// point lands on; `None` when the click hits no card.
pub fn pick_card(store: &Store, p: Pos) -> (r: Option<Handle>)
    ensures
        match r {
            Some(h) => card_hit(store@, h.idx as int, p.x as int, p.y as int) && forall|j: int|
                0 <= j < h.idx ==> !card_hit(store@, j, p.x as int, p.y as int),
            None => forall|j: int| !card_hit(store@, j, p.x as int, p.y as int),
        },
{
    let n = store.num_slots();
    let mut i: usize = 0;
    while i < n
        invariant
            n == store@.len(),
            i <= n,
            forall|j: int| 0 <= j < i ==> !card_hit(store@, j, p.x as int, p.y as int),
        decreases n - i,
    {
        match store.peek(i) {
            Some(node) => match node.body {
                NodeBody::Card(_) => {
                    if point_in_aabb(p, node.pos, node.size) {
                        return Some(Handle { idx: i });
                    }
                },
                _ => {},
            },
            None => {},
        }
        i += 1;
    }
    proof {
        assert forall|j: int| !card_hit(store@, j, p.x as int, p.y as int) by {
            if 0 <= j < n {
            }
        }
    }
    None
}

} // verus!
