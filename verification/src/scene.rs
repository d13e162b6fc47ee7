//! Scene population: the compiled-in description of one generation of the
//! scene (a table backdrop plus five named cards laid out along the x axis)
//! and the routine that attaches it under a parent node.

use vstd::prelude::*;

use crate::geometry::{Extent, Pos, SUBUNITS_PER_UNIT};
use crate::store::{live, node_of, CardData, Handle, Node, NodeBody, Store};

verus! {

/// Full size of the table backdrop, in world subunits.
pub const TABLE_W: i64 = 1200 * SUBUNITS_PER_UNIT;

pub const TABLE_H: i64 = 700 * SUBUNITS_PER_UNIT;

/// Full size of every card, in world subunits.
pub const CARD_W: i64 = 120 * SUBUNITS_PER_UNIT;

pub const CARD_H: i64 = 220 * SUBUNITS_PER_UNIT;

/// X position of the leftmost card, and the spacing between neighbouring
/// cards, in world subunits.
pub const CARD_FIRST_X: i64 = -360 * SUBUNITS_PER_UNIT;

pub const CARD_STEP_X: i64 = 180 * SUBUNITS_PER_UNIT;

/// How many nodes one generation of the scene holds: the table plus five
/// cards.
pub const SCENE_LEN: usize = 6;

/// What one scene node should be, stated mathematically: its kind and
/// identity data together with its rectangle.
pub ghost enum BodyDescr {
    Root,
    Table,
    Card { name: Seq<char>, value: u8, base_fame: u8 },
}

pub ghost struct NodeDescr {
    pub body: BodyDescr,
    pub x: int,
    pub y: int,
    pub w: int,
    pub h: int,
}

/// The description a concrete node answers to.
pub open spec fn descr_of(n: Node) -> NodeDescr {
    NodeDescr {
        body: match n.body {
            NodeBody::Root => BodyDescr::Root,
            NodeBody::Table => BodyDescr::Table,
            NodeBody::Card(c) => BodyDescr::Card {
                name: c.name@,
                value: c.value,
                base_fame: c.base_fame,
            },
        },
        x: n.pos.x as int,
        y: n.pos.y as int,
        w: n.size.w as int,
        h: n.size.h as int,
    }
}

/// Name of the card in hand slot `k`.
pub open spec fn card_name_spec(k: int) -> Seq<char> {
    if k == 0 {
        "Ostrich"@
    } else if k == 1 {
        "Eagle"@
    } else if k == 2 {
        "Dog"@
    } else if k == 3 {
        "Camel"@
    } else {
        "Rabbit"@
    }
}

/// Value of the card in hand slot `k`.
pub open spec fn card_value_spec(k: int) -> u8 {
    if k == 0 {
        1
    } else if k == 1 {
        4
    } else if k == 2 {
        5
    } else if k == 3 {
        8
    } else {
        9
    }
}

/// Base fame of the card in hand slot `k`.
pub open spec fn card_fame_spec(k: int) -> u8 {
    if k == 0 {
        1
    } else if k == 1 {
        2
    } else if k == 2 {
        0
    } else if k == 3 {
        2
    } else {
        3
    }
}

/// Layout rule: cards stand evenly spaced along the horizontal axis.
pub open spec fn card_x_spec(k: int) -> int {
    CARD_FIRST_X + k * CARD_STEP_X
}

/// Description of the card in hand slot `k`.
pub open spec fn card_descr(k: int) -> NodeDescr {
    NodeDescr {
        body: BodyDescr::Card {
            name: card_name_spec(k),
            value: card_value_spec(k),
            base_fame: card_fame_spec(k),
        },
        x: card_x_spec(k),
        y: 0,
        w: CARD_W as int,
        h: CARD_H as int,
    }
}

/// Description of the table backdrop.
pub open spec fn table_descr() -> NodeDescr {
    NodeDescr { body: BodyDescr::Table, x: 0, y: 0, w: TABLE_W as int, h: TABLE_H as int }
}

/// The whole generation, in creation order: the table first, then the five
/// cards from left to right.
pub open spec fn scene_descr() -> Seq<NodeDescr> {
    Seq::new(SCENE_LEN as nat, |k: int| if k == 0 {
        table_descr()
    } else {
        card_descr(k - 1)
    })
}

/// The scene stands fully established under root slot `r`, its generation
/// occupying slots `base .. base + SCENE_LEN`: each of those slots holds a
/// live child of `r` answering to the static description, and no other live
/// node is a child of `r`.
pub open spec fn scene_established(s: Seq<Option<Node>>, r: usize, base: int) -> bool {
    &&& 0 <= base
    &&& base + SCENE_LEN <= s.len()
    &&& forall|k: int|
        0 <= k < SCENE_LEN ==> #[trigger] live(s, base + k) && node_of(s, base + k).parent
            == Some(r) && descr_of(node_of(s, base + k)) == scene_descr()[k]
    &&& forall|i: int|
        #[trigger] live(s, i) && node_of(s, i).parent == Some(r) ==> base <= i < base + SCENE_LEN
}

/// Law: scene population is geometrically deterministic. Any two stores in
/// which the scene stands established hold, slot for slot of the generation,
/// children with identical descriptions — positions, sizes, labels, values —
/// however many rebuilds either store has been through.
pub proof fn lemma_rebuild_content_identical(
    s1: Seq<Option<Node>>,
    r1: usize,
    b1: int,
    s2: Seq<Option<Node>>,
    r2: usize,
    b2: int,
)
    requires
        scene_established(s1, r1, b1),
        scene_established(s2, r2, b2),
    ensures
        forall|k: int|
            0 <= k < SCENE_LEN ==> #[trigger] descr_of(node_of(s1, b1 + k)) == descr_of(
                node_of(s2, b2 + k),
            ),
{
    assert forall|k: int| 0 <= k < SCENE_LEN implies #[trigger] descr_of(node_of(s1, b1 + k))
        == descr_of(node_of(s2, b2 + k)) by {
        lemma_established_child(s1, r1, b1, k);
        lemma_established_child(s2, r2, b2, k);
    }
}

/// What an established scene guarantees of one slot of its generation: the
/// slot holds a live child of the root answering to the static description.
pub proof fn lemma_established_child(s: Seq<Option<Node>>, r: usize, base: int, k: int)
    requires
        scene_established(s, r, base),
        0 <= k < SCENE_LEN,
    ensures
        live(s, base + k),
        node_of(s, base + k).parent == Some(r),
        descr_of(node_of(s, base + k)) == scene_descr()[k],
{
}

/// Attach one generation of the scene under `parent`: the table, then the
/// five cards. Repeated invocations append geometrically identical content.
pub fn populate(store: &mut Store, parent: Handle)
    requires
        crate::store::graph_wf(old(store)@),
        live(old(store)@, parent.idx as int),
        forall|i: int|
            #[trigger] live(old(store)@, i) ==> node_of(old(store)@, i).parent != Some(parent.idx),
    ensures
        final(store)@.len() == old(store)@.len() + SCENE_LEN,
        forall|i: int| 0 <= i < old(store)@.len() ==> final(store)@[i] == old(store)@[i],
        scene_established(final(store)@, parent.idx, old(store)@.len() as int),
        crate::store::graph_wf(final(store)@),
{
    let ghost base = store@.len() as int;
    store.attach_child(
        parent,
        NodeBody::Table,
        Pos { x: 0, y: 0 },
        Extent { w: TABLE_W, h: TABLE_H },
    );
    store.attach_child(
        parent,
        NodeBody::Card(CardData { name: String::from_str("Ostrich"), value: 1, base_fame: 1 }),
        Pos { x: CARD_FIRST_X, y: 0 },
        Extent { w: CARD_W, h: CARD_H },
    );
    store.attach_child(
        parent,
        NodeBody::Card(CardData { name: String::from_str("Eagle"), value: 4, base_fame: 2 }),
        Pos { x: CARD_FIRST_X + CARD_STEP_X, y: 0 },
        Extent { w: CARD_W, h: CARD_H },
    );
    store.attach_child(
        parent,
        NodeBody::Card(CardData { name: String::from_str("Dog"), value: 5, base_fame: 0 }),
        Pos { x: CARD_FIRST_X + 2 * CARD_STEP_X, y: 0 },
        Extent { w: CARD_W, h: CARD_H },
    );
    store.attach_child(
        parent,
        NodeBody::Card(CardData { name: String::from_str("Camel"), value: 8, base_fame: 2 }),
        Pos { x: CARD_FIRST_X + 3 * CARD_STEP_X, y: 0 },
        Extent { w: CARD_W, h: CARD_H },
    );
    store.attach_child(
        parent,
        NodeBody::Card(CardData { name: String::from_str("Rabbit"), value: 9, base_fame: 3 }),
        Pos { x: CARD_FIRST_X + 4 * CARD_STEP_X, y: 0 },
        Extent { w: CARD_W, h: CARD_H },
    );
    proof {
        let s0 = old(store)@;
        let s1 = store@;
        assert forall|k: int| 0 <= k < SCENE_LEN implies #[trigger] live(s1, base + k) && node_of(
            s1,
            base + k,
        ).parent == Some(parent.idx) && descr_of(node_of(s1, base + k)) == scene_descr()[k] by {
            assert(descr_of(node_of(s1, base + 0)) == scene_descr()[0]);
            assert(descr_of(node_of(s1, base + 1)) == scene_descr()[1]);
            assert(descr_of(node_of(s1, base + 2)) == scene_descr()[2]);
            assert(descr_of(node_of(s1, base + 3)) == scene_descr()[3]);
            assert(descr_of(node_of(s1, base + 4)) == scene_descr()[4]);
            assert(descr_of(node_of(s1, base + 5)) == scene_descr()[5]);
        }
        assert forall|i: int|
            #[trigger] live(s1, i) && node_of(s1, i).parent == Some(parent.idx) implies base <= i
            < base + SCENE_LEN by {
            if i < base {
                assert(live(s0, i));
            }
        }
    }
}

} // verus!
