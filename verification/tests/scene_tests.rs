use card_table::geometry::{point_in_aabb, Extent, Pos};
use card_table::store::{Node, NodeBody, Store};
use card_table::world::{ClickOutcome, PassInput, PassOutput, World};

/// One world unit in store subunits.
const UNIT: i64 = 10_000;

fn input_idle() -> PassInput {
    PassInput { rearm: false, clicked: false, cursor: None }
}

fn input_click(x: i64, y: i64) -> PassInput {
    PassInput { rearm: false, clicked: true, cursor: Some(Pos { x, y }) }
}

/// Every live card of the store, in slot order, as plain data:
/// (name, value, base_fame, x, y, w, h).
fn live_cards(store: &Store) -> Vec<(String, u8, u8, i64, i64, i64, i64)> {
    let mut out = Vec::new();
    let n = store.num_slots();
    let mut i = 0;
    while i < n {
        if let Some(node) = store.peek(i) {
            if let NodeBody::Card(c) = &node.body {
                out.push((
                    c.name.clone(),
                    c.value,
                    c.base_fame,
                    node.pos.x,
                    node.pos.y,
                    node.size.w,
                    node.size.h,
                ));
            }
        }
        i += 1;
    }
    out
}

/// Whether the node in slot `i` reaches the root by its parent chain.
fn reaches_root(store: &Store, mut i: usize, root: usize) -> bool {
    loop {
        if i == root {
            return true;
        }
        let node: &Node = match store.peek(i) {
            Some(node) => node,
            None => return false,
        };
        match node.parent {
            Some(p) => i = p,
            None => return i == root,
        }
    }
}

#[test]
fn boot_populates_expected_scene() {
    let w = World::boot();
    let cards = live_cards(&w.store);
    assert_eq!(cards.len(), 5);
    let expected = [
        ("Ostrich", 1u8, 1u8, -360 * UNIT),
        ("Eagle", 4, 2, -180 * UNIT),
        ("Dog", 5, 0, 0),
        ("Camel", 8, 2, 180 * UNIT),
        ("Rabbit", 9, 3, 360 * UNIT),
    ];
    for (got, want) in cards.iter().zip(expected.iter()) {
        assert_eq!(got.0, want.0);
        assert_eq!(got.1, want.1);
        assert_eq!(got.2, want.2);
        assert_eq!(got.3, want.3);
        assert_eq!(got.4, 0);
        assert_eq!(got.5, 120 * UNIT);
        assert_eq!(got.6, 220 * UNIT);
    }
    // exactly one table backdrop, at the origin
    let mut tables = 0;
    for i in 0..w.store.num_slots() {
        if let Some(node) = w.store.peek(i) {
            if let NodeBody::Table = node.body {
                tables += 1;
                assert_eq!((node.pos.x, node.pos.y), (0, 0));
                assert_eq!((node.size.w, node.size.h), (1200 * UNIT, 700 * UNIT));
            }
        }
    }
    assert_eq!(tables, 1);
}

#[test]
fn rebuild_content_is_idempotent() {
    let mut w = World::boot();
    let first = live_cards(&w.store);
    for _ in 0..4 {
        w.request_rebuild();
        let out = w.pass(input_idle());
        assert!(out.rebuilt);
        assert_eq!(live_cards(&w.store), first);
    }
}

#[test]
fn rebuild_keeps_root_ancestry_and_kills_old_generation() {
    let mut w = World::boot();
    let old_len = w.store.num_slots();
    let out = w.pass(input_idle()); // the one-shot trigger forces a rebuild
    assert!(out.rebuilt);
    // no entity of the previous generation survives
    for i in 0..old_len {
        if i != w.root.idx {
            assert!(w.store.peek(i).is_none());
        }
    }
    // every live entity descends from the world root
    for i in 0..w.store.num_slots() {
        if w.store.peek(i).is_some() {
            assert!(reaches_root(&w.store, i, w.root.idx));
        }
    }
}

#[test]
fn hit_test_boundary_is_inclusive() {
    let center = Pos { x: 0, y: 0 };
    let size = Extent { w: 120 * UNIT, h: 220 * UNIT };
    assert!(point_in_aabb(Pos { x: 60 * UNIT, y: 110 * UNIT }, center, size));
    assert!(point_in_aabb(Pos { x: -60 * UNIT, y: -110 * UNIT }, center, size));
    assert!(point_in_aabb(Pos { x: 60 * UNIT, y: -110 * UNIT }, center, size));
    assert!(point_in_aabb(Pos { x: -60 * UNIT, y: 110 * UNIT }, center, size));
    // one ten-thousandth of a unit past the right edge is outside
    assert!(!point_in_aabb(Pos { x: 60 * UNIT + 1, y: 0 }, center, size));
}

#[test]
fn click_without_cursor_is_a_no_op() {
    let mut w = World::boot();
    w.pass(input_idle()); // settle the one-shot trigger
    let before = live_cards(&w.store);
    let len_before = w.store.num_slots();
    let out = w.pass(PassInput { rearm: false, clicked: true, cursor: None });
    assert_eq!(out.click, ClickOutcome::Silent);
    assert!(!out.rebuilt);
    assert_eq!(w.store.num_slots(), len_before);
    assert_eq!(live_cards(&w.store), before);
}

#[test]
fn trigger_fires_exactly_once_in_a_hundred_passes() {
    let mut w = World::boot();
    let mut rebuilds = 0;
    for _ in 0..100 {
        let out = w.pass(input_idle());
        if out.rebuilt {
            rebuilds += 1;
        }
    }
    assert_eq!(rebuilds, 1);
    assert_eq!(w.rebuilds, 1);
    assert!(w.trigger.fired);
}

#[test]
fn external_rearm_fires_the_trigger_again() {
    let mut w = World::boot();
    w.pass(input_idle());
    let out = w.pass(input_idle());
    assert!(!out.rebuilt);
    let out = w.pass(PassInput { rearm: true, clicked: false, cursor: None });
    assert!(out.rebuilt);
    assert_eq!(w.rebuilds, 2);
}

#[test]
fn queued_rebuild_request_is_drained_once() {
    let mut w = World::boot();
    w.pass(input_idle());
    w.request_rebuild();
    w.request_rebuild(); // several requests in one pass collapse to one rebuild
    let out = w.pass(input_idle());
    assert!(out.rebuilt);
    let out = w.pass(input_idle());
    assert!(!out.rebuilt);
    assert_eq!(w.rebuilds, 2);
}

#[test]
fn end_to_end_click_scenario() {
    let mut w = World::boot();
    let out: PassOutput = w.pass(input_click(-360 * UNIT, 0));
    match out.click {
        ClickOutcome::Hit(h) => {
            let name = w.store.card_name(h).expect("picked handle names a card");
            assert_eq!(name.as_str(), "Ostrich");
        },
        other => panic!("expected a card hit, got {:?}", other),
    }
    let out = w.pass(input_click(1000 * UNIT, 0));
    assert_eq!(out.click, ClickOutcome::Missed);
}

#[test]
fn click_resolves_the_middle_card() {
    let mut w = World::boot();
    w.pass(input_idle());
    let out = w.pass(input_click(0, 0));
    match out.click {
        ClickOutcome::Hit(h) => {
            let name = w.store.card_name(h).expect("picked handle names a card");
            assert_eq!(name.as_str(), "Dog");
        }
        other => panic!("expected a card hit, got {:?}", other),
    }
    // above the cards' top edge (y = 110) nothing is hit
    let out = w.pass(input_click(0, 111 * UNIT));
    assert_eq!(out.click, ClickOutcome::Missed);
    // the top edge itself is inclusive
    let out = w.pass(input_click(0, 110 * UNIT));
    assert!(matches!(out.click, ClickOutcome::Hit(_)));
}

#[test]
fn card_name_of_dead_or_non_card_handles_is_none() {
    let mut w = World::boot();
    let old_cards: Vec<usize> = (0..w.store.num_slots())
        .filter(|&i| {
            matches!(w.store.peek(i), Some(node) if matches!(node.body, NodeBody::Card(_)))
        })
        .collect();
    assert_eq!(old_cards.len(), 5);
    // the root is not a card
    assert!(w.store.card_name(w.root).is_none());
    // a rebuild invalidates the old generation's handles
    w.pass(input_idle());
    for i in old_cards {
        assert!(w.store.card_name(card_table::store::Handle { idx: i }).is_none());
    }
}

#[test]
fn click_between_cards_hits_nothing() {
    let mut w = World::boot();
    w.pass(input_idle());
    // (-270, 0) lies in the gap between the first two cards
    let out = w.pass(input_click(-270 * UNIT, 0));
    assert_eq!(out.click, ClickOutcome::Missed);
    // a card's edge itself still counts as a hit
    let out = w.pass(input_click(-300 * UNIT, 0));
    assert!(matches!(out.click, ClickOutcome::Hit(_)));
}
