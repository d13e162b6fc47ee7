//! The entity graph store: an append-only arena of scene nodes with
//! parent links, bulk destruction of a node's descendants, and creation of
//! new children. Handles are slot indices; a destroyed slot never revives,
//! so a stale handle is permanently dead rather than silently reused.

use vstd::prelude::*;

use crate::geometry::{Extent, Pos};

verus! {

/// The static identity data a card carries.
pub struct CardData {
    pub name: String,
    pub value: u8,
    pub base_fame: u8,
}

/// What a node is: the permanent root anchor, the table backdrop, or a card.
pub enum NodeBody {
    Root,
    Table,
    Card(CardData),
}

/// One node of the scene graph: its parent's slot index (the root has none),
/// what it is, and its rectangle (center position and full size).
pub struct Node {
    pub parent: Option<usize>,
    pub body: NodeBody,
    pub pos: Pos,
    pub size: Extent,
}

/// An opaque, stable reference to a node. It stays valid until the node is
/// destroyed and is never handed out again afterwards.
#[derive(Clone, Copy, PartialEq, Eq, Structural, Debug)]
pub struct Handle {
    pub idx: usize,
}

/// The arena. A slot holds `Some` node while the node is alive and `None`
/// forever after it is destroyed; slots are only ever appended.
pub struct Store {
    slots: Vec<Option<Node>>,
}

impl View for Store {
    type V = Seq<Option<Node>>;

    closed spec fn view(&self) -> Seq<Option<Node>> {
        self.slots@
    }
}

/// Slot `i` holds a live node.
pub open spec fn live(s: Seq<Option<Node>>, i: int) -> bool {
    0 <= i < s.len() && s[i] is Some
}

/// The node in slot `i` (meaningful only when `live(s, i)`).
pub open spec fn node_of(s: Seq<Option<Node>>, i: int) -> Node {
    s[i]->0
}

/// The card data of a node (meaningful only when its body is a card).
pub open spec fn card_of(n: Node) -> CardData {
    match n.body {
        NodeBody::Card(c) => c,
        _ => arbitrary(),
    }
}

/// Well-formedness of the arena: a live node's parent is a live node in an
/// earlier slot. Appending children after their parents keeps this true, and
/// it makes every ancestor chain strictly decrease.
pub open spec fn graph_wf(s: Seq<Option<Node>>) -> bool {
    forall|i: int| #[trigger] live(s, i) ==> match node_of(s, i).parent {
        Some(p) => p < i && live(s, p as int),
        None => true,
    }
}

/// Slot `i` holds a live node that is a strict descendant of slot `r`,
/// through the parent chain.
pub open spec fn desc_of(s: Seq<Option<Node>>, i: int, r: int) -> bool
    decreases i,
{
    live(s, i) && match node_of(s, i).parent {
        Some(p) => p == r || (p < i && desc_of(s, p as int, r)),
        None => false,
    }
}

/// In a well-formed arena no slot at or below `r` is a descendant of `r`:
/// parent indices strictly decrease, so a chain starting at or below `r`
/// can never reach `r`.
pub proof fn lemma_no_desc_at_or_below(s: Seq<Option<Node>>, i: int, r: int)
    requires
        graph_wf(s),
        i <= r,
    ensures
        !desc_of(s, i, r),
    decreases i,
{
    if live(s, i) {
        match node_of(s, i).parent {
            Some(p) => {
                lemma_no_desc_at_or_below(s, p as int, r);
            },
            None => {},
        }
    }
}

impl Store {
    /// An empty arena with no nodes at all.
    pub fn new() -> (s: Store)
        ensures
            s@ =~= Seq::<Option<Node>>::empty(),
    {
        Store { slots: Vec::new() }
    }

    /// How many slots the arena has ever held (live or dead).
    pub fn num_slots(&self) -> (n: usize)
        ensures
            n == self@.len(),
    {
        self.slots.len()
    }

    /// Read slot `i`: the node while it is alive, `None` once destroyed.
    pub fn peek(&self, i: usize) -> (r: Option<&Node>)
        requires
            i < self@.len(),
        ensures
            match r {
                Some(n) => self@[i as int] == Some(*n),
                None => self@[i as int] is None,
            },
    {
        self.slots[i].as_ref()
    }

    /// Create the permanent root anchor as a fresh parentless node.
    pub fn create_root(&mut self, pos: Pos) -> (h: Handle)
        ensures
            h.idx == old(self)@.len(),
            final(self)@ == old(self)@.push(Some(
                (Node { parent: None, body: NodeBody::Root, pos, size: (Extent { w: 0, h: 0 }) }),
            )),
    {
        let h = Handle { idx: self.slots.len() };
        self.slots.push(Some(Node { parent: None, body: NodeBody::Root, pos, size: Extent { w: 0, h: 0 } }));
        h
    }

    /// Create a new node as an immediate child of `parent`.
    pub fn attach_child(
        &mut self,
        parent: Handle,
        body: NodeBody,
        pos: Pos,
        size: Extent,
    ) -> (h: Handle)
        requires
            live(old(self)@, parent.idx as int),
        ensures
            h.idx == old(self)@.len(),
            final(self)@ == old(self)@.push(Some(
                (Node { parent: Some(parent.idx), body, pos, size }),
            )),
            graph_wf(old(self)@) ==> graph_wf(final(self)@),
            desc_of(final(self)@, h.idx as int, parent.idx as int),
    {
        let h = Handle { idx: self.slots.len() };
        self.slots.push(Some(Node { parent: Some(parent.idx), body, pos, size }));
        proof {
            let s0 = old(self)@;
            let s1 = self@;
            assert forall|i: int| #[trigger] live(s1, i) && graph_wf(s0) implies match node_of(
                s1,
                i,
            ).parent {
                Some(p) => p < i && live(s1, p as int),
                None => true,
            } by {
                if i < s0.len() {
                    assert(live(s0, i));
                }
            }
        }
        h
    }

    /// The name of the card a handle points at, or `None` where the handle
    /// is dead, out of range, or points at something that is not a card.
    pub fn card_name(&self, h: Handle) -> (r: Option<&String>)
        ensures
            match r {
                Some(name) => live(self@, h.idx as int) && node_of(self@, h.idx as int).body
                    is Card && name@ == card_of(node_of(self@, h.idx as int)).name@,
                None => !(live(self@, h.idx as int) && node_of(self@, h.idx as int).body is Card),
            },
    {
        if h.idx >= self.slots.len() {
            return None;
        }
        match &self.slots[h.idx] {
            Some(node) => match &node.body {
                NodeBody::Card(c) => Some(&c.name),
                _ => None,
            },
            None => None,
        }
    }

    /// Destroy every descendant of `root`, transitively and completely;
    /// `root` itself and all unrelated nodes are untouched. Handles of the
    /// destroyed nodes are dead from here on.
    pub fn destroy_descendants(&mut self, root: Handle)
        requires
            graph_wf(old(self)@),
            live(old(self)@, root.idx as int),
        ensures
            final(self)@.len() == old(self)@.len(),
            forall|i: int|
                0 <= i < old(self)@.len() ==> final(self)@[i] == (if desc_of(
                    old(self)@,
                    i,
                    root.idx as int,
                ) {
                    None::<Node>
                } else {
                    old(self)@[i]
                }),
            live(final(self)@, root.idx as int),
            node_of(final(self)@, root.idx as int) == node_of(old(self)@, root.idx as int),
            graph_wf(final(self)@),
    {
        let ghost s0 = self@;
        let ghost r = root.idx as int;
        let n = self.slots.len();
        let mut i: usize = 0;
        while i < n
            invariant
                n == s0.len(),
                self@.len() == n,
                graph_wf(s0),
                live(s0, r),
                r == root.idx,
                root.idx < n,
                i <= n,
                forall|j: int|
                    0 <= j < i ==> self@[j] == (if desc_of(s0, j, r) {
                        None::<Node>
                    } else {
                        s0[j]
                    }),
                forall|j: int| i <= j < n ==> self@[j] == s0[j],
            decreases n - i,
        {
            let kill = match &self.slots[i] {
                Some(node) => match node.parent {
                    Some(p) => {
                        proof {
                            // The slot is untouched so far, so this is the
                            // node the scan started from, and well-formedness
                            // puts its parent in an earlier slot.
                            assert(self@[i as int] == s0[i as int]);
                            assert(live(s0, i as int));
                            assert(p < i && live(s0, p as int));
                        }
                        p == root.idx || self.slots[p].is_none()
                    },
                    None => false,
                },
                None => false,
            };
            proof {
                assert(self@[i as int] == s0[i as int]);
                if live(s0, i as int) {
                    match node_of(s0, i as int).parent {
                        Some(p) => {
                            // The parent sits in an earlier slot, already
                            // rewritten by this scan, so its slot is empty
                            // exactly when it was a descendant of `root`.
                            assert(p < i && live(s0, p as int));
                            assert(self@[p as int] == (if desc_of(s0, p as int, r) {
                                None::<Node>
                            } else {
                                s0[p as int]
                            }));
                        },
                        None => {},
                    }
                }
                assert(kill == desc_of(s0, i as int, r));
            }
            if kill {
                self.slots.set(i, None);
            }
            i += 1;
        }
        proof {
            lemma_no_desc_at_or_below(s0, r, r);
            assert(self@[r] == s0[r]);
            let s1 = self@;
            assert forall|i: int| #[trigger] live(s1, i) implies match node_of(s1, i).parent {
                Some(p) => p < i && live(s1, p as int),
                None => true,
            } by {
                assert(s1[i] == (if desc_of(s0, i, r) {
                    None::<Node>
                } else {
                    s0[i]
                }));
                assert(live(s0, i) && !desc_of(s0, i, r));
                match node_of(s0, i).parent {
                    Some(p) => {
                        // Were the parent a descendant, this node would be
                        // one too; so the parent survived the sweep.
                        assert(p < i && live(s0, p as int));
                        assert(!desc_of(s0, p as int, r));
                    },
                    None => {},
                }
            }
        }
    }
}

} // verus!
