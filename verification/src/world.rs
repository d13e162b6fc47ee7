//! The world: the store rooted at the permanent world-root anchor, the
//! level-triggered rebuild controller, the one-shot rebuild trigger, and the
//! discrete update pass that ties them to the pointer picker.

use vstd::prelude::*;

use crate::geometry::Pos;
use crate::picker::{card_hit, pick_card};
use crate::scene::{populate, scene_established, SCENE_LEN};
use crate::store::{desc_of, graph_wf, live, node_of, Handle, Node, NodeBody, Store};

verus! {

/// The one-shot rebuild trigger: once it has fired it stays disabled until
/// an external collaborator re-arms it.
#[derive(Clone, Copy, PartialEq, Eq, Structural, Debug)]
pub struct Trigger {
    pub fired: bool,
}

/// The whole interactive scene: the entity store, the handle of the world
/// root, the drained-per-pass rebuild signal (multiple requests in one pass
/// collapse to one), the trigger, and how many rebuilds have run.
pub struct World {
    pub store: Store,
    pub root: Handle,
    pub pending: bool,
    pub trigger: Trigger,
    pub rebuilds: u64,
}

/// What one update pass is told from outside: whether the external reload
/// mechanism re-armed the trigger this pass, whether a left click completed
/// this pass, and where the cursor is in world space — `None` both when the
/// cursor is outside the window and when the camera conversion failed.
#[derive(Clone, Copy, PartialEq, Eq, Structural, Debug)]
pub struct PassInput {
    pub rearm: bool,
    pub clicked: bool,
    pub cursor: Option<Pos>,
}

/// What a completed click came to: nothing to report (no click, or the
/// cursor position was unavailable), a click that hit no card, or the first
/// card hit.
#[derive(Clone, Copy, PartialEq, Eq, Structural, Debug)]
pub enum ClickOutcome {
    Silent,
    Missed,
    Hit(Handle),
}

/// What one update pass did: whether the world was cleared and repopulated,
/// and what the click came to.
#[derive(Clone, Copy, PartialEq, Eq, Structural, Debug)]
pub struct PassOutput {
    pub rebuilt: bool,
    pub click: ClickOutcome,
}

/// The control half of the world, abstracted for stating laws about passes.
pub ghost struct CtrlState {
    pub fired: bool,
    pub pending: bool,
    pub rebuilds: nat,
}

pub open spec fn ctrl_of(w: World) -> CtrlState {
    CtrlState { fired: w.trigger.fired, pending: w.pending, rebuilds: w.rebuilds as nat }
}

/// What one pass does to the control state: re-arming clears the trigger;
/// an unfired trigger fires, queueing a signal; the controller then drains
/// every queued signal, rebuilding once exactly when any was pending.
pub open spec fn ctrl_step(c: CtrlState, rearm: bool) -> CtrlState {
    let armed_fired = !rearm && c.fired;
    let pending = c.pending || !armed_fired;
    CtrlState {
        fired: true,
        pending: false,
        rebuilds: if pending {
            c.rebuilds + 1
        } else {
            c.rebuilds
        },
    }
}

/// The control state after `n` passes in which the external collaborator
/// neither re-arms the trigger nor requests a rebuild.
pub open spec fn ctrl_after_passes(c: CtrlState, n: nat) -> CtrlState
    decreases n,
{
    if n == 0 {
        c
    } else {
        ctrl_step(ctrl_after_passes(c, (n - 1) as nat), false)
    }
}

/// Law: the trigger fires once. Starting from boot (trigger unfired, no
/// signal pending), any run of passes with no external re-arming leaves the
/// trigger fired and the rebuild count exactly one above its starting point:
/// the first pass rebuilds once, and no later pass ever does.
pub proof fn lemma_single_fire(c: CtrlState, n: nat)
    requires
        !c.fired,
        !c.pending,
        n >= 1,
    ensures
        ctrl_after_passes(c, n).fired,
        !ctrl_after_passes(c, n).pending,
        ctrl_after_passes(c, n).rebuilds == c.rebuilds + 1,
    decreases n,
{
    if n == 1 {
        assert(ctrl_after_passes(c, 0) == c);
        assert(ctrl_after_passes(c, 1) == ctrl_step(c, false));
    } else {
        lemma_single_fire(c, (n - 1) as nat);
    }
}

impl World {
    /// Well-formedness: the store graph is well-formed, the root handle
    /// points at a live, parentless root node, and every other live node
    /// descends from it.
    pub open spec fn wf(self) -> bool {
        &&& graph_wf(self.store@)
        &&& live(self.store@, self.root.idx as int)
        &&& node_of(self.store@, self.root.idx as int).parent is None
        &&& node_of(self.store@, self.root.idx as int).body is Root
        &&& forall|i: int|
            #[trigger] live(self.store@, i) && i != self.root.idx ==> desc_of(
                self.store@,
                i,
                self.root.idx as int,
            )
    }

    /// Boot the world: create the root anchor at the origin and populate the
    /// initial scene under it. The trigger has not fired yet and no rebuild
    /// signal is pending.
    pub fn boot() -> (w: World)
        ensures
            w.wf(),
            !w.trigger.fired,
            !w.pending,
            w.rebuilds == 0,
            w.root.idx == 0,
            w.store@.len() == SCENE_LEN + 1,
            node_of(w.store@, 0).pos == (Pos { x: 0, y: 0 }),
            scene_established(w.store@, w.root.idx, 1),
    {
        let mut store = Store::new();
        let root = store.create_root(Pos { x: 0, y: 0 });
        proof {
            assert forall|i: int| #[trigger] live(store@, i) implies node_of(store@, i).parent
                is None by {}
        }
        populate(&mut store, root);
        let w = World { store, root, pending: false, trigger: Trigger { fired: false }, rebuilds: 0 };
        proof {
            assert forall|i: int| #[trigger] live(w.store@, i) && i != w.root.idx implies desc_of(
                w.store@,
                i,
                w.root.idx as int,
            ) by {
                assert(1 <= i < 1 + SCENE_LEN);
                assert(live(w.store@, 1 + (i - 1)) && node_of(w.store@, 1 + (i - 1)).parent
                    == Some(w.root.idx));
            }
        }
        w
    }

    /// The reload entry point: queue a rebuild signal. The next pass drains
    /// it, however many were queued, and rebuilds once.
    pub fn request_rebuild(&mut self)
        ensures
            final(self).pending,
            final(self).store == old(self).store,
            final(self).root == old(self).root,
            final(self).trigger == old(self).trigger,
            final(self).rebuilds == old(self).rebuilds,
    {
        self.pending = true;
    }

    /// One discrete update pass. In order: the external re-arm is applied;
    /// the trigger fires if it has not yet; the controller drains the signal
    /// and, if any was pending, destroys every descendant of the root and
    /// repopulates the scene; last, a completed click is resolved against
    /// the (possibly fresh) scene. A rebuild thus fully precedes the click's
    /// hit test within the same pass.
    pub fn pass(&mut self, input: PassInput) -> (out: PassOutput)
        requires
            old(self).wf(),
            old(self).rebuilds < u64::MAX,
        ensures
            final(self).wf(),
            final(self).root == old(self).root,
            ctrl_of(*final(self)) == ctrl_step(ctrl_of(*old(self)), input.rearm),
            out.rebuilt == (old(self).pending || input.rearm || !old(self).trigger.fired),
            out.rebuilt ==> {
                &&& scene_established(
                    final(self).store@,
                    old(self).root.idx,
                    old(self).store@.len() as int,
                )
                &&& final(self).store@.len() == old(self).store@.len() + SCENE_LEN
                &&& forall|i: int|
                    0 <= i < old(self).store@.len() && i != old(self).root.idx
                        ==> final(self).store@[i] is None
                &&& final(self).store@[old(self).root.idx as int] == old(self).store@[old(
                    self,
                ).root.idx as int]
            },
            !out.rebuilt ==> final(self).store@ == old(self).store@,
            match out.click {
                ClickOutcome::Silent => !input.clicked || input.cursor is None,
                ClickOutcome::Missed => input.clicked && input.cursor is Some && forall|j: int|
                    !card_hit(
                        final(self).store@,
                        j,
                        input.cursor->0.x as int,
                        input.cursor->0.y as int,
                    ),
                ClickOutcome::Hit(h) => input.clicked && input.cursor is Some && card_hit(
                    final(self).store@,
                    h.idx as int,
                    input.cursor->0.x as int,
                    input.cursor->0.y as int,
                ) && forall|j: int|
                    0 <= j < h.idx ==> !card_hit(
                        final(self).store@,
                        j,
                        input.cursor->0.x as int,
                        input.cursor->0.y as int,
                    ),
            },
            input.clicked && input.cursor is Some ==> !(out.click is Silent),
    {
        let ghost s0 = self.store@;
        let ghost r = self.root.idx as int;
        if input.rearm {
            self.trigger.fired = false;
        }
        if !self.trigger.fired {
            self.trigger.fired = true;
            self.pending = true;
        }
        let mut rebuilt = false;
        if self.pending {
            self.pending = false;
            self.store.destroy_descendants(self.root);
            proof {
                let s1 = self.store@;
                // After the sweep only the root is left alive: every other
                // live node was a descendant, so in particular none is still
                // a child of the root.
                assert forall|i: int| #[trigger] live(s1, i) implies node_of(s1, i).parent != Some(
                    self.root.idx,
                ) by {
                    assert(s1[i] == (if desc_of(s0, i, r) {
                        None::<Node>
                    } else {
                        s0[i]
                    }));
                    assert(live(s0, i) && !desc_of(s0, i, r));
                    if node_of(s0, i).parent == Some(self.root.idx) {
                        assert(desc_of(s0, i, r));
                    }
                }
            }
            let ghost s1 = self.store@;
            populate(&mut self.store, self.root);
            self.rebuilds = self.rebuilds + 1;
            rebuilt = true;
            proof {
                let s2 = self.store@;
                let base = s1.len() as int;
                assert(s1.len() == s0.len());
                assert forall|i: int| #[trigger] live(s2, i) && i != self.root.idx implies desc_of(
                    s2,
                    i,
                    r,
                ) by {
                    if i < base {
                        assert(s2[i] == s1[i]);
                        assert(s1[i] == (if desc_of(s0, i, r) {
                            None::<Node>
                        } else {
                            s0[i]
                        }));
                        assert(live(s0, i));
                        assert(i == r);
                    } else {
                        assert(live(s2, base + (i - base)) && node_of(s2, base + (i - base)).parent
                            == Some(self.root.idx));
                    }
                }
                // Every slot of the old generation, but the root's, is empty.
                assert forall|i: int| 0 <= i < s0.len() && i != r implies s2[i] is None by {
                    assert(s2[i] == s1[i]);
                    assert(s1[i] == (if desc_of(s0, i, r) {
                        None::<Node>
                    } else {
                        s0[i]
                    }));
                    if live(s0, i) {
                        assert(desc_of(s0, i, r));
                    }
                }
                // The root's own slot carries through both phases unchanged.
                assert(s2[r] == s1[r]);
                assert(s1[r] == (if desc_of(s0, r, r) {
                    None::<Node>
                } else {
                    s0[r]
                }));
                assert(live(s1, r));
                assert(s2[r] == s0[r]);
            }
        }
        let click = if input.clicked {
            match input.cursor {
                Some(cpos) => match pick_card(&self.store, cpos) {
                    Some(h) => ClickOutcome::Hit(h),
                    None => ClickOutcome::Missed,
                },
                None => ClickOutcome::Silent,
            }
        } else {
            ClickOutcome::Silent
        };
        PassOutput { rebuilt, click }
    }
}

/// Law: the root invariant. In any well-formed world every live entity other
/// than the world root — the table and the cards alike — has the root as an
/// ancestor through the parent chain.
pub proof fn lemma_root_ancestry(w: World)
    requires
        w.wf(),
    ensures
        forall|i: int|
            #[trigger] live(w.store@, i) && i != w.root.idx ==> desc_of(
                w.store@,
                i,
                w.root.idx as int,
            ),
{
}

} // verus!
