use vstd::prelude::*;
use crate::camera::Square;
use crate::canvas::MAX_LAYERS;
use crate::color::Color;

verus! {

/// Bound on each history stack; the oldest entry is evicted on overflow.
pub const STACK_SIZE: usize = 15;

/// An immutable snapshot of everything a canvas needs to restore itself:
/// layer count, active layer, layer names and name counter, visibility flags,
/// the full pixel grid and the full squares cache.
pub struct CanvasState {
    pub layers: usize,
    pub active_layer: usize,
    pub layer_names: Vec<u64>,
    pub layer_name_cnt: u64,
    pub layers_to_show: Vec<bool>,
    pub pixels: Vec<Color>,
    pub squares: Vec<Square>,
}

impl CanvasState {
    /// Structural soundness of a snapshot against grid dimensions `w x h`.
    pub open spec fn wf(self, w: int, h: int) -> bool {
        &&& 1 <= self.layers <= MAX_LAYERS
        &&& self.active_layer < self.layers
        &&& self.layer_names@.len() == self.layers
        &&& self.layers_to_show@.len() == self.layers
        &&& self.pixels@.len() == w * h * self.layers
        &&& self.squares@.len() == w * h * (self.layers + 1)
    }

    pub fn new(layers: usize, active_layer: usize, layer_names: Vec<u64>,
        layer_name_cnt: u64, layers_to_show: Vec<bool>, pixels: Vec<Color>,
        squares: Vec<Square>) -> (s: CanvasState)
        ensures
            s == (CanvasState {
                layers, active_layer, layer_names, layer_name_cnt, layers_to_show,
                pixels, squares
            }),
    {
        CanvasState {
            layers,
            active_layer,
            layer_names,
            layer_name_cnt,
            layers_to_show,
            pixels,
            squares,
        }
    }
}

/// Ghost model of the undo/redo history: the current snapshot and the two
/// bounded stacks, most recent entry last.
pub struct History {
    pub current: CanvasState,
    pub undo: Seq<CanvasState>,
    pub redo: Seq<CanvasState>,
}

impl History {
    /// Neither stack ever retains more than `STACK_SIZE` entries.
    pub open spec fn wf(self) -> bool {
        &&& self.undo.len() <= STACK_SIZE
        &&& self.redo.len() <= STACK_SIZE
    }
}

/// Pushing onto a bounded stack: the oldest (front) entry is evicted when the
/// stack is full, so the most recent history survives memory pressure.
pub open spec fn spec_push_evict(stk: Seq<CanvasState>, s: CanvasState) -> Seq<CanvasState> {
    if stk.len() < STACK_SIZE {
        stk.push(s)
    } else {
        stk.subrange(1, stk.len() as int).push(s)
    }
}

/// The history after committing a new state: the redo timeline is discarded,
/// the previous current state moves onto the undo stack.
pub open spec fn spec_commit(h: History, s: CanvasState) -> History {
    History {
        current: s,
        undo: spec_push_evict(h.undo, h.current),
        redo: Seq::empty(),
    }
}

/// The history after an undo: the most recent undo entry becomes current and
/// the previous current state moves onto the redo stack.
pub open spec fn spec_undo(h: History) -> History {
    History {
        current: h.undo.last(),
        undo: h.undo.drop_last(),
        redo: spec_push_evict(h.redo, h.current),
    }
}

/// The history after a redo, symmetric to `spec_undo`.
pub open spec fn spec_redo(h: History) -> History {
    History {
        current: h.redo.last(),
        undo: spec_push_evict(h.undo, h.current),
        redo: h.redo.drop_last(),
    }
}

/// Bounded two-stack undo/redo manager over canvas snapshots. States move
/// between the slots by ownership transfer, never by copying.
pub struct ChangeManager {
    pub current_state: CanvasState,
    pub undo_stk: Vec<CanvasState>,
    pub redo_stk: Vec<CanvasState>,
}

impl ChangeManager {
    /// The ghost history this manager holds.
    pub open spec fn hist(self) -> History {
        History {
            current: self.current_state,
            undo: self.undo_stk@,
            redo: self.redo_stk@,
        }
    }

    pub open spec fn wf(self) -> bool {
        self.hist().wf()
    }

    pub fn new(initial_state: CanvasState) -> (m: ChangeManager)
        ensures
            m.hist().current == initial_state,
            m.hist().undo.len() == 0,
            m.hist().redo.len() == 0,
            m.wf(),
    {
        ChangeManager {
            current_state: initial_state,
            undo_stk: Vec::new(),
            redo_stk: Vec::new(),
        }
    }

    /// The state the canvas currently shows.
    pub fn current(&self) -> (s: &CanvasState)
        ensures
            s == self.hist().current,
    {
        &self.current_state
    }

    pub fn is_undo_empty(&self) -> (r: bool)
        ensures
            r == (self.hist().undo.len() == 0),
    {
        self.undo_stk.len() == 0
    }

    pub fn is_redo_empty(&self) -> (r: bool)
        ensures
            r == (self.hist().redo.len() == 0),
    {
        self.redo_stk.len() == 0
    }

    /// Pushes onto the undo stack, evicting the oldest entry when full.
    pub fn push_undo(&mut self, s: CanvasState)
        requires
            old(self).wf(),
        ensures
            final(self).hist().undo == spec_push_evict(old(self).hist().undo, s),
            final(self).hist().current == old(self).hist().current,
            final(self).hist().redo == old(self).hist().redo,
            final(self).wf(),
    {
        if self.undo_stk.len() >= STACK_SIZE {
            self.undo_stk.remove(0);
            proof {
                assert(self.undo_stk@
                    =~= old(self).undo_stk@.subrange(1, old(self).undo_stk@.len() as int));
            }
        }
        self.undo_stk.push(s);
    }

    /// Pushes onto the redo stack, evicting the oldest entry when full.
    pub fn push_redo(&mut self, s: CanvasState)
        requires
            old(self).wf(),
        ensures
            final(self).hist().redo == spec_push_evict(old(self).hist().redo, s),
            final(self).hist().current == old(self).hist().current,
            final(self).hist().undo == old(self).hist().undo,
            final(self).wf(),
    {
        if self.redo_stk.len() >= STACK_SIZE {
            self.redo_stk.remove(0);
            proof {
                assert(self.redo_stk@
                    =~= old(self).redo_stk@.subrange(1, old(self).redo_stk@.len() as int));
            }
        }
        self.redo_stk.push(s);
    }

    /// Commits a new state: clears the redo timeline unconditionally, moves
    /// the previous current state onto the undo stack (evicting the oldest on
    /// overflow) and makes `c` current. The only way new states enter the
    /// timeline.
    pub fn push_new_state(&mut self, c: CanvasState)
        requires
            old(self).wf(),
        ensures
            final(self).hist().current == spec_commit(old(self).hist(), c).current,
            final(self).hist().undo == spec_commit(old(self).hist(), c).undo,
            final(self).hist().redo == spec_commit(old(self).hist(), c).redo,
            final(self).hist().redo.len() == 0,
            final(self).wf(),
    {
        if !self.is_redo_empty() {
            self.redo_stk.clear();
        }
        let mut temp_state = c;
        core::mem::swap(&mut temp_state, &mut self.current_state);
        self.push_undo(temp_state);
        proof {
            assert(self.redo_stk@ =~= Seq::<CanvasState>::empty());
        }
    }

    /// Steps back to the most recent undo entry, moving the current state
    /// onto the redo stack. Callers check `is_undo_empty` first: calling on an
    /// empty undo stack is a caller error.
    pub fn undo(&mut self) -> (s: &CanvasState)
        requires
            old(self).wf(),
            old(self).hist().undo.len() >= 1,
        ensures
            final(self).hist().current == spec_undo(old(self).hist()).current,
            final(self).hist().undo == spec_undo(old(self).hist()).undo,
            final(self).hist().redo == spec_undo(old(self).hist()).redo,
            s == final(self).hist().current,
            final(self).wf(),
    {
        let mut temp_state = self.undo_stk.pop().unwrap();
        core::mem::swap(&mut temp_state, &mut self.current_state);
        self.push_redo(temp_state);
        &self.current_state
    }

    /// Steps forward to the most recent redo entry, moving the current state
    /// back onto the undo stack. Callers check `is_redo_empty` first.
    pub fn redo(&mut self) -> (s: &CanvasState)
        requires
            old(self).wf(),
            old(self).hist().redo.len() >= 1,
        ensures
            final(self).hist().current == spec_redo(old(self).hist()).current,
            final(self).hist().undo == spec_redo(old(self).hist()).undo,
            final(self).hist().redo == spec_redo(old(self).hist()).redo,
            s == final(self).hist().current,
            final(self).wf(),
    {
        let mut temp_state = self.redo_stk.pop().unwrap();
        core::mem::swap(&mut temp_state, &mut self.current_state);
        self.push_undo(temp_state);
        &self.current_state
    }
}

/// Undo right after a commit restores exactly the state that was current
/// before the commit, whatever wf history the commit started from.
pub proof fn lemma_undo_after_commit(h: History, s: CanvasState)
    requires
        h.wf(),
    ensures
        spec_commit(h, s).undo.len() >= 1,
        spec_undo(spec_commit(h, s)).current == h.current,
{
}

/// Redo right after an undo restores exactly the state that was current
/// before the undo.
pub proof fn lemma_redo_after_undo(h: History)
    requires
        h.wf(),
        h.undo.len() >= 1,
    ensures
        spec_undo(h).redo.len() >= 1,
        spec_redo(spec_undo(h)).current == h.current,
{
}

/// A commit discards the redo timeline unconditionally, so a redo right after
/// any commit is disallowed; the state the commit displaced is the one an
/// undo then brings back.
pub proof fn lemma_commit_clears_redo(h: History, s: CanvasState)
    requires
        h.wf(),
    ensures
        spec_commit(h, s).redo.len() == 0,
        spec_undo(spec_commit(h, s)).redo == seq![s],
{
    assert(spec_push_evict(Seq::empty(), s) =~= seq![s]);
}

/// The two stacks never grow past `STACK_SIZE`, whichever transition runs.
pub proof fn lemma_history_bounded(h: History, s: CanvasState)
    requires
        h.wf(),
    ensures
        spec_commit(h, s).wf(),
        h.undo.len() >= 1 ==> spec_undo(h).wf(),
        h.redo.len() >= 1 ==> spec_redo(h).wf(),
{
}

} // verus!
