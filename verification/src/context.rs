//! The drawing context's frame bookkeeping: the stack of render states that
//! `save` and `restore` walk, and the queue of drawing commands with the
//! running count of the vertices they use.
use vstd::prelude::*;

verus! {

/// The stack of render states: the last one is in force; the first, the
/// base state, is never popped.
pub struct StateStack<S> {
    pub states: Vec<S>,
}

impl<S: Copy> StateStack<S> {
    /// The invariant: there is always a state in force.
    pub open spec fn wf(&self) -> bool {
        self.states@.len() >= 1
    }

    /// The state in force.
    pub open spec fn current(&self) -> S {
        self.states@.last()
    }

    /// A stack holding only the base state.
    pub fn new(base: S) -> (r: StateStack<S>)
        ensures
            r.wf(),
            r.states@ == seq![base],
    {
        let mut states = Vec::new();
        states.push(base);
        StateStack { states }
    }

    /// Saves the state in force: a copy of it is pushed, and a matching
    /// `restore` brings it back.
    pub fn save(&mut self)
        requires
            old(self).wf(),
        ensures
            final(self).wf(),
            final(self).states@ == old(self).states@.push(old(self).states@.last()),
    {
        let last = self.states[self.states.len() - 1];
        self.states.push(last);
    }

    /// Restores the last saved state: the state in force is popped, unless it
    /// is the base state.
    pub fn restore(&mut self)
        requires
            old(self).wf(),
        ensures
            final(self).wf(),
            final(self).states@ == if old(self).states@.len() > 1 {
                old(self).states@.drop_last()
            } else {
                old(self).states@
            },
    {
        if self.states.len() > 1 {
            self.states.pop();
        }
    }

    /// Drops every saved state, keeping the base state only, and sets it to
    /// `base`.
    pub fn truncate_to_base(&mut self, base: S)
        requires
            old(self).wf(),
        ensures
            final(self).wf(),
            final(self).states@ == seq![base],
    {
        self.states.truncate(1);
        self.states.set(0, base);
        assert(self.states@ =~= seq![base]);
    }

    /// The state in force.
    pub fn last(&self) -> (r: S)
        requires
            self.wf(),
        ensures
            r == self.current(),
    {
        self.states[self.states.len() - 1]
    }

    /// Replaces the state in force.
    pub fn set_last(&mut self, state: S)
        requires
            old(self).wf(),
        ensures
            final(self).wf(),
            final(self).states@ == old(self).states@.update(old(self).states@.len() - 1, state),
    {
        let n = self.states.len();
        self.states.set(n - 1, state);
    }
}

/// Saving then restoring gives the stack back as it was.
pub proof fn lemma_save_restore<S>(states: Seq<S>)
    requires
        states.len() >= 1,
    ensures
        states.push(states.last()).len() > 1,
        states.push(states.last()).drop_last() == states,
{
    assert(states.push(states.last()).drop_last() =~= states);
}

/// The base state is never popped: restoring a stack of one state leaves it
/// as it is, and restoring never empties a stack.
pub proof fn lemma_restore_keeps_base<S>(states: Seq<S>)
    requires
        states.len() >= 1,
    ensures
        (if states.len() > 1 { states.drop_last() } else { states }).len() >= 1,
        (if states.len() > 1 { states.drop_last() } else { states })[0] == states[0],
{
}

/// The drawing commands queued in a frame, the number of vertices they use,
/// and whether the frame still needs preparing.
pub struct FrameQueue<Q> {
    pub queued_items: Vec<Q>,
    pub total_num_vertices: usize,
    pub needs_preparing: bool,
}

/// A range of vertices, from its start up to its end (excluded).
#[derive(Debug, Clone, Copy, PartialEq, Eq, Structural)]
pub struct VertRange {
    pub start: u32,
    pub end: u32,
}

impl<Q> FrameQueue<Q> {
    /// An empty queue that needs no preparing.
    pub fn new() -> (r: FrameQueue<Q>)
        ensures
            r.queued_items@.len() == 0,
            r.total_num_vertices == 0,
            !r.needs_preparing,
    {
        FrameQueue { queued_items: Vec::new(), total_num_vertices: 0, needs_preparing: false }
    }

    /// Begins a frame: nothing is queued, no vertices are used, and the frame
    /// needs preparing.
    pub fn begin_frame(&mut self)
        ensures
            final(self).queued_items@.len() == 0,
            final(self).total_num_vertices == 0,
            final(self).needs_preparing,
    {
        self.queued_items.clear();
        self.total_num_vertices = 0;
        self.needs_preparing = true;
    }

    /// Cancels the frame: the queued items and the vertex count are cleared,
    /// and nothing is left to prepare.
    pub fn cancel_frame(&mut self)
        ensures
            final(self).queued_items@.len() == 0,
            final(self).total_num_vertices == 0,
            !final(self).needs_preparing,
    {
        self.queued_items.clear();
        self.total_num_vertices = 0;
        self.needs_preparing = false;
    }

    /// Queues a drawing command.
    pub fn queue(&mut self, item: Q)
        ensures
            final(self).queued_items@ == old(self).queued_items@.push(item),
            final(self).total_num_vertices == old(self).total_num_vertices,
            final(self).needs_preparing == old(self).needs_preparing,
    {
        self.queued_items.push(item);
    }

    /// The vertex range of a mesh's fill or stroke in this frame, and whether
    /// its vertices must be copied: a mesh already drawn in the frame keeps its
    /// range and is not copied again; a mesh without vertices is not drawn
    /// (`None`); otherwise its `len` vertices take the next range, after the
    /// vertices used so far (the ends taken as `u32`), and are copied.
    pub fn claim_vert_range(&mut self, existing: Option<VertRange>, len: usize) -> (r: Option<
        (VertRange, bool),
    >)
        requires
            existing is None && len > 0 ==> old(self).total_num_vertices + len <= usize::MAX,
        ensures
            final(self).queued_items@ == old(self).queued_items@,
            final(self).needs_preparing == old(self).needs_preparing,
            match existing {
                Some(v) => r == Some((v, false)) && final(self).total_num_vertices
                    == old(self).total_num_vertices,
                None => if len == 0 {
                    r is None && final(self).total_num_vertices == old(self).total_num_vertices
                } else {
                    r == Some((
                        VertRange {
                            start: old(self).total_num_vertices as u32,
                            end: (old(self).total_num_vertices + len) as u32,
                        },
                        true,
                    )) && final(self).total_num_vertices == old(self).total_num_vertices + len
                },
            },
    {
        match existing {
            Some(v) => Some((v, false)),
            None => {
                if len == 0 {
                    None
                } else {
                    let start = self.total_num_vertices;
                    let end = start + len;
                    self.total_num_vertices = end;
                    Some((VertRange { start: start as u32, end: end as u32 }, true))
                }
            },
        }
    }

    /// Whether the frame must be prepared now: only once per frame.
    pub fn take_needs_preparing(&mut self) -> (r: bool)
        ensures
            r == old(self).needs_preparing,
            !final(self).needs_preparing,
            final(self).queued_items@ == old(self).queued_items@,
            final(self).total_num_vertices == old(self).total_num_vertices,
    {
        let r = self.needs_preparing;
        self.needs_preparing = false;
        r
    }
}

} // verus!
