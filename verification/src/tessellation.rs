//! The bookkeeping of the path tessellator: the stack of vertex buffers,
//! one buffer per run of fills and strokes of the same style, and the stack
//! of transforms.
use vstd::prelude::*;

verus! {

/// The style of the vertices of a buffer.
#[derive(Debug, Clone, Copy, PartialEq, Eq, Structural)]
pub enum BufferKind {
    Solid,
    Gradient,
}

/// A stack of vertex buffers, each with the style of its vertices.
pub struct BufferStack<B> {
    pub stack: Vec<(BufferKind, B)>,
}

impl<B> BufferStack<B> {
    pub fn new() -> (r: BufferStack<B>)
        ensures
            r.stack@.len() == 0,
    {
        BufferStack { stack: Vec::new() }
    }

    /// The index of the buffer to draw into with a style of `kind`: the top
    /// buffer when it has that style, else `fresh`, pushed on top.
    pub fn get_mut(&mut self, kind: BufferKind, fresh: B) -> (r: usize)
        ensures
            r == final(self).stack@.len() - 1,
            final(self).stack@[r as int].0 == kind,
            old(self).stack@.len() > 0 && old(self).stack@.last().0 == kind ==> final(self).stack@
                == old(self).stack@,
            !(old(self).stack@.len() > 0 && old(self).stack@.last().0 == kind) ==> final(self).stack@ == old(self).stack@.push((kind, fresh)),
    {
        let n = self.stack.len();
        if n > 0 && self.stack[n - 1].0 == kind {
            n - 1
        } else {
            self.stack.push((kind, fresh));
            n
        }
    }
}

/// The transform in use and the saved ones.
pub struct TransformStack<T> {
    pub previous: Vec<T>,
    pub current: T,
}

impl<T: Copy> TransformStack<T> {
    pub fn new(identity: T) -> (r: TransformStack<T>)
        ensures
            r.previous@.len() == 0,
            r.current == identity,
    {
        TransformStack { previous: Vec::new(), current: identity }
    }

    /// Saves the current transform.
    pub fn push_transform(&mut self)
        ensures
            final(self).previous@ == old(self).previous@.push(old(self).current),
            final(self).current == old(self).current,
    {
        let c = self.current;
        self.previous.push(c);
    }

    /// Makes the last saved transform the current one again.
    pub fn pop_transform(&mut self)
        requires
            old(self).previous@.len() > 0,
        ensures
            final(self).previous@ == old(self).previous@.drop_last(),
            final(self).current == old(self).previous@.last(),
    {
        self.current = self.previous.pop().unwrap();
    }
}

/// Restoring a transform right after saving it gives back the stack as it
/// was: the saved transforms and the current one.
pub proof fn lemma_push_pop_transform<T>(previous: Seq<T>, current: T)
    ensures
        previous.push(current).drop_last() == previous,
        previous.push(current).last() == current,
{
    assert(previous.push(current).drop_last() =~= previous);
}

} // verus!
