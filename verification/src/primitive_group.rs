//! A group of primitives that can be added to a canvas, usually the output of
//! a single widget. Consecutive primitives of one kind, drawn with the same
//! scissor rectangle and z index, share a batch.
use vstd::prelude::*;
use crate::geom::RectI32;

verus! {

/// The z index of a primitive: higher indices are drawn later.
pub type ZIndex = u16;

/// The kinds of primitive; each kind has a pipeline of its own.
#[derive(Debug, Clone, Copy, PartialEq, Eq, Structural, Hash)]
pub enum PrimitiveKind {
    SolidQuad,
    GradientQuad,
    Text,
    SolidMesh,
    GradientMesh,
    Image,
    Custom,
}

/// A primitive: its kind, the custom pipeline that draws it (for custom
/// primitives), and what the pipeline draws.
#[derive(Debug, Clone, PartialEq)]
pub struct Primitive<P> {
    pub kind: PrimitiveKind,
    pub pipeline_index: usize,
    pub payload: P,
}

/// A run of primitives of one kind, with the z index and scissor rectangle
/// that were current when the run began.
#[derive(Debug, Clone, PartialEq)]
pub struct PrimitiveBatchSlice<P> {
    pub kind: PrimitiveKind,
    pub primitives: Vec<Primitive<P>>,
    pub z_index: ZIndex,
    pub scissor_rect: Option<RectI32>,
}

/// What a batch holds.
pub struct BatchView<P> {
    pub kind: PrimitiveKind,
    pub primitives: Seq<Primitive<P>>,
    pub z_index: ZIndex,
    pub scissor_rect: Option<RectI32>,
}

impl<P> View for PrimitiveBatchSlice<P> {
    type V = BatchView<P>;

    open spec fn view(&self) -> BatchView<P> {
        BatchView {
            kind: self.kind,
            primitives: self.primitives@,
            z_index: self.z_index,
            scissor_rect: self.scissor_rect,
        }
    }
}

/// Every primitive of the batches, batch after batch.
pub open spec fn flatten<P>(batches: Seq<BatchView<P>>) -> Seq<Primitive<P>>
    decreases batches.len(),
{
    if batches.len() == 0 {
        Seq::empty()
    } else {
        flatten(batches.drop_last()) + batches.last().primitives
    }
}

/// Whether every primitive of the sequence has the given kind.
pub open spec fn all_of_kind<P>(ps: Seq<Primitive<P>>, kind: PrimitiveKind) -> bool {
    forall|i: int| 0 <= i < ps.len() ==> (#[trigger] ps[i]).kind == kind
}

/// A group of primitives, batched as they were added.
pub struct PrimitiveGroup<P> {
    pub primitive_batches: Vec<PrimitiveBatchSlice<P>>,
    pub current_scissor_rect: Option<RectI32>,
    pub current_z_index: ZIndex,
    pub create_new_batch: bool,
}

impl<P> PrimitiveGroup<P> {
    /// The batches of the group.
    pub open spec fn batches(&self) -> Seq<BatchView<P>> {
        self.primitive_batches@.map_values(|b: PrimitiveBatchSlice<P>| b@)
    }

    /// The group's invariant: a new batch is always begun when there is no
    /// batch yet, and every primitive sits in a batch of its own kind.
    pub open spec fn wf(&self) -> bool {
        &&& (!self.create_new_batch ==> self.primitive_batches.len() > 0)
        &&& forall|i: int|
            0 <= i < self.batches().len() ==> all_of_kind(
                #[trigger] self.batches()[i].primitives,
                self.batches()[i].kind,
            )
    }

    /// Whether a primitive of `kind` added now begins a new batch.
    pub open spec fn begins_new_batch(&self, kind: PrimitiveKind) -> bool {
        self.create_new_batch || self.batches().last().kind != kind
    }

    pub fn new() -> (r: PrimitiveGroup<P>)
        ensures
            r.wf(),
            r.batches() == Seq::<BatchView<P>>::empty(),
            r.current_scissor_rect is None,
            r.current_z_index == 0,
            r.create_new_batch,
    {
        PrimitiveGroup {
            primitive_batches: Vec::new(),
            current_scissor_rect: None,
            current_z_index: 0,
            create_new_batch: true,
        }
    }

    /// Removes every batch and resets the scissor rectangle and z index.
    pub fn clear(&mut self)
        ensures
            final(self).wf(),
            final(self).batches() == Seq::<BatchView<P>>::empty(),
            final(self).current_scissor_rect is None,
            final(self).current_z_index == 0,
            final(self).create_new_batch,
    {
        self.primitive_batches.clear();
        self.current_scissor_rect = None;
        self.create_new_batch = true;
        self.current_z_index = 0;
        assert(self.batches() =~= Seq::<BatchView<P>>::empty());
    }

    pub fn set_scissor_rect(&mut self, scissor_rect: RectI32)
        requires
            old(self).wf(),
        ensures
            final(self).wf(),
            final(self).batches() == old(self).batches(),
            final(self).current_scissor_rect == Some(scissor_rect),
            final(self).current_z_index == old(self).current_z_index,
            final(self).create_new_batch,
    {
        self.current_scissor_rect = Some(scissor_rect);
        self.create_new_batch = true;
    }

    pub fn reset_scissor_rect(&mut self)
        requires
            old(self).wf(),
        ensures
            final(self).wf(),
            final(self).batches() == old(self).batches(),
            final(self).current_scissor_rect is None,
            final(self).current_z_index == old(self).current_z_index,
            final(self).create_new_batch,
    {
        self.current_scissor_rect = None;
        self.create_new_batch = true;
    }

    pub fn scissor_rect(&self) -> (r: &Option<RectI32>)
        ensures
            *r == self.current_scissor_rect,
    {
        &self.current_scissor_rect
    }

    /// Sets the z index; a change of z index begins a new batch.
    pub fn set_z_index(&mut self, z_index: ZIndex)
        requires
            old(self).wf(),
        ensures
            final(self).wf(),
            final(self).batches() == old(self).batches(),
            final(self).current_scissor_rect == old(self).current_scissor_rect,
            final(self).current_z_index == z_index,
            final(self).create_new_batch == (old(self).create_new_batch
                || old(self).current_z_index != z_index),
    {
        if self.current_z_index != z_index {
            self.create_new_batch = true;
        }
        self.current_z_index = z_index;
    }

    pub fn z_index(&self) -> (r: ZIndex)
        ensures
            r == self.current_z_index,
    {
        self.current_z_index
    }

    /// Adds one primitive: to the last batch when that batch is of the same
    /// kind and no new batch is due, else to a new batch.
    pub fn add(&mut self, primitive: Primitive<P>)
        requires
            old(self).wf(),
        ensures
            final(self).wf(),
            !final(self).create_new_batch,
            final(self).current_scissor_rect == old(self).current_scissor_rect,
            final(self).current_z_index == old(self).current_z_index,
            old(self).begins_new_batch(primitive.kind) ==> final(self).batches() == old(self).batches().push(
                BatchView {
                    kind: primitive.kind,
                    primitives: seq![primitive],
                    z_index: old(self).current_z_index,
                    scissor_rect: old(self).current_scissor_rect,
                },
            ),
            !old(self).begins_new_batch(primitive.kind) ==> final(self).batches() == old(self).batches().drop_last().push(
                BatchView {
                    primitives: old(self).batches().last().primitives.push(primitive),
                    ..old(self).batches().last()
                },
            ),
            flatten(final(self).batches()) == flatten(old(self).batches()).push(primitive),
    {
        let mut ps: Vec<Primitive<P>> = Vec::new();
        let ghost p = primitive;
        let ghost ob = self.batches();
        let kind = primitive.kind;
        ps.push(primitive);
        proof {
            assert(ps@ =~= seq![p]);
        }
        self.add_batch(kind, ps);
        proof {
            assert(ob.last().primitives + seq![p] =~= ob.last().primitives.push(p));
            assert(flatten(ob) + seq![p] =~= flatten(ob).push(p));
        }
    }

    /// Adds a run of primitives of one kind: to the last batch when that batch
    /// is of the same kind and no new batch is due, else as a new batch (even
    /// when the run is empty).
    pub fn add_batch(&mut self, kind: PrimitiveKind, primitives: Vec<Primitive<P>>)
        requires
            old(self).wf(),
            all_of_kind(primitives@, kind),
        ensures
            final(self).wf(),
            !final(self).create_new_batch,
            final(self).current_scissor_rect == old(self).current_scissor_rect,
            final(self).current_z_index == old(self).current_z_index,
            old(self).begins_new_batch(kind) ==> final(self).batches() == old(self).batches().push(
                BatchView {
                    kind,
                    primitives: primitives@,
                    z_index: old(self).current_z_index,
                    scissor_rect: old(self).current_scissor_rect,
                },
            ),
            !old(self).begins_new_batch(kind) ==> final(self).batches() == old(self).batches().drop_last().push(
                BatchView {
                    primitives: old(self).batches().last().primitives + primitives@,
                    ..old(self).batches().last()
                },
            ),
            flatten(final(self).batches()) == flatten(old(self).batches()) + primitives@,
    {
        let ghost old_batches = self.batches();
        let ghost new_ps = primitives@;
        let mut new_batch = self.create_new_batch;
        if !new_batch {
            let last = self.primitive_batches.len() - 1;
            new_batch = self.primitive_batches[last].kind != kind;
        }
        if new_batch {
            self.create_new_batch = false;
            let slice = PrimitiveBatchSlice {
                z_index: self.current_z_index,
                scissor_rect: self.current_scissor_rect,
                kind,
                primitives,
            };
            self.primitive_batches.push(slice);
            proof {
                assert(self.batches() =~= old_batches.push(slice@));
                assert(self.batches().drop_last() =~= old_batches);
            }
        } else {
            let mut b = self.primitive_batches.pop().unwrap();
            let ghost before = b@;
            let mut rest = primitives;
            b.primitives.append(&mut rest);
            self.primitive_batches.push(b);
            proof {
                assert(old_batches.last() == before);
                assert(self.batches() =~= old_batches.drop_last().push(b@));
                assert(self.batches().drop_last() =~= old_batches.drop_last());
                assert(b@.primitives =~= before.primitives + new_ps);
                assert(flatten(old_batches) == flatten(old_batches.drop_last())
                    + before.primitives);
            }
        }
        proof {
            assert forall|i: int| 0 <= i < self.batches().len() implies all_of_kind(
                #[trigger] self.batches()[i].primitives,
                self.batches()[i].kind,
            ) by {
                if i < self.batches().len() - 1 {
                    assert(self.batches()[i] == old_batches[i]);
                }
            }
        }
    }
}

} // verus!
