//! The canvas: primitives are collected into batches keyed by scissor
//! rectangle and z index, and the batches are then ordered for drawing.
use vstd::prelude::*;
use crate::geom::{
    offset_in_range, offset_scissor_rect, spec_offset_scissor_rect, PointI32, RectI32, SizeI32,
    VectorI32,
};
use crate::primitive_group::{
    all_of_kind, BatchView, Primitive, PrimitiveBatchSlice, PrimitiveGroup, PrimitiveKind, ZIndex,
};

verus! {

/// The number of built-in (non-custom) kinds of primitive.
pub const NUM_BUILTIN_KINDS: usize = 6;

/// The slot of a built-in kind in a batch entry; also the order in which the
/// kinds of one entry are drawn.
pub open spec fn spec_kind_slot(kind: PrimitiveKind) -> int {
    match kind {
        PrimitiveKind::SolidQuad => 0,
        PrimitiveKind::GradientQuad => 1,
        PrimitiveKind::SolidMesh => 2,
        PrimitiveKind::GradientMesh => 3,
        PrimitiveKind::Text => 4,
        PrimitiveKind::Image => 5,
        PrimitiveKind::Custom => 6,
    }
}

/// The built-in kind of a slot.
pub open spec fn spec_slot_kind(slot: int) -> PrimitiveKind {
    if slot == 0 {
        PrimitiveKind::SolidQuad
    } else if slot == 1 {
        PrimitiveKind::GradientQuad
    } else if slot == 2 {
        PrimitiveKind::SolidMesh
    } else if slot == 3 {
        PrimitiveKind::GradientMesh
    } else if slot == 4 {
        PrimitiveKind::Text
    } else {
        PrimitiveKind::Image
    }
}

/// The place of a built-in kind among the batches of one entry: solid quads,
/// gradient quads, solid meshes, gradient meshes, text, images; the custom
/// pipelines come after them all.
pub open spec fn drawing_rank(kind: PrimitiveKind) -> int {
    match kind {
        PrimitiveKind::SolidQuad => 0,
        PrimitiveKind::GradientQuad => 1,
        PrimitiveKind::SolidMesh => 2,
        PrimitiveKind::GradientMesh => 3,
        PrimitiveKind::Text => 4,
        PrimitiveKind::Image => 5,
        PrimitiveKind::Custom => 6,
    }
}

/// The list a built-in primitive is filed in is the one of its kind, and the
/// lists are numbered in the drawing order of the kinds.
pub proof fn lemma_kind_slots(kind: PrimitiveKind)
    ensures
        kind != PrimitiveKind::Custom ==> spec_kind_slot(kind) == drawing_rank(kind) && spec_slot_kind(
            spec_kind_slot(kind),
        ) == kind,
        kind != PrimitiveKind::Custom ==> 0 <= spec_kind_slot(kind) < NUM_BUILTIN_KINDS,
        forall|slot: int| 0 <= slot < NUM_BUILTIN_KINDS ==> drawing_rank(#[trigger] spec_slot_kind(slot)) == slot,
{
    assert forall|slot: int| 0 <= slot < NUM_BUILTIN_KINDS implies drawing_rank(#[trigger] spec_slot_kind(slot)) == slot by {
        if slot == 0 {} else if slot == 1 {} else if slot == 2 {} else if slot == 3 {} else if slot == 4 {} else {}
    }
}

pub fn kind_slot(kind: PrimitiveKind) -> (r: usize)
    ensures
        r == spec_kind_slot(kind),
        kind != PrimitiveKind::Custom ==> r == drawing_rank(kind) && spec_slot_kind(r as int) == kind,
{
    proof {
        lemma_kind_slots(kind);
    }
    match kind {
        PrimitiveKind::SolidQuad => 0,
        PrimitiveKind::GradientQuad => 1,
        PrimitiveKind::SolidMesh => 2,
        PrimitiveKind::GradientMesh => 3,
        PrimitiveKind::Text => 4,
        PrimitiveKind::Image => 5,
        PrimitiveKind::Custom => 6,
    }
}

fn slot_kind(slot: usize) -> (r: PrimitiveKind)
    ensures
        r == spec_slot_kind(slot as int),
{
    if slot == 0 {
        PrimitiveKind::SolidQuad
    } else if slot == 1 {
        PrimitiveKind::GradientQuad
    } else if slot == 2 {
        PrimitiveKind::SolidMesh
    } else if slot == 3 {
        PrimitiveKind::GradientMesh
    } else if slot == 4 {
        PrimitiveKind::Text
    } else {
        PrimitiveKind::Image
    }
}

/// The key of a batch: its scissor rectangle and its z index, the canvas's z
/// index in the high half and the group's in the low half.
#[derive(Debug, Clone, Copy, PartialEq, Eq, Structural, Hash)]
pub struct BatchKey {
    pub scissor_rect: RectI32,
    pub z_index: u32,
}

impl BatchKey {
    pub fn new(scissor_rect: RectI32, main_z_index: ZIndex, inner_z_index: ZIndex) -> (r: BatchKey)
        ensures
            r.scissor_rect == scissor_rect,
            r.z_index == main_z_index * 65536 + inner_z_index,
    {
        let m = main_z_index as u32;
        let i = inner_z_index as u32;
        let z = m << 16u32 | i;
        assert(z == m * 65536 + i) by (bit_vector)
            requires
                z == m << 16u32 | i,
                m < 65536,
                i < 65536,
        ;
        BatchKey { scissor_rect, z_index: z }
    }
}

/// The primitives of one batch key: a list for each built-in kind, and a list
/// for each custom pipeline (no lists until the first custom primitive).
pub struct BatchEntry<P> {
    pub lists: Vec<Vec<P>>,
    pub custom_primitives: Vec<Vec<P>>,
}

/// What a batch entry holds.
pub struct EntryView<P> {
    pub lists: Seq<Seq<P>>,
    pub custom: Seq<Seq<P>>,
}

impl<P> View for BatchEntry<P> {
    type V = EntryView<P>;

    open spec fn view(&self) -> EntryView<P> {
        EntryView {
            lists: self.lists@.map_values(|l: Vec<P>| l@),
            custom: self.custom_primitives@.map_values(|l: Vec<P>| l@),
        }
    }
}

/// An entry with no primitives.
pub open spec fn empty_entry<P>() -> EntryView<P> {
    EntryView {
        lists: Seq::new(NUM_BUILTIN_KINDS as nat, |i: int| Seq::<P>::empty()),
        custom: Seq::empty(),
    }
}

impl<P> BatchEntry<P> {
    pub fn new() -> (r: BatchEntry<P>)
        ensures
            r@ == empty_entry::<P>(),
    {
        let mut lists: Vec<Vec<P>> = Vec::new();
        let mut i: usize = 0;
        while i < NUM_BUILTIN_KINDS
            invariant
                i <= NUM_BUILTIN_KINDS,
                lists@.len() == i,
                forall|j: int| 0 <= j < i ==> (#[trigger] lists@[j])@ == Seq::<P>::empty(),
            decreases NUM_BUILTIN_KINDS - i,
        {
            lists.push(Vec::new());
            i = i + 1;
        }
        let r = BatchEntry { lists, custom_primitives: Vec::new() };
        assert(r@.lists =~= empty_entry::<P>().lists);
        assert(r@.custom =~= empty_entry::<P>().custom);
        r
    }
}

/// The custom lists grown, with empty lists, to `n` lists.
pub open spec fn resized_custom<P>(custom: Seq<Seq<P>>, n: nat) -> Seq<Seq<P>> {
    if custom.len() < n {
        custom + Seq::new((n - custom.len()) as nat, |i: int| Seq::<P>::empty())
    } else {
        custom
    }
}

/// The entry with one more primitive: a built-in primitive goes to the list of
/// its kind; a custom primitive goes to the list of its pipeline (after the
/// custom lists have been grown to `num_custom` lists, when `resize`), and is
/// dropped when there is no such list.
pub open spec fn entry_with<P>(
    e: EntryView<P>,
    p: Primitive<P>,
    num_custom: nat,
    resize: bool,
) -> EntryView<P> {
    if p.kind == PrimitiveKind::Custom {
        let custom = if resize {
            resized_custom(e.custom, num_custom)
        } else {
            e.custom
        };
        if p.pipeline_index < custom.len() {
            EntryView {
                lists: e.lists,
                custom: custom.update(
                    p.pipeline_index as int,
                    custom[p.pipeline_index as int].push(p.payload),
                ),
            }
        } else {
            EntryView { lists: e.lists, custom }
        }
    } else {
        let s = spec_kind_slot(p.kind);
        EntryView { lists: e.lists.update(s, e.lists[s].push(p.payload)), custom: e.custom }
    }
}

/// The keys and entries once the key has an entry (a new, empty one at the
/// end when it had none).
pub open spec fn with_key<P>(keys: Seq<BatchKey>, entries: Seq<EntryView<P>>, key: BatchKey) -> (
    Seq<BatchKey>,
    Seq<EntryView<P>>,
) {
    if keys.contains(key) {
        (keys, entries)
    } else {
        (keys.push(key), entries.push(empty_entry()))
    }
}

/// The batches once the primitive has been added to the entry of `key`.
pub open spec fn add_to_batches<P>(
    keys: Seq<BatchKey>,
    entries: Seq<EntryView<P>>,
    key: BatchKey,
    p: Primitive<P>,
    num_custom: nat,
    resize: bool,
) -> (Seq<BatchKey>, Seq<EntryView<P>>) {
    let (k2, e2) = with_key(keys, entries, key);
    let i = k2.index_of(key);
    (k2, e2.update(i, entry_with(e2[i], p, num_custom, resize)))
}

/// The batches once every primitive of the sequence has been added, in order,
/// to the entry of `key`.
pub open spec fn add_all_to_batches<P>(
    keys: Seq<BatchKey>,
    entries: Seq<EntryView<P>>,
    key: BatchKey,
    ps: Seq<Primitive<P>>,
    num_custom: nat,
    resize: bool,
) -> (Seq<BatchKey>, Seq<EntryView<P>>)
    decreases ps.len(),
{
    if ps.len() == 0 {
        with_key(keys, entries, key)
    } else {
        let (k1, e1) = add_all_to_batches(keys, entries, key, ps.drop_last(), num_custom, resize);
        add_to_batches(k1, e1, key, ps.last(), num_custom, resize)
    }
}

/// Where the batch of a group goes: its scissor rectangle moved by the offset
/// (or the canvas's when it has none), or `None` when the moved rectangle
/// lies off the canvas.
pub open spec fn group_batch_scissor<P>(
    b: BatchView<P>,
    canvas_scissor: RectI32,
    offset: PointI32,
    logical_size: SizeI32,
) -> Option<RectI32> {
    match b.scissor_rect {
        Some(s) => spec_offset_scissor_rect(s, offset, logical_size),
        None => Some(canvas_scissor),
    }
}

/// Whether moving the scissor rectangle of the batch, if it has one, by the
/// offset stays within 32-bit integers.
pub open spec fn batch_offset_in_range<P>(b: BatchView<P>, offset: PointI32) -> bool {
    match b.scissor_rect {
        Some(s) => offset_in_range(s, offset),
        None => true,
    }
}

/// The batches once the batches of a group have been added, each under the
/// key of its scissor rectangle and of the canvas's z index (high half) and
/// its own (low half). Custom primitives only go to custom lists that the
/// entry already has.
pub open spec fn add_group_batches<P>(
    keys: Seq<BatchKey>,
    entries: Seq<EntryView<P>>,
    batches: Seq<BatchView<P>>,
    canvas_scissor: RectI32,
    z_index: ZIndex,
    offset: PointI32,
    logical_size: SizeI32,
    num_custom: nat,
) -> (Seq<BatchKey>, Seq<EntryView<P>>)
    decreases batches.len(),
{
    if batches.len() == 0 {
        (keys, entries)
    } else {
        let (k1, e1) = add_group_batches(
            keys,
            entries,
            batches.drop_last(),
            canvas_scissor,
            z_index,
            offset,
            logical_size,
            num_custom,
        );
        let b = batches.last();
        match group_batch_scissor(b, canvas_scissor, offset, logical_size) {
            None => (k1, e1),
            Some(r) => add_all_to_batches(
                k1,
                e1,
                BatchKey { scissor_rect: r, z_index: (z_index * 65536 + b.z_index) as u32 },
                b.primitives,
                num_custom,
                false,
            ),
        }
    }
}

/// One step of the drawing order.
#[derive(Debug, Clone, Copy, PartialEq, Eq, Structural)]
pub enum BatchKind {
    /// Draw batch `batch_index` of a built-in kind, made of the list of that
    /// kind in entry `entry_index`.
    Primitives { kind: PrimitiveKind, batch_index: usize, entry_index: usize },
    /// Draw batch `batch_index` of custom pipeline `pipeline_index`, made of
    /// that pipeline's list in entry `entry_index`.
    Custom { pipeline_index: usize, batch_index: usize, entry_index: usize },
    /// Set the scissor rectangle.
    ScissorRect(RectI32),
}

/// The drawing order of a frame, and how many batches of each built-in kind
/// (by slot) and of each custom pipeline it uses.
pub struct PlanView {
    pub scissor: RectI32,
    pub counts: Seq<usize>,
    pub custom_counts: Seq<usize>,
    pub order: Seq<BatchKind>,
}

/// The plan before any entry: no batches, and the zero scissor rectangle as
/// the current one.
pub open spec fn initial_plan(num_custom: nat) -> PlanView {
    PlanView {
        scissor: RectI32::default_spec(),
        counts: Seq::new(NUM_BUILTIN_KINDS as nat, |i: int| 0usize),
        custom_counts: Seq::new(num_custom, |i: int| 0usize),
        order: Seq::empty(),
    }
}

/// A batch for the list in `slot` of the entry, when that list is not empty.
pub open spec fn plan_kind<P>(st: PlanView, e: EntryView<P>, entry_index: int, slot: int) -> PlanView {
    if e.lists[slot].len() > 0 {
        PlanView {
            order: st.order.push(
                BatchKind::Primitives {
                    kind: spec_slot_kind(slot),
                    batch_index: st.counts[slot],
                    entry_index: entry_index as usize,
                },
            ),
            counts: st.counts.update(slot, (st.counts[slot] + 1) as usize),
            ..st
        }
    } else {
        st
    }
}

/// The batches for the lists of the first `n` slots of the entry.
pub open spec fn plan_kinds<P>(st: PlanView, e: EntryView<P>, entry_index: int, n: nat) -> PlanView
    decreases n,
{
    if n == 0 {
        st
    } else {
        plan_kind(plan_kinds(st, e, entry_index, (n - 1) as nat), e, entry_index, n - 1)
    }
}

/// A batch of custom pipeline `i` for the entry.
pub open spec fn plan_custom(st: PlanView, entry_index: int, i: int) -> PlanView {
    PlanView {
        order: st.order.push(
            BatchKind::Custom {
                pipeline_index: i as usize,
                batch_index: st.custom_counts[i],
                entry_index: entry_index as usize,
            },
        ),
        custom_counts: st.custom_counts.update(i, (st.custom_counts[i] + 1) as usize),
        ..st
    }
}

/// A batch of each of the first `n` custom pipelines for the entry.
pub open spec fn plan_customs(st: PlanView, entry_index: int, n: nat) -> PlanView
    decreases n,
{
    if n == 0 {
        st
    } else {
        plan_custom(plan_customs(st, entry_index, (n - 1) as nat), entry_index, n - 1)
    }
}

/// The plan after one more entry: a change of scissor rectangle when its key
/// has another one, a batch for each of its non-empty built-in lists in slot
/// order, and, when it has custom lists, a batch for every custom pipeline.
pub open spec fn plan_entry<P>(
    st: PlanView,
    key: BatchKey,
    e: EntryView<P>,
    entry_index: int,
    num_custom: nat,
) -> PlanView {
    let st1 = if key.scissor_rect != st.scissor {
        PlanView {
            scissor: key.scissor_rect,
            order: st.order.push(BatchKind::ScissorRect(key.scissor_rect)),
            ..st
        }
    } else {
        st
    };
    let st2 = plan_kinds(st1, e, entry_index, NUM_BUILTIN_KINDS as nat);
    if e.custom.len() > 0 {
        plan_customs(st2, entry_index, num_custom)
    } else {
        st2
    }
}

/// The plan of the entries taken in the order `sorted`.
pub open spec fn plan<P>(
    keys: Seq<BatchKey>,
    entries: Seq<EntryView<P>>,
    sorted: Seq<usize>,
    num_custom: nat,
) -> PlanView
    decreases sorted.len(),
{
    if sorted.len() == 0 {
        initial_plan(num_custom)
    } else {
        let i = sorted.last() as int;
        plan_entry(
            plan(keys, entries, sorted.drop_last(), num_custom),
            keys[i],
            entries[i],
            i,
            num_custom,
        )
    }
}

/// The entry that a step draws a batch of, if it draws one.
pub open spec fn step_entry(b: BatchKind) -> Option<usize> {
    match b {
        BatchKind::Primitives { entry_index, .. } => Some(entry_index),
        BatchKind::Custom { entry_index, .. } => Some(entry_index),
        BatchKind::ScissorRect(_) => None,
    }
}

/// The place of a step among the batches of its entry: the built-in kinds
/// in their drawing order, then the custom pipelines in order.
pub open spec fn step_rank(b: BatchKind) -> int {
    match b {
        BatchKind::Primitives { kind, .. } => drawing_rank(kind),
        BatchKind::Custom { pipeline_index, .. } => NUM_BUILTIN_KINDS + pipeline_index,
        BatchKind::ScissorRect(_) => 0,
    }
}

/// Whether the batches of each entry come in their drawing order: built-in
/// kinds in the order solid quads, gradient quads, solid meshes, gradient
/// meshes, text, images, and after them the custom pipelines, in order.
pub open spec fn entry_steps_ordered(order: Seq<BatchKind>) -> bool {
    forall|a: int, b: int|
        0 <= a < b < order.len() && step_entry(#[trigger] order[a]) is Some && step_entry(order[a])
            == step_entry(#[trigger] order[b]) ==> step_rank(order[a]) < step_rank(order[b])
}

/// The built-in batches that an entry adds: after the plan so far, steps of
/// the entry's built-in kinds below `n`, in drawing order.
proof fn lemma_plan_kinds_steps<P>(st: PlanView, e: EntryView<P>, i: int, n: nat)
    requires
        n <= NUM_BUILTIN_KINDS,
    ensures
        plan_kinds(st, e, i, n).order.len() >= st.order.len(),
        forall|p: int| 0 <= p < st.order.len() ==> #[trigger] plan_kinds(st, e, i, n).order[p] == st.order[p],
        forall|p: int|
            st.order.len() <= p < plan_kinds(st, e, i, n).order.len() ==> step_entry(
                #[trigger] plan_kinds(st, e, i, n).order[p],
            ) == Some(i as usize) && 0 <= step_rank(plan_kinds(st, e, i, n).order[p]) < n,
        forall|p: int, q: int|
            st.order.len() <= p < q < plan_kinds(st, e, i, n).order.len() ==> step_rank(
                #[trigger] plan_kinds(st, e, i, n).order[p],
            ) < step_rank(#[trigger] plan_kinds(st, e, i, n).order[q]),
    decreases n,
{
    if n > 0 {
        lemma_plan_kinds_steps(st, e, i, (n - 1) as nat);
        lemma_kind_slots(PrimitiveKind::Custom);
        let prev = plan_kinds(st, e, i, (n - 1) as nat);
        let slot = n - 1;
        assert(drawing_rank(spec_slot_kind(slot)) == slot);
        let cur = plan_kinds(st, e, i, n);
        assert(cur == plan_kind(prev, e, i, slot));
        if e.lists[slot].len() > 0 {
            assert forall|p: int| 0 <= p < prev.order.len() implies #[trigger] cur.order[p] == prev.order[p] by {}
        }
    }
}

/// The custom batches that an entry adds: after the plan so far, one step
/// of the entry for each of the first `m` custom pipelines, in order.
proof fn lemma_plan_customs_steps(st: PlanView, i: int, m: nat)
    requires
        m <= usize::MAX,
    ensures
        plan_customs(st, i, m).order.len() == st.order.len() + m,
        forall|p: int| 0 <= p < st.order.len() ==> #[trigger] plan_customs(st, i, m).order[p] == st.order[p],
        forall|p: int|
            st.order.len() <= p < plan_customs(st, i, m).order.len() ==> step_entry(
                #[trigger] plan_customs(st, i, m).order[p],
            ) == Some(i as usize) && step_rank(plan_customs(st, i, m).order[p]) == NUM_BUILTIN_KINDS
                + (p - st.order.len()),
    decreases m,
{
    if m > 0 {
        lemma_plan_customs_steps(st, i, (m - 1) as nat);
        let prev = plan_customs(st, i, (m - 1) as nat);
        let cur = plan_customs(st, i, m);
        assert(cur == plan_custom(prev, i, m - 1));
        assert forall|p: int| 0 <= p < prev.order.len() implies #[trigger] cur.order[p] == prev.order[p] by {}
        assert(step_rank(cur.order[prev.order.len() as int]) == NUM_BUILTIN_KINDS + (m - 1));
    }
}

/// The steps that one entry adds to the plan: maybe a change of scissor
/// rectangle, then batches of that entry only, in its drawing order.
proof fn lemma_plan_entry_steps<P>(st: PlanView, key: BatchKey, e: EntryView<P>, i: int, num_custom: nat)
    requires
        num_custom <= usize::MAX,
    ensures
        plan_entry(st, key, e, i, num_custom).order.len() >= st.order.len(),
        forall|p: int|
            0 <= p < st.order.len() ==> #[trigger] plan_entry(st, key, e, i, num_custom).order[p]
                == st.order[p],
        forall|p: int|
            st.order.len() <= p < plan_entry(st, key, e, i, num_custom).order.len() && step_entry(
                #[trigger] plan_entry(st, key, e, i, num_custom).order[p],
            ) is Some ==> step_entry(plan_entry(st, key, e, i, num_custom).order[p]) == Some(
                i as usize,
            ),
        forall|p: int, q: int|
            st.order.len() <= p < q < plan_entry(st, key, e, i, num_custom).order.len() && step_entry(
                #[trigger] plan_entry(st, key, e, i, num_custom).order[p],
            ) is Some && step_entry(#[trigger] plan_entry(st, key, e, i, num_custom).order[q])
                is Some ==> step_rank(plan_entry(st, key, e, i, num_custom).order[p]) < step_rank(
                plan_entry(st, key, e, i, num_custom).order[q],
            ),
{
    let st1 = if key.scissor_rect != st.scissor {
        PlanView {
            scissor: key.scissor_rect,
            order: st.order.push(BatchKind::ScissorRect(key.scissor_rect)),
            ..st
        }
    } else {
        st
    };
    let st2 = plan_kinds(st1, e, i, NUM_BUILTIN_KINDS as nat);
    lemma_plan_kinds_steps(st1, e, i, NUM_BUILTIN_KINDS as nat);
    let r = plan_entry(st, key, e, i, num_custom);
    if e.custom.len() > 0 {
        lemma_plan_customs_steps(st2, i, num_custom);
        assert(r == plan_customs(st2, i, num_custom));
    } else {
        assert(r == st2);
    }
    assert forall|p: int| 0 <= p < st.order.len() implies #[trigger] r.order[p] == st.order[p] by {
        assert(st2.order[p] == st1.order[p]);
    }
    assert forall|p: int|
        st.order.len() <= p < r.order.len() && step_entry(#[trigger] r.order[p]) is Some implies step_entry(
            r.order[p],
        ) == Some(i as usize) by {
        if p < st1.order.len() {
            assert(st1.order[p] == BatchKind::ScissorRect(key.scissor_rect));
            if p < st2.order.len() {
                assert(st2.order[p] == st1.order[p]);
            }
        } else if p < st2.order.len() {
            if e.custom.len() > 0 {
                assert(r.order[p] == st2.order[p]);
            }
        }
    }
    assert forall|p: int, q: int|
        st.order.len() <= p < q < r.order.len() && step_entry(#[trigger] r.order[p]) is Some && step_entry(
            #[trigger] r.order[q],
        ) is Some implies step_rank(r.order[p]) < step_rank(r.order[q]) by {
        if p < st1.order.len() {
            assert(st1.order[p] == BatchKind::ScissorRect(key.scissor_rect));
            if p < st2.order.len() {
                assert(st2.order[p] == st1.order[p]);
            }
            if e.custom.len() > 0 {
                assert(r.order[p] == st2.order[p]);
            }
        } else if q < st2.order.len() {
            if e.custom.len() > 0 {
                assert(r.order[p] == st2.order[p]);
                assert(r.order[q] == st2.order[q]);
            }
        } else if p < st2.order.len() {
            assert(r.order[p] == st2.order[p]);
        }
    }
}

/// In every plan of entries each listed once, the batches of each entry come
/// in its drawing order: the built-in kinds in the order solid quads,
/// gradient quads, solid meshes, gradient meshes, text, images, and the
/// custom pipelines after them all, in order.
pub proof fn lemma_plan_entry_steps_ordered<P>(
    keys: Seq<BatchKey>,
    entries: Seq<EntryView<P>>,
    sorted: Seq<usize>,
    num_custom: nat,
)
    requires
        sorted.no_duplicates(),
        num_custom <= usize::MAX,
    ensures
        entry_steps_ordered(plan(keys, entries, sorted, num_custom).order),
        forall|p: int|
            0 <= p < plan(keys, entries, sorted, num_custom).order.len() && step_entry(
                #[trigger] plan(keys, entries, sorted, num_custom).order[p],
            ) is Some ==> sorted.contains(
                step_entry(plan(keys, entries, sorted, num_custom).order[p])->0,
            ),
    decreases sorted.len(),
{
    if sorted.len() > 0 {
        let rest = sorted.drop_last();
        assert(rest.no_duplicates());
        lemma_plan_entry_steps_ordered(keys, entries, rest, num_custom);
        let old = plan(keys, entries, rest, num_custom);
        let i = sorted.last() as int;
        let r = plan(keys, entries, sorted, num_custom);
        assert(r == plan_entry(old, keys[i], entries[i], i, num_custom));
        lemma_plan_entry_steps(old, keys[i], entries[i], i, num_custom);
        assert(!rest.contains(sorted.last())) by {
            if rest.contains(sorted.last()) {
                let q = choose|q: int| 0 <= q < rest.len() && rest[q] == sorted.last();
                assert(sorted[q] == sorted[sorted.len() - 1]);
            }
        }
        assert forall|p: int|
            0 <= p < r.order.len() && step_entry(#[trigger] r.order[p]) is Some implies sorted.contains(
                step_entry(r.order[p])->0,
            ) by {
            if p < old.order.len() {
                assert(r.order[p] == old.order[p]);
                let x = step_entry(old.order[p])->0;
                let q = choose|q: int| 0 <= q < rest.len() && rest[q] == x;
                assert(sorted[q] == x);
            } else {
                assert(sorted[sorted.len() - 1] == sorted.last());
            }
        }
        assert forall|a: int, b: int|
            0 <= a < b < r.order.len() && step_entry(#[trigger] r.order[a]) is Some && step_entry(
                r.order[a],
            ) == step_entry(#[trigger] r.order[b]) implies step_rank(r.order[a]) < step_rank(
                r.order[b],
            ) by {
            if b < old.order.len() {
                assert(r.order[a] == old.order[a]);
                assert(r.order[b] == old.order[b]);
            } else if a < old.order.len() {
                assert(r.order[a] == old.order[a]);
                assert(step_entry(r.order[b]) == Some(i as usize));
                assert(rest.contains(step_entry(old.order[a])->0));
            }
        }
    }
}

/// Whether `sorted` lists each index below `n` once.
pub open spec fn is_index_permutation(sorted: Seq<usize>, n: nat) -> bool {
    &&& sorted.len() == n
    &&& sorted.no_duplicates()
    &&& forall|i: int| 0 <= i < sorted.len() ==> #[trigger] sorted[i] < n
}

/// Whether the keys that `sorted` lists come in order of their z index.
pub open spec fn sorted_by_z(keys: Seq<BatchKey>, sorted: Seq<usize>) -> bool {
    forall|a: int, b: int|
        0 <= a < b < sorted.len() ==> keys[#[trigger] sorted[a] as int].z_index <= keys[
            #[trigger] sorted[b] as int
        ].z_index
}

/// Whether the keys of equal z index that `sorted` lists come in the order
/// in which they were filed.
pub open spec fn stable_by_z(keys: Seq<BatchKey>, sorted: Seq<usize>) -> bool {
    forall|a: int, b: int|
        0 <= a < b < sorted.len() && keys[#[trigger] sorted[a] as int].z_index == keys[
            #[trigger] sorted[b] as int
        ].z_index ==> sorted[a] < sorted[b]
}

/// The drawing plan of a frame.
pub struct PreparePlan {
    /// The entries in drawing order.
    pub sorted_entries: Vec<usize>,
    pub order: Vec<BatchKind>,
    /// The number of batches of each built-in kind, by slot.
    pub num_batches: Vec<usize>,
    /// The number of batches of each custom pipeline.
    pub num_custom_batches: Vec<usize>,
}

/// A vector of `n` zeros.
fn zeros(n: usize) -> (r: Vec<usize>)
    ensures
        r@ == Seq::new(n as nat, |i: int| 0usize),
{
    let mut v: Vec<usize> = Vec::new();
    let mut k: usize = 0;
    while k < n
        invariant
            k <= n,
            v@ =~= Seq::new(k as nat, |i: int| 0usize),
        decreases n - k,
    {
        v.push(0);
        k = k + 1;
    }
    v
}

/// Whether a plan is the one of `plan` for its own order of the entries, that
/// order listing each entry once, by z index, entries of equal z index in the
/// order in which they were filed.
pub open spec fn plan_is<P>(
    p: PreparePlan,
    keys: Seq<BatchKey>,
    entries: Seq<EntryView<P>>,
    num_custom: nat,
) -> bool {
    let pv = plan(keys, entries, p.sorted_entries@, num_custom);
    &&& is_index_permutation(p.sorted_entries@, keys.len())
    &&& sorted_by_z(keys, p.sorted_entries@)
    &&& stable_by_z(keys, p.sorted_entries@)
    &&& pv.order == p.order@
    &&& pv.counts == p.num_batches@
    &&& pv.custom_counts == p.num_custom_batches@
}

/// The indices of the keys in order of z index (keys of equal z index keep
/// their order).
pub fn sort_by_z(keys: &Vec<BatchKey>) -> (r: Vec<usize>)
    ensures
        is_index_permutation(r@, keys@.len()),
        sorted_by_z(keys@, r@),
        stable_by_z(keys@, r@),
{
    let n = keys.len();
    let mut r: Vec<usize> = Vec::new();
    for i in 0..n
        invariant
            n == keys@.len(),
            r@.len() == i,
            r@.no_duplicates(),
            forall|q: int| 0 <= q < r@.len() ==> #[trigger] r@[q] < i,
            sorted_by_z(keys@, r@),
            stable_by_z(keys@, r@),
    {
        let z = keys[i].z_index;
        let mut pos = r.len();
        while pos > 0 && keys[r[pos - 1]].z_index > z
            invariant
                pos <= r@.len(),
                r@.len() == i,
                i < n,
                n == keys@.len(),
                forall|q: int| 0 <= q < r@.len() ==> #[trigger] r@[q] < i,
                forall|q: int| pos <= q < r@.len() ==> keys@[#[trigger] r@[q] as int].z_index > z,
            decreases pos,
        {
            pos = pos - 1;
        }
        let ghost old_r = r@;
        proof {
            if pos > 0 {
                assert(keys@[old_r[pos - 1] as int].z_index <= z);
                assert forall|q: int| 0 <= q < pos implies keys@[#[trigger] old_r[q] as int].z_index
                    <= z by {
                    if q < pos - 1 {
                        assert(keys@[old_r[q] as int].z_index <= keys@[old_r[pos - 1] as int].z_index);
                    }
                }
            }
        }
        r.insert(pos, i);
        proof {
            assert(r@ == old_r.insert(pos as int, i));
            assert forall|q: int| 0 <= q < r@.len() implies #[trigger] r@[q] < i + 1 by {
                if q < pos {
                    assert(r@[q] == old_r[q]);
                } else if q > pos {
                    assert(r@[q] == old_r[q - 1]);
                }
            }
            assert forall|a: int, b: int| 0 <= a < b < r@.len() implies keys@[
                #[trigger] r@[a] as int
            ].z_index <= keys@[#[trigger] r@[b] as int].z_index by {
                let ra = if a < pos { old_r[a] } else if a == pos { i } else { old_r[a - 1] };
                let rb = if b < pos { old_r[b] } else if b == pos { i } else { old_r[b - 1] };
                assert(r@[a] == ra);
                assert(r@[b] == rb);
                if a < pos && b < pos {
                } else if a < pos && b == pos {
                } else if a < pos && b > pos {
                    assert(keys@[old_r[a] as int].z_index <= z);
                    assert(keys@[old_r[b - 1] as int].z_index > z);
                } else if a == pos {
                    assert(keys@[old_r[b - 1] as int].z_index > z);
                } else {
                    assert(keys@[old_r[a - 1] as int].z_index <= keys@[old_r[b - 1] as int].z_index);
                }
            }
            assert forall|a: int, b: int|
                0 <= a < b < r@.len() && keys@[#[trigger] r@[a] as int].z_index == keys@[
                    #[trigger] r@[b] as int
                ].z_index implies r@[a] < r@[b] by {
                if a < pos && b < pos {
                    assert(r@[a] == old_r[a] && r@[b] == old_r[b]);
                } else if a < pos && b == pos {
                    assert(r@[a] == old_r[a]);
                } else if a < pos && b > pos {
                    assert(r@[a] == old_r[a] && r@[b] == old_r[b - 1]);
                    assert(keys@[old_r[a] as int].z_index <= z);
                    assert(keys@[old_r[b - 1] as int].z_index > z);
                } else if a == pos {
                    assert(r@[b] == old_r[b - 1]);
                    assert(keys@[old_r[b - 1] as int].z_index > z);
                } else {
                    assert(r@[a] == old_r[a - 1] && r@[b] == old_r[b - 1]);
                }
            }
            assert forall|a: int, b: int|
                0 <= a < r@.len() && 0 <= b < r@.len() && a != b implies r@[a] != r@[b] by {
                if a != pos && b != pos {
                    let a2 = if a < pos { a } else { a - 1 };
                    let b2 = if b < pos { b } else { b - 1 };
                    assert(r@[a] == old_r[a2]);
                    assert(r@[b] == old_r[b2]);
                } else if a == pos {
                    let b2 = if b < pos { b } else { b - 1 };
                    assert(r@[b] == old_r[b2]);
                } else {
                    let a2 = if a < pos { a } else { a - 1 };
                    assert(r@[a] == old_r[a2]);
                }
            }
        }
    }
    r
}

/// What rendering one step of a drawing order does.
#[derive(Debug, Clone, Copy, PartialEq, Eq, Structural)]
pub enum RenderAction {
    /// Draw the step's batch.
    Draw,
    /// Set the render pass's scissor rectangle, in physical pixels.
    SetScissorRect(RectI32),
    /// Nothing: the step's scissor rectangle, or the one in force, lies off
    /// the render target.
    Skip,
}

/// Whether the scissor rectangle in force at step `k` lies on the target:
/// at first it does; after a scissor step, it does when that step's
/// rectangle, in physical pixels, is on the target (`physical` holds it).
pub open spec fn scissor_in_bounds(
    order: Seq<BatchKind>,
    physical: Seq<Option<RectI32>>,
    k: int,
) -> bool
    decreases k,
{
    if k <= 0 {
        true
    } else if order[k - 1] is ScissorRect {
        physical[k - 1] is Some
    } else {
        scissor_in_bounds(order, physical, k - 1)
    }
}

/// What step `k` of a drawing order does: a scissor step sets its
/// rectangle when it lies on the target; a batch is drawn while the
/// scissor rectangle in force lies on the target; anything else is skipped.
pub open spec fn render_action(
    order: Seq<BatchKind>,
    physical: Seq<Option<RectI32>>,
    k: int,
) -> RenderAction {
    match order[k] {
        BatchKind::ScissorRect(_) => match physical[k] {
            Some(r) => RenderAction::SetScissorRect(r),
            None => RenderAction::Skip,
        },
        _ => if scissor_in_bounds(order, physical, k) {
            RenderAction::Draw
        } else {
            RenderAction::Skip
        },
    }
}

/// Whether step `j` is the last scissor step before step `k`.
pub open spec fn last_scissor_before(order: Seq<BatchKind>, j: int, k: int) -> bool {
    &&& 0 <= j < k
    &&& order[j] is ScissorRect
    &&& forall|i: int| j < i < k ==> !(#[trigger] order[i] is ScissorRect)
}

/// The scissor rectangle in force at a step lies on the target when no
/// scissor step comes before it, and otherwise exactly when the last scissor
/// step before it had a rectangle on the target.
proof fn lemma_scissor_in_bounds(order: Seq<BatchKind>, physical: Seq<Option<RectI32>>, k: int)
    requires
        0 <= k <= order.len(),
    ensures
        (forall|i: int| 0 <= i < k ==> !(#[trigger] order[i] is ScissorRect)) ==> scissor_in_bounds(
            order,
            physical,
            k,
        ),
        forall|j: int|
            #[trigger] last_scissor_before(order, j, k) ==> (scissor_in_bounds(order, physical, k)
                <==> physical[j] is Some),
    decreases k,
{
    if k > 0 {
        lemma_scissor_in_bounds(order, physical, k - 1);
        assert forall|j: int| #[trigger] last_scissor_before(order, j, k) implies (scissor_in_bounds(
            order,
            physical,
            k,
        ) <==> physical[j] is Some) by {
            if j < k - 1 {
                assert(!(order[k - 1] is ScissorRect));
                assert(last_scissor_before(order, j, k - 1));
            }
        }
    }
}

/// Rendering a drawing order: a scissor step sets its rectangle when that
/// lies on the target and is skipped otherwise; every batch step, built-in
/// or custom, is drawn when no scissor step comes before it, and otherwise
/// exactly when the last scissor step before it had a rectangle on the
/// target, and is skipped then.
pub proof fn lemma_render_actions_law(
    order: Seq<BatchKind>,
    physical: Seq<Option<RectI32>>,
    actions: Seq<RenderAction>,
)
    requires
        order.len() == physical.len(),
        actions.len() == order.len(),
        forall|k: int| 0 <= k < actions.len() ==> #[trigger] actions[k] == render_action(order, physical, k),
    ensures
        forall|k: int|
            0 <= k < order.len() && (#[trigger] order[k] is ScissorRect) ==> actions[k] == match physical[k] {
                Some(p) => RenderAction::SetScissorRect(p),
                None => RenderAction::Skip,
            },
        forall|k: int|
            0 <= k < order.len() && !(#[trigger] order[k] is ScissorRect) ==> (actions[k]
                == RenderAction::Draw || actions[k] == RenderAction::Skip),
        forall|k: int|
            0 <= k < order.len() && !(#[trigger] order[k] is ScissorRect) && (forall|i: int|
                0 <= i < k ==> !(#[trigger] order[i] is ScissorRect)) ==> actions[k]
                == RenderAction::Draw,
        forall|j: int, k: int|
            k < order.len() && !(#[trigger] order[k] is ScissorRect) && #[trigger] last_scissor_before(
                order,
                j,
                k,
            ) ==> (actions[k] == RenderAction::Draw <==> physical[j] is Some),
{
    assert forall|k: int| 0 <= k < order.len() implies (forall|i: int|
        0 <= i < k ==> !(#[trigger] order[i] is ScissorRect)) ==> scissor_in_bounds(order, physical, k)
        by {
        lemma_scissor_in_bounds(order, physical, k);
    }
    assert forall|j: int, k: int|
        k < order.len() && !(#[trigger] order[k] is ScissorRect) && #[trigger] last_scissor_before(
            order,
            j,
            k,
        ) implies (actions[k] == RenderAction::Draw <==> physical[j] is Some) by {
        lemma_scissor_in_bounds(order, physical, k);
    }
}

/// What rendering each step of a drawing order does, given for each scissor
/// step its rectangle in physical pixels when it lies on the target.
pub fn render_actions(order: &Vec<BatchKind>, physical: &Vec<Option<RectI32>>) -> (r: Vec<
    RenderAction,
>)
    requires
        order@.len() == physical@.len(),
    ensures
        r@.len() == order@.len(),
        forall|k: int| 0 <= k < r@.len() ==> #[trigger] r@[k] == render_action(order@, physical@, k),
        forall|k: int|
            0 <= k < r@.len() && !(#[trigger] order@[k] is ScissorRect) && (forall|i: int|
                0 <= i < k ==> !(#[trigger] order@[i] is ScissorRect)) ==> r@[k] == RenderAction::Draw,
        forall|j: int, k: int|
            k < r@.len() && !(#[trigger] order@[k] is ScissorRect) && #[trigger] last_scissor_before(
                order@,
                j,
                k,
            ) ==> (r@[k] == RenderAction::Draw <==> physical@[j] is Some),
{
    let mut r: Vec<RenderAction> = Vec::new();
    let mut in_bounds = true;
    let mut i: usize = 0;
    while i < order.len()
        invariant
            i <= order@.len(),
            order@.len() == physical@.len(),
            r@.len() == i,
            in_bounds == scissor_in_bounds(order@, physical@, i as int),
            forall|k: int| 0 <= k < i ==> #[trigger] r@[k] == render_action(order@, physical@, k),
        decreases order@.len() - i,
    {
        let action = match &order[i] {
            BatchKind::ScissorRect(_) => {
                in_bounds = physical[i].is_some();
                match physical[i] {
                    Some(p) => RenderAction::SetScissorRect(p),
                    None => RenderAction::Skip,
                }
            },
            _ => {
                if in_bounds {
                    RenderAction::Draw
                } else {
                    RenderAction::Skip
                }
            },
        };
        r.push(action);
        i = i + 1;
    }
    proof {
        lemma_render_actions_law(order@, physical@, r@);
    }
    r
}

/// An order that lists each of `n` entries once lists every one of them.
proof fn lemma_permutation_lists_all(s: Seq<usize>, n: nat, v: usize)
    requires
        is_index_permutation(s, n),
        v < n,
    ensures
        s.contains(v),
{
    broadcast use vstd::seq_lib::group_seq_properties;
    broadcast use vstd::set::group_set_axioms;

    let f = |x: usize| x as int;
    let m = s.map_values(f);
    assert(vstd::relations::injective(f));
    s.lemma_no_duplicates_injective(f);
    m.unique_seq_to_set();
    vstd::set_lib::lemma_int_range(0, n as int);
    let r = vstd::set_lib::set_int_range(0, n as int);
    assert forall|x: int| m.to_set().contains(x) implies r.contains(x) by {
        assert(m.contains(x));
        let i = choose|i: int| 0 <= i < m.len() && m[i] == x;
        assert(s[i] < n);
    }
    vstd::set_lib::lemma_subset_equality(m.to_set(), r);
    assert(r.contains(v as int));
    assert(m.to_set().contains(v as int));
    assert(m.contains(v as int));
    let i = choose|i: int| 0 <= i < m.len() && m[i] == v as int;
    assert(s[i] == v);
}

/// Whether entry `x` is drawn before entry `y`: it has a lower z index, or
/// the same one and was filed first.
pub open spec fn drawn_before(keys: Seq<BatchKey>, x: usize, y: usize) -> bool {
    keys[x as int].z_index < keys[y as int].z_index || (keys[x as int].z_index
        == keys[y as int].z_index && x < y)
}

/// In an order by z index that keeps the filing order of equal z indices,
/// the positions of two entries follow `drawn_before`.
proof fn lemma_sorted_positions(keys: Seq<BatchKey>, s: Seq<usize>, a: int, b: int)
    requires
        is_index_permutation(s, keys.len()),
        sorted_by_z(keys, s),
        stable_by_z(keys, s),
        0 <= a < s.len(),
        0 <= b < s.len(),
        a < b,
    ensures
        drawn_before(keys, s[a], s[b]),
        !drawn_before(keys, s[b], s[a]),
{
    assert(keys[s[a] as int].z_index <= keys[s[b] as int].z_index);
    if keys[s[a] as int].z_index == keys[s[b] as int].z_index {
        assert(s[a] < s[b]);
    }
}

/// The order in which a frame draws its entries is determined by their keys
/// alone: two orders that list each entry once, by z index, entries of equal
/// z index in the order in which they were filed, are the same.
pub proof fn lemma_draw_order_unique(keys: Seq<BatchKey>, s: Seq<usize>, t: Seq<usize>)
    requires
        is_index_permutation(s, keys.len()),
        sorted_by_z(keys, s),
        stable_by_z(keys, s),
        is_index_permutation(t, keys.len()),
        sorted_by_z(keys, t),
        stable_by_z(keys, t),
    ensures
        s == t,
{
    lemma_draw_order_prefix(keys, s, t, s.len() as int);
    assert(s =~= t);
}

/// The two orders agree on their first `k` places.
proof fn lemma_draw_order_prefix(keys: Seq<BatchKey>, s: Seq<usize>, t: Seq<usize>, k: int)
    requires
        is_index_permutation(s, keys.len()),
        sorted_by_z(keys, s),
        stable_by_z(keys, s),
        is_index_permutation(t, keys.len()),
        sorted_by_z(keys, t),
        stable_by_z(keys, t),
        0 <= k <= s.len(),
    ensures
        forall|i: int| 0 <= i < k ==> s[i] == t[i],
    decreases k,
{
    if k > 0 {
        lemma_draw_order_prefix(keys, s, t, k - 1);
        let p = k - 1;
        let x = s[p];
        let y = t[p];
        if x != y {
            lemma_permutation_lists_all(t, keys.len(), x);
            lemma_permutation_lists_all(s, keys.len(), y);
            let j = choose|j: int| 0 <= j < t.len() && t[j] == x;
            let i = choose|i: int| 0 <= i < s.len() && s[i] == y;
            if j < p {
                assert(s[j] == t[j]);
            }
            if i < p {
                assert(t[i] == s[i]);
            }
            assert(j > p);
            assert(i > p);
            lemma_sorted_positions(keys, t, p, j);
            lemma_sorted_positions(keys, s, p, i);
        }
    }
}

/// The canvas's state between frames: its batches, its size, and the current
/// scissor rectangle and z index.
pub struct Canvas<P> {
    pub batch_keys: Vec<BatchKey>,
    pub batch_entries: Vec<BatchEntry<P>>,
    pub physical_size: SizeI32,
    pub logical_size_i32: SizeI32,
    pub scissor_rect: RectI32,
    pub scissor_rect_out_of_bounds: bool,
    pub needs_preparing: bool,
    pub z_index: ZIndex,
    pub num_custom_pipelines: usize,
}

impl<P> Canvas<P> {
    /// The entries of the batches, in the order of `batch_keys`.
    pub open spec fn entries(&self) -> Seq<EntryView<P>> {
        self.batch_entries@.map_values(|e: BatchEntry<P>| e@)
    }

    /// The canvas's invariant: one entry per key, no key twice, every entry
    /// with its six built-in lists and either no custom list or one per
    /// custom pipeline.
    pub open spec fn wf(&self) -> bool {
        &&& self.batch_keys@.len() == self.batch_entries@.len()
        &&& self.batch_keys@.no_duplicates()
        &&& forall|i: int|
            0 <= i < self.entries().len() ==> entry_wf(
                #[trigger] self.entries()[i],
                self.num_custom_pipelines as nat,
            )
    }

    /// The key under which a primitive added now is filed.
    pub open spec fn current_key(&self) -> BatchKey {
        BatchKey { scissor_rect: self.scissor_rect, z_index: (self.z_index * 65536) as u32 }
    }
}

/// With no key twice, the index of a key is where it stands.
pub proof fn lemma_index_of_unique(keys: Seq<BatchKey>, i: int)
    requires
        keys.no_duplicates(),
        0 <= i < keys.len(),
    ensures
        keys.index_of(keys[i]) == i,
        keys.contains(keys[i]),
{
    assert(keys.contains(keys[i]));
    let j = keys.index_of(keys[i]);
    assert(0 <= j < keys.len() && keys[j] == keys[i]);
}

impl<P> Canvas<P> {
    /// A canvas with no batches and no size yet.
    pub fn new(num_custom_pipelines: usize) -> (r: Canvas<P>)
        ensures
            r.wf(),
            r.batch_keys@.len() == 0,
            r.num_custom_pipelines == num_custom_pipelines,
            r.physical_size == (SizeI32 { width: 0, height: 0 }),
            r.logical_size_i32 == (SizeI32 { width: 0, height: 0 }),
            r.scissor_rect == RectI32::default_spec(),
            r.scissor_rect_out_of_bounds,
            !r.needs_preparing,
            r.z_index == 0,
    {
        Canvas {
            batch_keys: Vec::new(),
            batch_entries: Vec::new(),
            physical_size: SizeI32::new(0, 0),
            logical_size_i32: SizeI32::new(0, 0),
            scissor_rect: RectI32::default(),
            scissor_rect_out_of_bounds: true,
            needs_preparing: false,
            z_index: 0,
            num_custom_pipelines,
        }
    }

    /// Begins a frame: drops every batch, takes the new size (the logical size
    /// being the physical size divided by the scale factor, rounded), resets
    /// the scissor rectangle to the whole canvas and the z index to zero.
    pub fn begin(&mut self, physical_size: SizeI32, logical_size_i32: SizeI32)
        requires
            physical_size.width > 0,
            physical_size.height > 0,
        ensures
            final(self).wf(),
            final(self).batch_keys@.len() == 0,
            final(self).physical_size == physical_size,
            final(self).logical_size_i32 == logical_size_i32,
            final(self).scissor_rect == (RectI32 {
                origin: PointI32 { x: 0, y: 0 },
                size: logical_size_i32,
            }),
            !final(self).scissor_rect_out_of_bounds,
            final(self).needs_preparing,
            final(self).z_index == 0,
            final(self).num_custom_pipelines == old(self).num_custom_pipelines,
    {
        self.batch_keys.clear();
        self.batch_entries.clear();
        self.physical_size = physical_size;
        self.logical_size_i32 = logical_size_i32;
        self.reset_scissor_rect();
        self.needs_preparing = true;
        self.z_index = 0;
        assert(self.entries().len() == 0);
    }

    /// Sets the scissor rectangle. A rectangle that lies wholly off the canvas
    /// is kept as it is and marked out of bounds: nothing is added while it
    /// is current.
    pub fn set_scissor_rect(&mut self, scissor_rect: RectI32)
        requires
            offset_in_range(scissor_rect, PointI32 { x: 0, y: 0 }),
        ensures
            final(self).batch_keys == old(self).batch_keys,
            final(self).batch_entries == old(self).batch_entries,
            final(self).z_index == old(self).z_index,
            final(self).logical_size_i32 == old(self).logical_size_i32,
            final(self).physical_size == old(self).physical_size,
            final(self).needs_preparing == old(self).needs_preparing,
            final(self).num_custom_pipelines == old(self).num_custom_pipelines,
            old(self).scissor_rect == scissor_rect ==> final(self).scissor_rect == old(self).scissor_rect && final(self).scissor_rect_out_of_bounds == old(self).scissor_rect_out_of_bounds,
            old(self).scissor_rect != scissor_rect ==> match spec_offset_scissor_rect(
                scissor_rect,
                PointI32 { x: 0, y: 0 },
                old(self).logical_size_i32,
            ) {
                Some(r) => final(self).scissor_rect == r && !final(self).scissor_rect_out_of_bounds,
                None => final(self).scissor_rect == scissor_rect && final(self).scissor_rect_out_of_bounds,
            },
    {
        if self.scissor_rect != scissor_rect {
            match offset_scissor_rect(scissor_rect, PointI32::new(0, 0), self.logical_size_i32) {
                Some(bounded) => {
                    self.scissor_rect = bounded;
                    self.scissor_rect_out_of_bounds = false;
                },
                None => {
                    self.scissor_rect = scissor_rect;
                    self.scissor_rect_out_of_bounds = true;
                },
            }
        }
    }

    /// Resets the scissor rectangle to the whole canvas.
    pub fn reset_scissor_rect(&mut self)
        ensures
            final(self).batch_keys == old(self).batch_keys,
            final(self).batch_entries == old(self).batch_entries,
            final(self).z_index == old(self).z_index,
            final(self).logical_size_i32 == old(self).logical_size_i32,
            final(self).physical_size == old(self).physical_size,
            final(self).needs_preparing == old(self).needs_preparing,
            final(self).num_custom_pipelines == old(self).num_custom_pipelines,
            final(self).scissor_rect == (RectI32 {
                origin: PointI32 { x: 0, y: 0 },
                size: old(self).logical_size_i32,
            }),
            !final(self).scissor_rect_out_of_bounds,
    {
        self.scissor_rect = RectI32::new(PointI32::new(0, 0), self.logical_size_i32);
        self.scissor_rect_out_of_bounds = false;
    }

    pub fn scissor_rect(&self) -> (r: RectI32)
        ensures
            r == self.scissor_rect,
    {
        self.scissor_rect
    }

    pub fn set_z_index(&mut self, z_index: ZIndex)
        ensures
            *final(self) == (Canvas { z_index, ..*old(self) }),
    {
        self.z_index = z_index;
    }

    pub fn z_index(&self) -> (r: ZIndex)
        ensures
            r == self.z_index,
    {
        self.z_index
    }

    /// Adds a primitive under the current scissor rectangle and z index;
    /// nothing is added while the scissor rectangle is out of bounds.
    pub fn add(&mut self, primitive: Primitive<P>)
        requires
            old(self).wf(),
        ensures
            final(self).wf(),
            *final(self) == (Canvas {
                batch_keys: final(self).batch_keys,
                batch_entries: final(self).batch_entries,
                ..*old(self)
            }),
            old(self).scissor_rect_out_of_bounds ==> *final(self) == *old(self),
            !old(self).scissor_rect_out_of_bounds ==> (final(self).batch_keys@, final(self).entries()) == add_to_batches(
                old(self).batch_keys@,
                old(self).entries(),
                old(self).current_key(),
                primitive,
                old(self).num_custom_pipelines as nat,
                true,
            ),
    {
        if self.scissor_rect_out_of_bounds {
            return;
        }
        let key = BatchKey::new(self.scissor_rect, self.z_index, 0);
        let i = self.entry_index(key);
        self.add_to_entry(i, primitive, true);
    }

    /// Adds primitives, in order, under the current scissor rectangle and z
    /// index; nothing is added while the scissor rectangle is out of bounds.
    pub fn add_batch(&mut self, primitives: Vec<Primitive<P>>)
        requires
            old(self).wf(),
        ensures
            final(self).wf(),
            *final(self) == (Canvas {
                batch_keys: final(self).batch_keys,
                batch_entries: final(self).batch_entries,
                ..*old(self)
            }),
            old(self).scissor_rect_out_of_bounds ==> *final(self) == *old(self),
            !old(self).scissor_rect_out_of_bounds ==> (final(self).batch_keys@, final(self).entries()) == add_all_to_batches(
                old(self).batch_keys@,
                old(self).entries(),
                old(self).current_key(),
                primitives@,
                old(self).num_custom_pipelines as nat,
                true,
            ),
    {
        if self.scissor_rect_out_of_bounds {
            return;
        }
        let key = BatchKey::new(self.scissor_rect, self.z_index, 0);
        self.add_all(key, primitives, true);
    }

    /// Adds primitives, in order, to the entry of `key`.
    fn add_all(&mut self, key: BatchKey, primitives: Vec<Primitive<P>>, resize: bool)
        requires
            old(self).wf(),
        ensures
            final(self).wf(),
            *final(self) == (Canvas {
                batch_keys: final(self).batch_keys,
                batch_entries: final(self).batch_entries,
                ..*old(self)
            }),
            (final(self).batch_keys@, final(self).entries()) == add_all_to_batches(
                old(self).batch_keys@,
                old(self).entries(),
                key,
                primitives@,
                old(self).num_custom_pipelines as nat,
                resize,
            ),
    {
        let i = self.entry_index(key);
        let ghost ps = primitives@;
        let ghost num = self.num_custom_pipelines as nat;
        for p in it: primitives.into_iter()
            invariant
                self.wf(),
                *self == (Canvas {
                    batch_keys: self.batch_keys,
                    batch_entries: self.batch_entries,
                    ..*old(self)
                }),
                ps == it.seq(),
                num == old(self).num_custom_pipelines as nat,
                i < self.batch_keys@.len(),
                self.batch_keys@[i as int] == key,
                i == self.batch_keys@.index_of(key),
                (self.batch_keys@, self.entries()) == add_all_to_batches(
                    old(self).batch_keys@,
                    old(self).entries(),
                    key,
                    ps.take(it.index() as int),
                    num,
                    resize,
                ),
        {
            let ghost k = it.index() as int;
            let ghost gp = p;
            let ghost k1 = self.batch_keys@;
            let ghost e1 = self.entries();
            self.add_to_entry(i, p, resize);
            proof {
                assert(ps.take(k + 1).drop_last() =~= ps.take(k));
                assert(ps.take(k + 1).last() == gp);
                assert(k1.contains(key)) by {
                    assert(k1[i as int] == key);
                }
                assert(with_key(k1, e1, key) == (k1, e1));
                assert(add_to_batches(k1, e1, key, gp, num, resize) == (
                    k1,
                    e1.update(i as int, entry_with(e1[i as int], gp, num, resize)),
                ));
            }
        }
        proof {
            assert(ps.take(ps.len() as int) =~= ps);
        }
    }

    /// Adds the batches of a group, moved by `offset`: each batch goes under
    /// its own scissor rectangle moved by the offset (skipped when that lies
    /// off the canvas), or the canvas's when it has none, and under the z
    /// index made of the canvas's (high half) and its own (low half).
    /// Nothing is added while the scissor rectangle is out of bounds.
    pub fn add_group_with_offset(&mut self, group: PrimitiveGroup<P>, offset: VectorI32)
        requires
            old(self).wf(),
            group.wf(),
            forall|i: int|
                0 <= i < group.batches().len() ==> batch_offset_in_range(
                    #[trigger] group.batches()[i],
                    PointI32 { x: offset.x, y: offset.y },
                ),
        ensures
            final(self).wf(),
            *final(self) == (Canvas {
                batch_keys: final(self).batch_keys,
                batch_entries: final(self).batch_entries,
                ..*old(self)
            }),
            old(self).scissor_rect_out_of_bounds ==> *final(self) == *old(self),
            !old(self).scissor_rect_out_of_bounds ==> (final(self).batch_keys@, final(self).entries()) == add_group_batches(
                old(self).batch_keys@,
                old(self).entries(),
                group.batches(),
                old(self).scissor_rect,
                old(self).z_index,
                PointI32 { x: offset.x, y: offset.y },
                old(self).logical_size_i32,
                old(self).num_custom_pipelines as nat,
            ),
    {
        if self.scissor_rect_out_of_bounds {
            return;
        }
        let off = PointI32::new(offset.x, offset.y);
        let ghost bs = group.batches();
        let ghost num = self.num_custom_pipelines as nat;
        for b in it: group.primitive_batches.into_iter()
            invariant
                self.wf(),
                *self == (Canvas {
                    batch_keys: self.batch_keys,
                    batch_entries: self.batch_entries,
                    ..*old(self)
                }),
                !self.scissor_rect_out_of_bounds,
                bs == it.seq().map_values(|b: PrimitiveBatchSlice<P>| b@),
                num == old(self).num_custom_pipelines as nat,
                off == (PointI32 { x: offset.x, y: offset.y }),
                forall|i: int|
                    0 <= i < bs.len() ==> batch_offset_in_range(#[trigger] bs[i], off),
                (self.batch_keys@, self.entries()) == add_group_batches(
                    old(self).batch_keys@,
                    old(self).entries(),
                    bs.take(it.index() as int),
                    old(self).scissor_rect,
                    old(self).z_index,
                    off,
                    old(self).logical_size_i32,
                    num,
                ),
        {
            let ghost k = it.index() as int;
            proof {
                assert(bs.take(k + 1).drop_last() =~= bs.take(k));
                assert(bs.take(k + 1).last() == b@);
                assert(bs[k] == b@);
            }
            let ghost gb = b@;
            let ghost k1 = self.batch_keys@;
            let ghost e1 = self.entries();
            let PrimitiveBatchSlice { kind: _, primitives, z_index, scissor_rect } = b;
            let target = match scissor_rect {
                Some(s) => offset_scissor_rect(s, off, self.logical_size_i32),
                None => Some(self.scissor_rect),
            };
            proof {
                assert(target == group_batch_scissor(
                    gb,
                    old(self).scissor_rect,
                    off,
                    old(self).logical_size_i32,
                ));
            }
            match target {
                Some(r) => {
                    let key = BatchKey::new(r, self.z_index, z_index);
                    proof {
                        assert(key == BatchKey {
                            scissor_rect: r,
                            z_index: (old(self).z_index * 65536 + gb.z_index) as u32,
                        });
                    }
                    self.add_all(key, primitives, false);
                },
                None => {},
            }
        }
        proof {
            assert(bs.take(bs.len() as int) =~= bs);
        }
    }

    /// Adds the batches of a group, as `add_group_with_offset` with a zero
    /// offset.
    pub fn add_group(&mut self, group: PrimitiveGroup<P>)
        requires
            old(self).wf(),
            group.wf(),
            forall|i: int|
                0 <= i < group.batches().len() ==> batch_offset_in_range(
                    #[trigger] group.batches()[i],
                    PointI32 { x: 0, y: 0 },
                ),
        ensures
            final(self).wf(),
            *final(self) == (Canvas {
                batch_keys: final(self).batch_keys,
                batch_entries: final(self).batch_entries,
                ..*old(self)
            }),
            old(self).scissor_rect_out_of_bounds ==> *final(self) == *old(self),
            !old(self).scissor_rect_out_of_bounds ==> (final(self).batch_keys@, final(self).entries()) == add_group_batches(
                old(self).batch_keys@,
                old(self).entries(),
                group.batches(),
                old(self).scissor_rect,
                old(self).z_index,
                PointI32 { x: 0, y: 0 },
                old(self).logical_size_i32,
                old(self).num_custom_pipelines as nat,
            ),
    {
        self.add_group_with_offset(group, VectorI32::new(0, 0));
    }

    /// Plans the drawing of the frame, when the canvas or a custom pipeline
    /// needs preparing: the entries in order of z index and, for each, a
    /// change of scissor rectangle when it has another one, then one batch
    /// per non-empty built-in list and, when it has custom lists, one batch
    /// per custom pipeline. Returns `None`, and changes nothing, when nothing
    /// needs preparing.
    pub fn prepare(&mut self, custom_needs_preparing: bool) -> (r: Option<PreparePlan>)
        requires
            old(self).wf(),
        ensures
            final(self).wf(),
            !old(self).needs_preparing && !custom_needs_preparing ==> r is None && *final(self)
                == *old(self),
            old(self).needs_preparing || custom_needs_preparing ==> *final(self) == (Canvas {
                needs_preparing: false,
                ..*old(self)
            }),
            old(self).needs_preparing || custom_needs_preparing ==> (r matches Some(p)
                && plan_is(
                p,
                old(self).batch_keys@,
                old(self).entries(),
                old(self).num_custom_pipelines as nat,
            )),
            r matches Some(p) ==> entry_steps_ordered(p.order@),
    {
        if !self.needs_preparing && !custom_needs_preparing {
            return None;
        }
        self.needs_preparing = false;
        assert(self.entries() == old(self).entries());
        assert(self.wf());
        let sorted = sort_by_z(&self.batch_keys);
        let num = self.num_custom_pipelines;
        let mut counts = zeros(NUM_BUILTIN_KINDS);
        let mut custom_counts = zeros(num);
        let mut current = RectI32::default();
        let mut order: Vec<BatchKind> = Vec::new();
        let n = sorted.len();
        let ghost keys = self.batch_keys@;
        let ghost entries = self.entries();
        let mut j: usize = 0;
        while j < n
            invariant
                self.wf(),
                *self == (Canvas { needs_preparing: false, ..*old(self) }),
                keys == self.batch_keys@,
                entries == self.entries(),
                num == self.num_custom_pipelines,
                n == sorted@.len(),
                is_index_permutation(sorted@, keys.len()),
                j <= n,
                counts@.len() == NUM_BUILTIN_KINDS,
                custom_counts@.len() == num,
                forall|q: int| 0 <= q < counts@.len() ==> #[trigger] counts@[q] <= j,
                forall|q: int| 0 <= q < custom_counts@.len() ==> #[trigger] custom_counts@[q] <= j,
                (PlanView {
                    scissor: current,
                    counts: counts@,
                    custom_counts: custom_counts@,
                    order: order@,
                }) == plan(keys, entries, sorted@.take(j as int), num as nat),
            decreases n - j,
        {
            let e = sorted[j];
            let ghost st0 = PlanView {
                scissor: current,
                counts: counts@,
                custom_counts: custom_counts@,
                order: order@,
            };
            let key = self.batch_keys[e];
            if key.scissor_rect != current {
                current = key.scissor_rect;
                order.push(BatchKind::ScissorRect(key.scissor_rect));
            }
            let ghost st1 = PlanView {
                scissor: current,
                counts: counts@,
                custom_counts: custom_counts@,
                order: order@,
            };
            let ghost ev = entries[e as int];
            assert(ev == self.batch_entries@[e as int]@);
            assert(ev.lists.len() == NUM_BUILTIN_KINDS);
            let ghost c0 = counts@;
            let mut slot: usize = 0;
            while slot < NUM_BUILTIN_KINDS
                invariant
                    self.wf(),
                    *self == (Canvas { needs_preparing: false, ..*old(self) }),
                    entries == self.entries(),
                    ev == entries[e as int],
                    ev.lists.len() == NUM_BUILTIN_KINDS,
                    e < entries.len(),
                    j < n,
                    slot <= NUM_BUILTIN_KINDS,
                    counts@.len() == NUM_BUILTIN_KINDS,
                    c0.len() == NUM_BUILTIN_KINDS,
                    forall|q: int| 0 <= q < c0.len() ==> #[trigger] c0[q] <= j,
                    forall|q: int| 0 <= q < counts@.len() ==> #[trigger] counts@[q] <= j + 1,
                    forall|q: int| slot <= q < counts@.len() ==> #[trigger] counts@[q] == c0[q],
                    (PlanView {
                        scissor: current,
                        counts: counts@,
                        custom_counts: custom_counts@,
                        order: order@,
                    }) == plan_kinds(st1, ev, e as int, slot as nat),
                decreases NUM_BUILTIN_KINDS - slot,
            {
                assert(self.batch_entries@[e as int].lists@[slot as int]@ == ev.lists[slot as int]);
                if self.batch_entries[e].lists[slot].len() > 0 {
                    let kind = slot_kind(slot);
                    order.push(
                        BatchKind::Primitives { kind, batch_index: counts[slot], entry_index: e },
                    );
                    counts[slot] = counts[slot] + 1;
                }
                slot = slot + 1;
            }
            let ghost st2 = PlanView {
                scissor: current,
                counts: counts@,
                custom_counts: custom_counts@,
                order: order@,
            };
            assert(ev.custom.len() == self.batch_entries@[e as int].custom_primitives@.len());
            if self.batch_entries[e].custom_primitives.len() > 0 {
                let ghost cc0 = custom_counts@;
                let mut c: usize = 0;
                while c < num
                    invariant
                        c <= num,
                        j < n,
                        custom_counts@.len() == num,
                        cc0.len() == num,
                        forall|q: int| 0 <= q < cc0.len() ==> #[trigger] cc0[q] <= j,
                        forall|q: int|
                            0 <= q < custom_counts@.len() ==> #[trigger] custom_counts@[q] <= j + 1,
                        forall|q: int|
                            c <= q < custom_counts@.len() ==> #[trigger] custom_counts@[q] == cc0[q],
                        (PlanView {
                            scissor: current,
                            counts: counts@,
                            custom_counts: custom_counts@,
                            order: order@,
                        }) == plan_customs(st2, e as int, c as nat),
                    decreases num - c,
                {
                    order.push(
                        BatchKind::Custom {
                            pipeline_index: c,
                            batch_index: custom_counts[c],
                            entry_index: e,
                        },
                    );
                    custom_counts[c] = custom_counts[c] + 1;
                    c = c + 1;
                }
            }
            proof {
                assert(sorted@.take(j + 1).drop_last() =~= sorted@.take(j as int));
                assert(sorted@.take(j + 1).last() == e);
                assert(plan_entry(st0, keys[e as int], ev, e as int, num as nat) == PlanView {
                    scissor: current,
                    counts: counts@,
                    custom_counts: custom_counts@,
                    order: order@,
                });
            }
            j = j + 1;
        }
        proof {
            assert(sorted@.take(n as int) =~= sorted@);
            lemma_plan_entry_steps_ordered(keys, entries, sorted@, num as nat);
        }
        Some(
            PreparePlan {
                sorted_entries: sorted,
                order,
                num_batches: counts,
                num_custom_batches: custom_counts,
            },
        )
    }

    /// The index of the entry of `key`, made (empty, at the end) when there
    /// is none.
    fn entry_index(&mut self, key: BatchKey) -> (r: usize)
        requires
            old(self).wf(),
        ensures
            final(self).wf(),
            (final(self).batch_keys@, final(self).entries()) == with_key(
                old(self).batch_keys@,
                old(self).entries(),
                key,
            ),
            r < final(self).batch_keys@.len(),
            r == final(self).batch_keys@.index_of(key),
            final(self).batch_keys@[r as int] == key,
            *final(self) == (Canvas {
                batch_keys: final(self).batch_keys,
                batch_entries: final(self).batch_entries,
                ..*old(self)
            }),
    {
        let mut i: usize = 0;
        let n = self.batch_keys.len();
        while i < n
            invariant
                *self == *old(self),
                old(self).wf(),
                n == self.batch_keys@.len(),
                i <= n,
                forall|j: int| 0 <= j < i ==> self.batch_keys@[j] != key,
            decreases n - i,
        {
            if self.batch_keys[i] == key {
                proof {
                    lemma_index_of_unique(self.batch_keys@, i as int);
                }
                return i;
            }
            i = i + 1;
        }
        assert(!self.batch_keys@.contains(key));
        let ghost old_entries = self.entries();
        self.batch_keys.push(key);
        let e = BatchEntry::new();
        self.batch_entries.push(e);
        proof {
            assert(self.entries() =~= old_entries.push(empty_entry()));
            assert(self.batch_keys@.no_duplicates());
            lemma_index_of_unique(self.batch_keys@, n as int);
            assert forall|j: int| 0 <= j < self.entries().len() implies entry_wf(
                #[trigger] self.entries()[j],
                self.num_custom_pipelines as nat,
            ) by {
                if j < n {
                    assert(self.entries()[j] == old_entries[j]);
                }
            }
        }
        n
    }

    /// Adds a primitive to entry `i`, as `entry_with` says.
    fn add_to_entry(&mut self, i: usize, primitive: Primitive<P>, resize: bool)
        requires
            old(self).wf(),
            i < old(self).batch_keys@.len(),
        ensures
            final(self).wf(),
            final(self).entries() == old(self).entries().update(
                i as int,
                entry_with(
                    old(self).entries()[i as int],
                    primitive,
                    old(self).num_custom_pipelines as nat,
                    resize,
                ),
            ),
            *final(self) == (Canvas { batch_entries: final(self).batch_entries, ..*old(self) }),
    {
        let ghost old_entries = self.entries();
        let ghost p = primitive;
        let Primitive { kind, pipeline_index, payload } = primitive;
        assert(self.entries()[i as int] == self.batch_entries@[i as int]@);
        if kind == PrimitiveKind::Custom {
            let num = self.num_custom_pipelines;
            if resize && self.batch_entries[i].custom_primitives.len() < num {
                let ghost c0 = old_entries[i as int].custom;
                while self.batch_entries[i].custom_primitives.len() < num
                    invariant
                        *self == (Canvas { batch_entries: self.batch_entries, ..*old(self) }),
                        self.batch_entries@.len() == old_entries.len(),
                        num == self.num_custom_pipelines,
                        i < self.batch_entries@.len(),
                        self.batch_entries@[i as int].custom_primitives@.len() <= num,
                        self.batch_entries@[i as int].custom_primitives@.len() >= c0.len(),
                        self.batch_entries@[i as int]@.lists == old_entries[i as int].lists,
                        self.batch_entries@[i as int]@.custom =~= c0 + Seq::new(
                            (self.batch_entries@[i as int].custom_primitives@.len() - c0.len()) as nat,
                            |k: int| Seq::<P>::empty(),
                        ),
                        forall|j: int|
                            0 <= j < old_entries.len() && j != i ==> self.batch_entries@[j]@
                                == old_entries[j],
                    decreases num - self.batch_entries@[i as int].custom_primitives@.len(),
                {
                    let ghost before = self.batch_entries@[i as int]@.custom;
                    self.batch_entries[i].custom_primitives.push(Vec::new());
                    proof {
                        assert(self.batch_entries@[i as int]@.custom =~= before.push(
                            Seq::<P>::empty(),
                        ));
                        assert(self.batch_entries@[i as int]@.lists =~= old_entries[i as int].lists);
                    }
                }
            }
            let len = self.batch_entries[i].custom_primitives.len();
            if pipeline_index < len {
                self.batch_entries[i].custom_primitives[pipeline_index].push(payload);
            }
        } else {
            let s = kind_slot(kind);
            self.batch_entries[i].lists[s].push(payload);
        }
        proof {
            let ne = entry_with(old_entries[i as int], p, self.num_custom_pipelines as nat, resize);
            assert(self.batch_entries@[i as int]@.lists =~= ne.lists);
            assert(self.batch_entries@[i as int]@.custom =~= ne.custom);
            assert(self.entries() =~= old_entries.update(i as int, ne));
            assert forall|j: int| 0 <= j < self.entries().len() implies entry_wf(
                #[trigger] self.entries()[j],
                self.num_custom_pipelines as nat,
            ) by {
                if j != i {
                    assert(self.entries()[j] == old_entries[j]);
                }
            }
        }
    }
}

/// A well-formed entry: six built-in lists, and no custom list or one per
/// custom pipeline.
pub open spec fn entry_wf<P>(e: EntryView<P>, num_custom: nat) -> bool {
    e.lists.len() == NUM_BUILTIN_KINDS && (e.custom.len() == 0 || e.custom.len() == num_custom)
}

} // verus!

verus! {

/// How many of the entries listed in `sorted` have a non-empty list in
/// `slot`.
pub open spec fn count_nonempty<P>(entries: Seq<EntryView<P>>, sorted: Seq<usize>, slot: int) -> nat
    decreases sorted.len(),
{
    if sorted.len() == 0 {
        0
    } else {
        count_nonempty(entries, sorted.drop_last(), slot) + if entries[sorted.last() as int].lists[slot].len()
            > 0 {
            1nat
        } else {
            0nat
        }
    }
}

/// How many of the entries listed in `sorted` have custom lists.
pub open spec fn count_with_custom<P>(entries: Seq<EntryView<P>>, sorted: Seq<usize>) -> nat
    decreases sorted.len(),
{
    if sorted.len() == 0 {
        0
    } else {
        count_with_custom(entries, sorted.drop_last()) + if entries[sorted.last() as int].custom.len()
            > 0 {
            1nat
        } else {
            0nat
        }
    }
}

proof fn lemma_plan_kinds_counts<P>(st: PlanView, e: EntryView<P>, ei: int, n: nat)
    requires
        st.counts.len() == NUM_BUILTIN_KINDS,
        n <= NUM_BUILTIN_KINDS,
        e.lists.len() == NUM_BUILTIN_KINDS,
        forall|q: int| 0 <= q < NUM_BUILTIN_KINDS ==> #[trigger] st.counts[q] < usize::MAX,
    ensures
        plan_kinds(st, e, ei, n).counts.len() == NUM_BUILTIN_KINDS,
        plan_kinds(st, e, ei, n).custom_counts == st.custom_counts,
        plan_kinds(st, e, ei, n).scissor == st.scissor,
        forall|q: int|
            0 <= q < NUM_BUILTIN_KINDS ==> #[trigger] plan_kinds(st, e, ei, n).counts[q] == st.counts[q]
                + if q < n && e.lists[q].len() > 0 {
                1int
            } else {
                0int
            },
    decreases n,
{
    if n > 0 {
        lemma_plan_kinds_counts(st, e, ei, (n - 1) as nat);
    }
}

proof fn lemma_plan_customs_counts(st: PlanView, ei: int, n: nat)
    requires
        n <= st.custom_counts.len(),
        forall|q: int| 0 <= q < st.custom_counts.len() ==> #[trigger] st.custom_counts[q] < usize::MAX,
    ensures
        plan_customs(st, ei, n).counts == st.counts,
        plan_customs(st, ei, n).scissor == st.scissor,
        plan_customs(st, ei, n).custom_counts.len() == st.custom_counts.len(),
        forall|q: int|
            0 <= q < st.custom_counts.len() ==> #[trigger] plan_customs(st, ei, n).custom_counts[q]
                == st.custom_counts[q] + if q < n {
                1int
            } else {
                0int
            },
    decreases n,
{
    if n > 0 {
        lemma_plan_customs_counts(st, ei, (n - 1) as nat);
    }
}

/// The number of batches of a built-in kind is the number of entries whose
/// list of that kind is not empty; the number of batches of each custom
/// pipeline is the number of entries that have custom lists.
pub proof fn lemma_plan_counts<P>(
    keys: Seq<BatchKey>,
    entries: Seq<EntryView<P>>,
    sorted: Seq<usize>,
    num_custom: nat,
)
    requires
        is_index_permutation(sorted, keys.len()),
        keys.len() == entries.len(),
        keys.len() <= usize::MAX,
        forall|i: int| 0 <= i < entries.len() ==> entry_wf(#[trigger] entries[i], num_custom),
    ensures
        plan(keys, entries, sorted, num_custom).counts.len() == NUM_BUILTIN_KINDS,
        plan(keys, entries, sorted, num_custom).custom_counts.len() == num_custom,
        forall|s: int|
            0 <= s < NUM_BUILTIN_KINDS ==> #[trigger] plan(keys, entries, sorted, num_custom).counts[s]
                == count_nonempty(entries, sorted, s),
        forall|c: int|
            0 <= c < num_custom ==> #[trigger] plan(keys, entries, sorted, num_custom).custom_counts[c]
                == count_with_custom(entries, sorted),
{
    lemma_plan_counts_bounded(keys, entries, sorted, num_custom);
}

proof fn lemma_plan_counts_bounded<P>(
    keys: Seq<BatchKey>,
    entries: Seq<EntryView<P>>,
    sorted: Seq<usize>,
    num_custom: nat,
)
    requires
        sorted.len() <= keys.len(),
        keys.len() == entries.len(),
        keys.len() <= usize::MAX,
        forall|i: int| 0 <= i < sorted.len() ==> #[trigger] sorted[i] < keys.len(),
        forall|i: int| 0 <= i < entries.len() ==> entry_wf(#[trigger] entries[i], num_custom),
    ensures
        plan(keys, entries, sorted, num_custom).counts.len() == NUM_BUILTIN_KINDS,
        plan(keys, entries, sorted, num_custom).custom_counts.len() == num_custom,
        forall|s: int|
            0 <= s < NUM_BUILTIN_KINDS ==> #[trigger] plan(keys, entries, sorted, num_custom).counts[s]
                == count_nonempty(entries, sorted, s),
        forall|c: int|
            0 <= c < num_custom ==> #[trigger] plan(keys, entries, sorted, num_custom).custom_counts[c]
                == count_with_custom(entries, sorted),
        forall|s: int|
            0 <= s < NUM_BUILTIN_KINDS ==> #[trigger] count_nonempty(entries, sorted, s)
                <= sorted.len(),
        count_with_custom(entries, sorted) <= sorted.len(),
    decreases sorted.len(),
{
    if sorted.len() == 0 {
    } else {
        let prev = sorted.drop_last();
        lemma_plan_counts_bounded(keys, entries, prev, num_custom);
        let st0 = plan(keys, entries, prev, num_custom);
        let i = sorted.last() as int;
        let e = entries[i];
        let st1 = if keys[i].scissor_rect != st0.scissor {
            PlanView {
                scissor: keys[i].scissor_rect,
                order: st0.order.push(BatchKind::ScissorRect(keys[i].scissor_rect)),
                ..st0
            }
        } else {
            st0
        };
        assert(entry_wf(e, num_custom));
        lemma_plan_kinds_counts(st1, e, i, NUM_BUILTIN_KINDS as nat);
        let st2 = plan_kinds(st1, e, i, NUM_BUILTIN_KINDS as nat);
        if e.custom.len() > 0 {
            lemma_plan_customs_counts(st2, i, num_custom);
        }
        assert forall|s: int| 0 <= s < NUM_BUILTIN_KINDS implies #[trigger] count_nonempty(
            entries,
            sorted,
            s,
        ) <= sorted.len() by {
            assert(count_nonempty(entries, prev, s) <= prev.len());
        }
    }
}

} // verus!

verus! {

/// The slot of a built-in batch step (-1 for other steps).
pub open spec fn item_slot(x: BatchKind) -> int {
    match x {
        BatchKind::Primitives { kind, .. } => spec_kind_slot(kind),
        _ => -1,
    }
}

/// The pipeline of a custom batch step (-1 for other steps).
pub open spec fn item_pipeline(x: BatchKind) -> int {
    match x {
        BatchKind::Custom { pipeline_index, .. } => pipeline_index as int,
        _ => -1,
    }
}

/// How many steps of the order draw a batch of slot `s`.
pub open spec fn count_slot(order: Seq<BatchKind>, s: int) -> nat
    decreases order.len(),
{
    if order.len() == 0 {
        0
    } else {
        count_slot(order.drop_last(), s) + if item_slot(order.last()) == s {
            1nat
        } else {
            0nat
        }
    }
}

/// How many steps of the order draw a batch of custom pipeline `c`.
pub open spec fn count_pipeline(order: Seq<BatchKind>, c: int) -> nat
    decreases order.len(),
{
    if order.len() == 0 {
        0
    } else {
        count_pipeline(order.drop_last(), c) + if item_pipeline(order.last()) == c {
            1nat
        } else {
            0nat
        }
    }
}

/// Whether step `i` of the order is sound: a batch is made of a non-empty
/// list of an existing entry (for custom batches, of an entry that has
/// custom lists, for an existing pipeline), and its index counts the
/// earlier batches of its kind or pipeline.
pub open spec fn item_ok<P>(
    order: Seq<BatchKind>,
    i: int,
    entries: Seq<EntryView<P>>,
    num_custom: nat,
) -> bool {
    match order[i] {
        BatchKind::Primitives { kind, batch_index, entry_index } => {
            &&& kind != PrimitiveKind::Custom
            &&& entry_index < entries.len()
            &&& entries[entry_index as int].lists[spec_kind_slot(kind)].len() > 0
            &&& batch_index == count_slot(order.take(i), spec_kind_slot(kind))
        },
        BatchKind::Custom { pipeline_index, batch_index, entry_index } => {
            &&& pipeline_index < num_custom
            &&& entry_index < entries.len()
            &&& entries[entry_index as int].custom.len() > 0
            &&& batch_index == count_pipeline(order.take(i), pipeline_index as int)
        },
        BatchKind::ScissorRect(_) => true,
    }
}

/// Whether a plan is sound: its counts are the numbers of batches of each
/// kind and pipeline in its order (each at most `bound`), and every step is
/// sound.
pub open spec fn plan_wf<P>(pv: PlanView, entries: Seq<EntryView<P>>, num_custom: nat, bound: nat) -> bool {
    &&& pv.counts.len() == NUM_BUILTIN_KINDS
    &&& pv.custom_counts.len() == num_custom
    &&& forall|s: int|
        0 <= s < NUM_BUILTIN_KINDS ==> #[trigger] pv.counts[s] == count_slot(pv.order, s)
            && pv.counts[s] <= bound
    &&& forall|c: int|
        0 <= c < num_custom ==> #[trigger] pv.custom_counts[c] == count_pipeline(pv.order, c)
            && pv.custom_counts[c] <= bound
    &&& forall|i: int| 0 <= i < pv.order.len() ==> #[trigger] item_ok(pv.order, i, entries, num_custom)
}

proof fn lemma_push_order(order: Seq<BatchKind>, x: BatchKind)
    ensures
        forall|s: int|
            #[trigger] count_slot(order.push(x), s) == count_slot(order, s) + if item_slot(x) == s {
                1int
            } else {
                0int
            },
        forall|c: int|
            #[trigger] count_pipeline(order.push(x), c) == count_pipeline(order, c) + if item_pipeline(
                x,
            ) == c {
                1int
            } else {
                0int
            },
        forall|i: int| 0 <= i <= order.len() ==> #[trigger] order.push(x).take(i) == order.take(i),
{
    assert(order.push(x).drop_last() =~= order);
    assert forall|i: int| 0 <= i <= order.len() implies #[trigger] order.push(x).take(i)
        == order.take(i) by {
        assert(order.push(x).take(i) =~= order.take(i));
    }
}

/// Pushing a sound step keeps a plan sound.
proof fn lemma_push_item<P>(
    pv: PlanView,
    x: BatchKind,
    counts: Seq<usize>,
    custom_counts: Seq<usize>,
    entries: Seq<EntryView<P>>,
    num_custom: nat,
    bound: nat,
)
    requires
        plan_wf(pv, entries, num_custom, bound),
        item_ok(pv.order.push(x), pv.order.len() as int, entries, num_custom),
        counts.len() == NUM_BUILTIN_KINDS,
        custom_counts.len() == num_custom,
        forall|s: int|
            0 <= s < NUM_BUILTIN_KINDS ==> #[trigger] counts[s] == pv.counts[s] + if item_slot(x)
                == s {
                1int
            } else {
                0int
            },
        forall|c: int|
            0 <= c < num_custom ==> #[trigger] custom_counts[c] == pv.custom_counts[c]
                + if item_pipeline(x) == c {
                1int
            } else {
                0int
            },
        forall|s: int| 0 <= s < NUM_BUILTIN_KINDS ==> #[trigger] counts[s] <= bound,
        forall|c: int| 0 <= c < num_custom ==> #[trigger] custom_counts[c] <= bound,
    ensures
        plan_wf(
            PlanView { counts, custom_counts, order: pv.order.push(x), ..pv },
            entries,
            num_custom,
            bound,
        ),
{
    lemma_push_order(pv.order, x);
    let o2 = pv.order.push(x);
    assert forall|i: int| 0 <= i < o2.len() implies #[trigger] item_ok(o2, i, entries, num_custom) by {
        if i < pv.order.len() {
            assert(item_ok(pv.order, i, entries, num_custom));
            assert(o2[i] == pv.order[i]);
            assert(o2.take(i) == pv.order.take(i));
        }
    }
    assert forall|s: int| 0 <= s < NUM_BUILTIN_KINDS implies #[trigger] counts[s] == count_slot(o2, s)
        && counts[s] <= bound by {
        assert(pv.counts[s] == count_slot(pv.order, s));
        assert(count_slot(o2, s) == count_slot(pv.order, s) + if item_slot(x) == s {
            1int
        } else {
            0int
        });
    }
    assert forall|c: int| 0 <= c < num_custom implies #[trigger] custom_counts[c] == count_pipeline(
        o2,
        c,
    ) && custom_counts[c] <= bound by {
        assert(pv.custom_counts[c] == count_pipeline(pv.order, c));
        assert(count_pipeline(o2, c) == count_pipeline(pv.order, c) + if item_pipeline(x) == c {
            1int
        } else {
            0int
        });
    }
}

} // verus!

verus! {

proof fn lemma_plan_wf_weaken<P>(pv: PlanView, entries: Seq<EntryView<P>>, num_custom: nat, b1: nat, b2: nat)
    requires
        plan_wf(pv, entries, num_custom, b1),
        b1 <= b2,
    ensures
        plan_wf(pv, entries, num_custom, b2),
{
    assert forall|s: int| 0 <= s < NUM_BUILTIN_KINDS implies #[trigger] pv.counts[s] == count_slot(
        pv.order,
        s,
    ) && pv.counts[s] <= b2 by {}
    assert forall|c: int| 0 <= c < num_custom implies #[trigger] pv.custom_counts[c]
        == count_pipeline(pv.order, c) && pv.custom_counts[c] <= b2 by {}
}

proof fn lemma_plan_kinds_wf<P>(
    st: PlanView,
    entries: Seq<EntryView<P>>,
    ei: int,
    n: nat,
    num_custom: nat,
    bound: nat,
)
    requires
        plan_wf(st, entries, num_custom, bound),
        0 <= ei < entries.len(),
        entries[ei].lists.len() == NUM_BUILTIN_KINDS,
        entries.len() <= usize::MAX,
        n <= NUM_BUILTIN_KINDS,
        bound <= usize::MAX,
        forall|s: int| 0 <= s < NUM_BUILTIN_KINDS ==> #[trigger] st.counts[s] < bound,
    ensures
        plan_wf(plan_kinds(st, entries[ei], ei, n), entries, num_custom, bound),
        plan_kinds(st, entries[ei], ei, n).custom_counts == st.custom_counts,
    decreases n,
{
    let e = entries[ei];
    lemma_plan_kinds_counts(st, e, ei, n);
    if n > 0 {
        let k = (n - 1) as nat;
        lemma_plan_kinds_wf(st, entries, ei, k, num_custom, bound);
        lemma_plan_kinds_counts(st, e, ei, k);
        let p = plan_kinds(st, e, ei, k);
        let slot = k as int;
        if e.lists[slot].len() > 0 {
            let x = BatchKind::Primitives {
                kind: spec_slot_kind(slot),
                batch_index: p.counts[slot],
                entry_index: ei as usize,
            };
            assert(spec_kind_slot(spec_slot_kind(slot)) == slot);
            lemma_push_order(p.order, x);
            assert(p.order.push(x).take(p.order.len() as int) == p.order.take(p.order.len() as int));
            assert(p.order.take(p.order.len() as int) =~= p.order);
            assert(p.order.push(x)[p.order.len() as int] == x);
            assert(item_ok(p.order.push(x), p.order.len() as int, entries, num_custom));
            let c2 = p.counts.update(slot, (p.counts[slot] + 1) as usize);
            assert forall|s: int| 0 <= s < NUM_BUILTIN_KINDS implies #[trigger] c2[s] <= bound by {
                assert(p.counts[s] == st.counts[s] + if s < k && e.lists[s].len() > 0 {
                    1int
                } else {
                    0int
                });
            }
            lemma_push_item(p, x, c2, p.custom_counts, entries, num_custom, bound);
            assert(plan_kinds(st, e, ei, n) == PlanView {
                counts: c2,
                custom_counts: p.custom_counts,
                order: p.order.push(x),
                ..p
            });
        }
    }
}

proof fn lemma_plan_customs_wf<P>(
    st: PlanView,
    entries: Seq<EntryView<P>>,
    ei: int,
    n: nat,
    num_custom: nat,
    bound: nat,
)
    requires
        plan_wf(st, entries, num_custom, bound),
        0 <= ei < entries.len(),
        entries[ei].custom.len() > 0,
        entries.len() <= usize::MAX,
        num_custom <= usize::MAX,
        n <= num_custom,
        bound <= usize::MAX,
        forall|c: int| 0 <= c < num_custom ==> #[trigger] st.custom_counts[c] < bound,
    ensures
        plan_wf(plan_customs(st, ei, n), entries, num_custom, bound),
        plan_customs(st, ei, n).counts == st.counts,
    decreases n,
{
    lemma_plan_customs_counts(st, ei, n);
    if n > 0 {
        let k = (n - 1) as nat;
        lemma_plan_customs_wf(st, entries, ei, k, num_custom, bound);
        lemma_plan_customs_counts(st, ei, k);
        let p = plan_customs(st, ei, k);
        let c = k as int;
        let x = BatchKind::Custom {
            pipeline_index: c as usize,
            batch_index: p.custom_counts[c],
            entry_index: ei as usize,
        };
        lemma_push_order(p.order, x);
        assert(p.order.push(x).take(p.order.len() as int) == p.order.take(p.order.len() as int));
        assert(p.order.take(p.order.len() as int) =~= p.order);
        assert(p.order.push(x)[p.order.len() as int] == x);
        assert(item_ok(p.order.push(x), p.order.len() as int, entries, num_custom));
        let c2 = p.custom_counts.update(c, (p.custom_counts[c] + 1) as usize);
        assert forall|q: int| 0 <= q < num_custom implies #[trigger] c2[q] <= bound by {
            assert(p.custom_counts[q] == st.custom_counts[q] + if q < k {
                1int
            } else {
                0int
            });
        }
        lemma_push_item(p, x, p.counts, c2, entries, num_custom, bound);
    }
}

/// The plan of a frame is sound: each batch is made of a non-empty list of
/// an existing entry (a custom batch, of an entry with custom lists, for an
/// existing pipeline); the batches of each built-in kind, and of each custom
/// pipeline, are numbered 0, 1, 2, ... in drawing order; and the plan's
/// counts are the numbers of those batches.
pub proof fn lemma_plan_sound<P>(
    keys: Seq<BatchKey>,
    entries: Seq<EntryView<P>>,
    sorted: Seq<usize>,
    num_custom: nat,
)
    requires
        is_index_permutation(sorted, keys.len()),
        keys.len() == entries.len(),
        keys.len() <= usize::MAX,
        num_custom <= usize::MAX,
        forall|i: int| 0 <= i < entries.len() ==> entry_wf(#[trigger] entries[i], num_custom),
    ensures
        plan_wf(plan(keys, entries, sorted, num_custom), entries, num_custom, sorted.len()),
{
    lemma_plan_sound_prefix(keys, entries, sorted, num_custom);
}

proof fn lemma_plan_sound_prefix<P>(
    keys: Seq<BatchKey>,
    entries: Seq<EntryView<P>>,
    sorted: Seq<usize>,
    num_custom: nat,
)
    requires
        sorted.len() <= keys.len(),
        forall|i: int| 0 <= i < sorted.len() ==> #[trigger] sorted[i] < keys.len(),
        keys.len() == entries.len(),
        keys.len() <= usize::MAX,
        num_custom <= usize::MAX,
        forall|i: int| 0 <= i < entries.len() ==> entry_wf(#[trigger] entries[i], num_custom),
    ensures
        plan_wf(plan(keys, entries, sorted, num_custom), entries, num_custom, sorted.len()),
    decreases sorted.len(),
{
    if sorted.len() == 0 {
        let pv = initial_plan(num_custom);
        assert(pv.order.len() == 0);
        assert forall|s: int| 0 <= s < NUM_BUILTIN_KINDS implies #[trigger] pv.counts[s]
            == count_slot(pv.order, s) && pv.counts[s] <= 0 by {}
        assert forall|c: int| 0 <= c < num_custom implies #[trigger] pv.custom_counts[c]
            == count_pipeline(pv.order, c) && pv.custom_counts[c] <= 0 by {}
    } else {
        let prev = sorted.drop_last();
        let j = prev.len();
        lemma_plan_sound_prefix(keys, entries, prev, num_custom);
        let st0 = plan(keys, entries, prev, num_custom);
        lemma_plan_wf_weaken(st0, entries, num_custom, j, j + 1);
        let ei = sorted.last() as int;
        let e = entries[ei];
        assert(entry_wf(e, num_custom));
        let key = keys[ei];
        let st1 = if key.scissor_rect != st0.scissor {
            PlanView {
                scissor: key.scissor_rect,
                order: st0.order.push(BatchKind::ScissorRect(key.scissor_rect)),
                ..st0
            }
        } else {
            st0
        };
        if key.scissor_rect != st0.scissor {
            let x = BatchKind::ScissorRect(key.scissor_rect);
            let st0s = PlanView { scissor: key.scissor_rect, ..st0 };
            assert(plan_wf(st0s, entries, num_custom, j + 1));
            lemma_push_order(st0.order, x);
            lemma_push_item(st0s, x, st0.counts, st0.custom_counts, entries, num_custom, j + 1);
        }
        assert(plan_wf(st1, entries, num_custom, j + 1));
        lemma_plan_kinds_wf(st1, entries, ei, NUM_BUILTIN_KINDS as nat, num_custom, j + 1);
        lemma_plan_kinds_counts(st1, e, ei, NUM_BUILTIN_KINDS as nat);
        let st2 = plan_kinds(st1, e, ei, NUM_BUILTIN_KINDS as nat);
        if e.custom.len() > 0 {
            assert(num_custom == e.custom.len());
            lemma_plan_customs_wf(st2, entries, ei, num_custom, num_custom, j + 1);
        }
    }
}

} // verus!
