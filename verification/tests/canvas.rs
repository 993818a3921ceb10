use rootvg::canvas::{kind_slot, render_actions, sort_by_z, BatchKey, BatchKind, Canvas, RenderAction};
use rootvg::geom::{PointI32, RectI32, SizeI32, VectorI32};
use rootvg::primitive_group::{Primitive, PrimitiveGroup, PrimitiveKind};

fn p(kind: PrimitiveKind, v: u32) -> Primitive<u32> {
    Primitive { kind, pipeline_index: 0, payload: v }
}

fn custom(pipeline_index: usize, v: u32) -> Primitive<u32> {
    Primitive { kind: PrimitiveKind::Custom, pipeline_index, payload: v }
}

fn rect(x: i32, y: i32, w: i32, h: i32) -> RectI32 {
    RectI32::new(PointI32::new(x, y), SizeI32::new(w, h))
}

fn canvas(num_custom: usize) -> Canvas<u32> {
    let mut c = Canvas::new(num_custom);
    c.begin(SizeI32::new(200, 100), SizeI32::new(100, 50));
    c
}

#[test]
fn batch_key_packs_z_indices() {
    let k = BatchKey::new(rect(0, 0, 1, 1), 2, 3);
    assert_eq!(k.z_index, (2 << 16) | 3);
    assert_eq!(BatchKey::new(rect(0, 0, 1, 1), 0xffff, 0xffff).z_index, 0xffff_ffff);
}

#[test]
fn begin_resets() {
    let mut c = canvas(0);
    assert!(c.needs_preparing);
    assert_eq!(c.scissor_rect(), rect(0, 0, 100, 50));
    c.set_z_index(7);
    c.add(p(PrimitiveKind::SolidQuad, 1));
    c.begin(SizeI32::new(10, 10), SizeI32::new(10, 10));
    assert!(c.batch_keys.is_empty());
    assert_eq!(c.z_index(), 0);
    assert_eq!(c.scissor_rect(), rect(0, 0, 10, 10));
}

#[test]
fn add_files_by_kind_and_key() {
    let mut c = canvas(0);
    c.add(p(PrimitiveKind::SolidQuad, 1));
    c.add(p(PrimitiveKind::Text, 2));
    c.add(p(PrimitiveKind::SolidQuad, 3));
    assert_eq!(c.batch_keys.len(), 1);
    assert_eq!(c.batch_keys[0], BatchKey { scissor_rect: rect(0, 0, 100, 50), z_index: 0 });
    let e = &c.batch_entries[0];
    assert_eq!(e.lists[kind_slot(PrimitiveKind::SolidQuad)], vec![1, 3]);
    assert_eq!(e.lists[kind_slot(PrimitiveKind::Text)], vec![2]);
    c.set_z_index(2);
    c.add(p(PrimitiveKind::Image, 4));
    assert_eq!(c.batch_keys.len(), 2);
    assert_eq!(c.batch_keys[1].z_index, 2 << 16);
    assert_eq!(c.batch_entries[1].lists[kind_slot(PrimitiveKind::Image)], vec![4]);
}

#[test]
fn scissor_rect_in_and_out_of_bounds() {
    let mut c = canvas(0);
    c.set_scissor_rect(rect(10, 10, 20, 20));
    assert_eq!(c.scissor_rect(), rect(10, 10, 20, 20));
    assert!(!c.scissor_rect_out_of_bounds);
    c.add(p(PrimitiveKind::SolidQuad, 1));
    assert_eq!(c.batch_keys[0].scissor_rect, rect(10, 10, 20, 20));
    c.set_scissor_rect(rect(500, 10, 20, 20));
    assert!(c.scissor_rect_out_of_bounds);
    assert_eq!(c.scissor_rect(), rect(500, 10, 20, 20));
    c.add(p(PrimitiveKind::SolidQuad, 2));
    c.add_batch(vec![p(PrimitiveKind::SolidQuad, 3)]);
    assert_eq!(c.batch_keys.len(), 1);
    assert_eq!(c.batch_entries[0].lists[0], vec![1]);
    c.reset_scissor_rect();
    assert!(!c.scissor_rect_out_of_bounds);
    assert_eq!(c.scissor_rect(), rect(0, 0, 100, 50));
}

#[test]
fn custom_primitives_by_pipeline() {
    let mut c = canvas(2);
    c.add(custom(1, 10));
    assert_eq!(c.batch_entries[0].custom_primitives.len(), 2);
    assert!(c.batch_entries[0].custom_primitives[0].is_empty());
    assert_eq!(c.batch_entries[0].custom_primitives[1], vec![10]);
    // A pipeline index past the custom pipelines is dropped.
    c.add(custom(5, 11));
    assert_eq!(c.batch_entries[0].custom_primitives[1], vec![10]);
    assert_eq!(c.batch_entries[0].custom_primitives[0], Vec::<u32>::new());
}

#[test]
fn add_batch_adds_in_order() {
    let mut c = canvas(0);
    c.add_batch(vec![p(PrimitiveKind::SolidMesh, 1), p(PrimitiveKind::GradientMesh, 2), p(PrimitiveKind::SolidMesh, 3)]);
    assert_eq!(c.batch_entries[0].lists[kind_slot(PrimitiveKind::SolidMesh)], vec![1, 3]);
    assert_eq!(c.batch_entries[0].lists[kind_slot(PrimitiveKind::GradientMesh)], vec![2]);
    // An empty batch still makes the entry of its key.
    c.set_z_index(1);
    c.add_batch(vec![]);
    assert_eq!(c.batch_keys.len(), 2);
}

#[test]
fn add_group_with_offset_moves_scissor_and_z() {
    let mut c = canvas(1);
    c.set_z_index(1);
    let mut g = PrimitiveGroup::new();
    g.add(p(PrimitiveKind::SolidQuad, 1));
    g.set_z_index(3);
    g.set_scissor_rect(rect(0, 0, 10, 10));
    g.add(p(PrimitiveKind::Text, 2));
    g.add(custom(0, 3));
    g.set_scissor_rect(rect(-50, 0, 10, 10));
    g.add(p(PrimitiveKind::Image, 4));
    c.add_group_with_offset(g, VectorI32::new(5, 6));
    assert_eq!(c.batch_keys.len(), 2);
    assert_eq!(c.batch_keys[0], BatchKey { scissor_rect: rect(0, 0, 100, 50), z_index: 1 << 16 });
    assert_eq!(c.batch_entries[0].lists[0], vec![1]);
    assert_eq!(c.batch_keys[1], BatchKey { scissor_rect: rect(5, 6, 10, 10), z_index: (1 << 16) | 3 });
    assert_eq!(c.batch_entries[1].lists[kind_slot(PrimitiveKind::Text)], vec![2]);
    // The entry had no custom lists, so the custom primitive was dropped.
    assert!(c.batch_entries[1].custom_primitives.is_empty());
}

#[test]
fn add_group_at_zero_offset() {
    let mut c = canvas(0);
    let mut g = PrimitiveGroup::new();
    g.add(p(PrimitiveKind::SolidQuad, 1));
    c.set_scissor_rect(rect(500, 0, 1, 1));
    c.add_group(g);
    assert!(c.batch_keys.is_empty());
}

#[test]
fn prepare_plans_in_z_order() {
    let mut c = canvas(0);
    c.set_z_index(5);
    c.add(p(PrimitiveKind::Image, 1));
    c.set_z_index(0);
    c.add(p(PrimitiveKind::SolidQuad, 2));
    c.add(p(PrimitiveKind::Text, 3));
    c.set_scissor_rect(rect(1, 1, 5, 5));
    c.add(p(PrimitiveKind::SolidQuad, 4));
    let plan = c.prepare(false).unwrap();
    assert!(!c.needs_preparing);
    assert_eq!(plan.sorted_entries, vec![1, 2, 0]);
    assert_eq!(
        plan.order,
        vec![
            BatchKind::ScissorRect(rect(0, 0, 100, 50)),
            BatchKind::Primitives { kind: PrimitiveKind::SolidQuad, batch_index: 0, entry_index: 1 },
            BatchKind::Primitives { kind: PrimitiveKind::Text, batch_index: 0, entry_index: 1 },
            BatchKind::ScissorRect(rect(1, 1, 5, 5)),
            BatchKind::Primitives { kind: PrimitiveKind::SolidQuad, batch_index: 1, entry_index: 2 },
            BatchKind::ScissorRect(rect(0, 0, 100, 50)),
            BatchKind::Primitives { kind: PrimitiveKind::Image, batch_index: 0, entry_index: 0 },
        ]
    );
    assert_eq!(plan.num_batches, vec![2, 0, 0, 0, 1, 1]);
    assert!(c.prepare(false).is_none());
    assert!(c.prepare(true).is_some());
}

#[test]
fn prepare_custom_batches_for_every_pipeline() {
    let mut c = canvas(2);
    c.add(custom(1, 1));
    let plan = c.prepare(false).unwrap();
    assert_eq!(
        plan.order,
        vec![
            BatchKind::ScissorRect(rect(0, 0, 100, 50)),
            BatchKind::Custom { pipeline_index: 0, batch_index: 0, entry_index: 0 },
            BatchKind::Custom { pipeline_index: 1, batch_index: 0, entry_index: 0 },
        ]
    );
    assert_eq!(plan.num_custom_batches, vec![1, 1]);
}

#[test]
fn zero_scissor_rect_needs_no_change() {
    let mut c: Canvas<u32> = Canvas::new(0);
    c.begin(SizeI32::new(10, 10), SizeI32::new(0, 0));
    c.add(p(PrimitiveKind::SolidQuad, 1));
    let plan = c.prepare(false).unwrap();
    assert_eq!(
        plan.order,
        vec![BatchKind::Primitives { kind: PrimitiveKind::SolidQuad, batch_index: 0, entry_index: 0 }]
    );
}

#[test]
fn sort_by_z_is_stable() {
    let keys = vec![
        BatchKey { scissor_rect: rect(0, 0, 1, 1), z_index: 3 },
        BatchKey { scissor_rect: rect(0, 0, 2, 1), z_index: 1 },
        BatchKey { scissor_rect: rect(0, 0, 3, 1), z_index: 3 },
        BatchKey { scissor_rect: rect(0, 0, 4, 1), z_index: 0 },
    ];
    assert_eq!(sort_by_z(&keys), vec![3, 1, 0, 2]);
}

#[test]
fn render_actions_skip_batches_off_target() {
    let draw = BatchKind::Primitives { kind: PrimitiveKind::SolidQuad, batch_index: 0, entry_index: 0 };
    let on = rect(0, 0, 10, 10);
    let order = vec![
        draw,
        BatchKind::ScissorRect(rect(-50, 0, 10, 10)),
        draw,
        BatchKind::Custom { pipeline_index: 0, batch_index: 0, entry_index: 1 },
        BatchKind::ScissorRect(on),
        draw,
    ];
    let physical = vec![None, None, None, None, Some(on), None];
    assert_eq!(
        render_actions(&order, &physical),
        vec![
            RenderAction::Draw,
            RenderAction::Skip,
            RenderAction::Skip,
            RenderAction::Skip,
            RenderAction::SetScissorRect(on),
            RenderAction::Draw,
        ]
    );
    assert!(render_actions(&vec![], &vec![]).is_empty());
}
