use rootvg::geom::{PointI32, RectI32, SizeI32};
use rootvg::primitive_group::{Primitive, PrimitiveBatchSlice, PrimitiveGroup, PrimitiveKind};

fn p(kind: PrimitiveKind, v: u32) -> Primitive<u32> {
    Primitive { kind, pipeline_index: 0, payload: v }
}

fn payloads(b: &PrimitiveBatchSlice<u32>) -> Vec<u32> {
    b.primitives.iter().map(|p| p.payload).collect()
}

#[test]
fn new_group_is_empty() {
    let g: PrimitiveGroup<u32> = PrimitiveGroup::new();
    assert!(g.primitive_batches.is_empty());
    assert_eq!(g.z_index(), 0);
    assert_eq!(*g.scissor_rect(), None);
}

#[test]
fn same_kind_shares_batch() {
    let mut g = PrimitiveGroup::new();
    g.add(p(PrimitiveKind::SolidQuad, 1));
    g.add(p(PrimitiveKind::SolidQuad, 2));
    assert_eq!(g.primitive_batches.len(), 1);
    assert_eq!(payloads(&g.primitive_batches[0]), vec![1, 2]);
}

#[test]
fn kind_change_begins_batch() {
    let mut g = PrimitiveGroup::new();
    g.add(p(PrimitiveKind::SolidQuad, 1));
    g.add(p(PrimitiveKind::Text, 2));
    g.add(p(PrimitiveKind::SolidQuad, 3));
    assert_eq!(g.primitive_batches.len(), 3);
    assert_eq!(g.primitive_batches[1].kind, PrimitiveKind::Text);
}

#[test]
fn z_index_and_scissor_begin_batches() {
    let mut g = PrimitiveGroup::new();
    g.add(p(PrimitiveKind::Image, 1));
    g.set_z_index(0);
    g.add(p(PrimitiveKind::Image, 2));
    assert_eq!(g.primitive_batches.len(), 1);
    g.set_z_index(3);
    g.add(p(PrimitiveKind::Image, 3));
    assert_eq!(g.primitive_batches.len(), 2);
    assert_eq!(g.primitive_batches[1].z_index, 3);
    let r = RectI32::new(PointI32::new(1, 2), SizeI32::new(3, 4));
    g.set_scissor_rect(r);
    g.add(p(PrimitiveKind::Image, 4));
    assert_eq!(g.primitive_batches.len(), 3);
    assert_eq!(g.primitive_batches[2].scissor_rect, Some(r));
    g.reset_scissor_rect();
    g.add(p(PrimitiveKind::Image, 5));
    assert_eq!(g.primitive_batches.len(), 4);
    assert_eq!(g.primitive_batches[3].scissor_rect, None);
}

#[test]
fn add_batch_extends_or_begins() {
    let mut g = PrimitiveGroup::new();
    g.add_batch(PrimitiveKind::SolidMesh, vec![]);
    // An empty run still begins a batch.
    assert_eq!(g.primitive_batches.len(), 1);
    g.add_batch(
        PrimitiveKind::SolidMesh,
        vec![p(PrimitiveKind::SolidMesh, 1), p(PrimitiveKind::SolidMesh, 2)],
    );
    assert_eq!(g.primitive_batches.len(), 1);
    assert_eq!(payloads(&g.primitive_batches[0]), vec![1, 2]);
    g.add_batch(PrimitiveKind::GradientMesh, vec![p(PrimitiveKind::GradientMesh, 3)]);
    assert_eq!(g.primitive_batches.len(), 2);
}

#[test]
fn clear_resets() {
    let mut g = PrimitiveGroup::new();
    g.set_z_index(4);
    g.add(p(PrimitiveKind::Custom, 1));
    g.clear();
    assert!(g.primitive_batches.is_empty());
    assert_eq!(g.z_index(), 0);
    assert!(g.create_new_batch);
}

#[test]
fn primitives_keep_their_order() {
    let mut g = PrimitiveGroup::new();
    let kinds = [PrimitiveKind::SolidQuad, PrimitiveKind::SolidQuad, PrimitiveKind::Text, PrimitiveKind::Text, PrimitiveKind::SolidQuad];
    for (i, k) in kinds.iter().enumerate() {
        if i == 3 {
            g.set_z_index(1);
        }
        g.add(p(*k, i as u32));
    }
    let all: Vec<u32> = g.primitive_batches.iter().flat_map(|b| payloads(b)).collect();
    assert_eq!(all, vec![0, 1, 2, 3, 4]);
    assert_eq!(g.primitive_batches.len(), 4);
}
