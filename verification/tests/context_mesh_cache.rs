use rootvg::context::{FrameQueue, StateStack, VertRange};
use rootvg::mesh::MeshCacheKey;
use rootvg::mesh_cache::{MeshCache, MeshID, Vertex};
use rootvg::style::LineJoin;

#[test]
fn state_stack_save_restore() {
    let mut s = StateStack::new(1u32);
    s.save();
    s.set_last(2);
    assert_eq!(s.states, vec![1, 2]);
    s.restore();
    assert_eq!(s.last(), 1);
    // The base state is never popped.
    s.restore();
    assert_eq!(s.states, vec![1]);
    s.save();
    s.save();
    s.truncate_to_base(7);
    assert_eq!(s.states, vec![7]);
}

#[test]
fn frame_queue_ranges_and_cancel() {
    let mut q: FrameQueue<&str> = FrameQueue::new();
    assert!(!q.needs_preparing);
    q.begin_frame();
    assert!(q.needs_preparing);
    assert_eq!(q.claim_vert_range(None, 0), None);
    assert_eq!(q.claim_vert_range(None, 5), Some((VertRange { start: 0, end: 5 }, true)));
    assert_eq!(q.claim_vert_range(None, 3), Some((VertRange { start: 5, end: 8 }, true)));
    let r = VertRange { start: 0, end: 5 };
    assert_eq!(q.claim_vert_range(Some(r), 5), Some((r, false)));
    assert_eq!(q.total_num_vertices, 8);
    q.queue("a");
    assert_eq!(q.queued_items, vec!["a"]);
    assert!(q.take_needs_preparing());
    assert!(!q.take_needs_preparing());
    q.cancel_frame();
    assert!(q.queued_items.is_empty());
    assert_eq!(q.total_num_vertices, 0);
    assert!(!q.needs_preparing);
}

fn v(x: u32) -> Vertex {
    Vertex { pos: [x, x], uv: [0, 0] }
}

fn key(join: LineJoin) -> MeshCacheKey {
    let mut k = MeshCacheKey::new();
    k.line_join = join;
    k.fill = true;
    k
}

#[test]
fn mesh_cache_keeps_drawn_meshes() {
    let mut c = MeshCache::new();
    let k = key(LineJoin::Round);
    assert_eq!(c.cached_id(&k), None);
    let id = c.insert_cached(k.clone(), vec![], vec![v(1)]);
    assert_eq!(c.cached_id(&k), Some(id));
    // A key with byte-identical fields finds the same id.
    assert_eq!(c.cached_id(&k.clone()), Some(id));
    assert_eq!(c.cached_id(&key(LineJoin::Miter)), None);
    let raw = c.insert_raw_mesh(vec![v(2)], vec![], [0; 4], true);
    assert_eq!(c.len(), 2);
    // Draw the cached mesh only.
    c.begin_frame(false);
    c.get_mut(id).fill_vert_range = Some(VertRange { start: 0, end: 1 });
    c.end_frame();
    assert!(c.contains(id));
    assert!(!c.contains(raw));
    // The purged raw mesh's fill buffer went to the pool, emptied.
    assert_eq!(c.vert_pool, vec![Vec::<Vertex>::new()]);
    assert_eq!(c.cached_id(&k), Some(id));
    // Next frame it is not drawn: it and its key are purged.
    c.begin_frame(false);
    assert_eq!(c.get(id).unwrap().fill_vert_range, None);
    c.end_frame();
    assert!(!c.contains(id));
    assert_eq!(c.cached_id(&k), None);
    assert_eq!(c.len(), 0);
}

#[test]
fn mesh_cache_forced_rebuild() {
    let mut c = MeshCache::new();
    let k = key(LineJoin::Round);
    let id = c.insert_cached(k.clone(), vec![], vec![v(1)]);
    let raw = c.insert_raw_mesh(vec![], vec![], [0; 4], false);
    c.begin_frame(true);
    assert!(!c.contains(id));
    assert!(c.contains(raw));
    assert_eq!(c.cached_id(&k), None);
    // The freed buffer is pooled and handed out again.
    assert_eq!(c.vert_pool.len(), 1);
    assert_eq!(c.take_buffer(), vec![v(1)]);
}

#[test]
fn raw_mesh_mut_dangling_and_live() {
    let mut c = MeshCache::new();
    let mut id = MeshID(thunderdome::Index::DANGLING);
    c.raw_mesh_mut(&mut id);
    assert!(c.contains(id));
    assert!(c.get(id).unwrap().stroke_verts.is_empty());
    c.get_mut(id).fill_verts.push(v(3));
    c.get_mut(id).stroke_vert_range = Some(VertRange { start: 1, end: 2 });
    let before = id;
    c.raw_mesh_mut(&mut id);
    assert_eq!(id, before);
    let e = c.get(id).unwrap();
    assert_eq!(e.fill_verts, vec![v(3)]);
    assert_eq!(e.stroke_vert_range, None);
    c.set_mesh_opts(id, 2.0f32.to_ne_bytes(), true);
    assert!(c.get(id).unwrap().antialiased);
}
