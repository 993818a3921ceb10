use rootvg::mesh::{cached_mesh_action, fill_vert_capacity, join_flags, keep_mesh_entry, needs_bevel, POINT_BEVEL, POINT_CORNER, POINT_INNER_BEVEL, POINT_LEFT, reuse_vertex_buffer, stroke_vert_capacity, CachedMeshAction, Indexed, MeshCacheKey, PathList, PathState};
use rootvg::style::{LineCap, LineJoin, Winding};

#[test]
fn indexed_new_is_empty() {
    let m: Indexed<u8> = Indexed::new();
    assert!(m.vertices.is_empty() && m.indices.is_empty());
    let d: Indexed<u8> = Indexed::default();
    assert_eq!(m, d);
}

#[test]
fn mesh_cache_key_new_reset_and_opts() {
    let mut k = MeshCacheKey::new();
    assert!(k.command_buffer.data.is_empty());
    assert_eq!(k.stroke_width_bytes, [0; 4]);
    assert_eq!(k.line_join, LineJoin::Butt);
    assert!(!k.fill && !k.antialias);
    k.command_buffer.close_path();
    k.set_mesh_opts(2.0f32.to_ne_bytes(), 10.0f32.to_ne_bytes(), LineJoin::Round, LineCap::Square, true, true, false);
    assert!(!k.antialias);
    assert!(k.fill);
    assert_eq!(k.line_cap, LineCap::Square);
    k.set_mesh_opts(2.0f32.to_ne_bytes(), 10.0f32.to_ne_bytes(), LineJoin::Round, LineCap::Square, true, true, true);
    assert!(k.antialias);
    k.reset();
    assert!(k.command_buffer.data.is_empty());
    assert_eq!(k.stroke_width_bytes, 2.0f32.to_ne_bytes());
}

#[test]
fn path_state_new() {
    let s = PathState::new(7);
    assert_eq!(s.point_start_index, 7);
    assert_eq!(s.num_points, 0);
    assert_eq!(s.winding, Winding::Solid);
    assert!(!s.closed && !s.convex);
}

fn path(num_points: usize, num_bevels: usize, closed: bool) -> PathState {
    let mut s = PathState::new(0);
    s.num_points = num_points;
    s.num_bevels = num_bevels;
    s.closed = closed;
    s
}

#[test]
fn vertex_capacities() {
    let paths = vec![path(4, 1, true), path(3, 0, false)];
    // Round joins: (4 + 1 * (8 + 2) + 1) * 2 = 30; round caps: (8 * 2 + 2) * 2 = 36;
    // second path: (3 + 0 + 1) * 2 = 8.
    assert_eq!(stroke_vert_capacity(&paths, LineJoin::Round, LineCap::Round, 8), Some(74));
    // Other joins: (4 + 5 + 1) * 2 = 20; other caps: 12; second: 8.
    assert_eq!(stroke_vert_capacity(&paths, LineJoin::Miter, LineCap::Butt, 8), Some(40));
    // Fill: 4 + 1 + 1 = 6 and 3 + 0 + 1 = 4; fringes 20 and 8.
    assert_eq!(fill_vert_capacity(&paths, false), Some(10));
    assert_eq!(fill_vert_capacity(&paths, true), Some(38));
    assert_eq!(fill_vert_capacity(&vec![], true), Some(0));
    // Counts that do not fit in a usize.
    let huge = vec![path(usize::MAX / 2, 0, false)];
    assert_eq!(stroke_vert_capacity(&huge, LineJoin::Miter, LineCap::Butt, 8), None);
    assert_eq!(fill_vert_capacity(&huge, false), Some(usize::MAX / 2 + 1));
    assert_eq!(fill_vert_capacity(&huge, true), None);
    let bevels = vec![path(1, 1, false)];
    assert_eq!(stroke_vert_capacity(&bevels, LineJoin::Round, LineCap::Butt, usize::MAX), None);
    assert_eq!(stroke_vert_capacity(&bevels, LineJoin::Miter, LineCap::Butt, usize::MAX), Some(14));
}

#[test]
fn cache_rules() {
    assert!(!reuse_vertex_buffer(0));
    assert!(reuse_vertex_buffer(1));
    assert!(reuse_vertex_buffer(128));
    assert!(!reuse_vertex_buffer(129));
    assert!(keep_mesh_entry(true, false));
    assert!(keep_mesh_entry(false, true));
    assert!(!keep_mesh_entry(false, false));
    assert_eq!(cached_mesh_action(Some(3u32), false), CachedMeshAction::Reuse(3));
    assert_eq!(cached_mesh_action(Some(3u32), true), CachedMeshAction::Rebuild(3));
    assert_eq!(cached_mesh_action(None::<u32>, true), CachedMeshAction::BuildAndInsert);
}

#[test]
fn path_list_points_and_sub_paths() {
    let mut list = PathList::new();
    assert_eq!(list.paths.len(), 1);
    assert_eq!(list.num_points, 0);
    // The first point of a sub-path is always kept, even when near.
    assert!(list.add_point(true));
    assert!(list.add_point(false));
    // A point near the previous one is merged into it.
    assert!(!list.add_point(true));
    assert_eq!(list.num_points, 2);
    assert_eq!(list.paths[0].num_points, 2);
    list.close_path();
    list.set_path_winding(Winding::Hole);
    assert!(list.paths[0].closed);
    assert_eq!(list.paths[0].winding, Winding::Hole);
    list.begin_path();
    assert_eq!(list.paths.len(), 2);
    assert_eq!(list.paths[1].point_start_index, 2);
    assert!(list.add_point(true));
    assert_eq!(list.paths[1].num_points, 1);
    assert_eq!(list.num_points, 3);
    assert!(!list.paths[1].closed);
    list.reset();
    assert_eq!(list.paths.len(), 1);
    assert_eq!(list.num_points, 0);
    assert_eq!(list.paths[0].point_start_index, 0);
}

#[test]
fn join_flags_of_points() {
    // Everything but the corner flag is worked out again.
    let all = POINT_CORNER | POINT_LEFT | POINT_BEVEL | POINT_INNER_BEVEL;
    assert_eq!(join_flags(all, false, false, false, LineJoin::Miter), POINT_CORNER);
    assert_eq!(join_flags(POINT_LEFT, false, false, true, LineJoin::Round), 0);
    // A corner is beveled when the miter is too long, or with bevel or round joins.
    assert_eq!(join_flags(POINT_CORNER, false, false, true, LineJoin::Miter), POINT_CORNER | POINT_BEVEL);
    assert_eq!(join_flags(POINT_CORNER, false, false, false, LineJoin::Bevel), POINT_CORNER | POINT_BEVEL);
    assert_eq!(join_flags(POINT_CORNER, false, false, false, LineJoin::Round), POINT_CORNER | POINT_BEVEL);
    assert_eq!(join_flags(POINT_CORNER, true, true, false, LineJoin::Miter), POINT_CORNER | POINT_LEFT | POINT_INNER_BEVEL);
    assert_eq!(join_flags(0, true, false, false, LineJoin::Butt), POINT_LEFT);
    assert!(needs_bevel(POINT_BEVEL));
    assert!(needs_bevel(POINT_INNER_BEVEL | POINT_LEFT));
    assert!(!needs_bevel(POINT_CORNER | POINT_LEFT));
}
