//! Meshes: indexed triangle lists, the key under which a tessellated path is
//! cached, and the per-path state of the tessellator.
use vstd::prelude::*;
use crate::commands::PackedCommandBuffer;
use crate::style::{LineCap, LineJoin, Winding};
use vec1::{Size0Error, Vec1};

verus! {

/// A set of vertices and indices representing a list of triangles.
#[derive(Debug, Clone, PartialEq, Eq)]
pub struct Indexed<T> {
    /// The vertices of the mesh
    pub vertices: Vec<T>,
    /// The list of vertex indices that defines the triangles of the mesh.
    ///
    /// Therefore, this list should always have a length that is a multiple of 3.
    pub indices: Vec<u32>,
}

impl<T> Indexed<T> {
    /// Whether the indices make whole triangles: their number is a multiple
    /// of 3.
    pub open spec fn is_triangle_list(&self) -> bool {
        self.indices@.len() % 3 == 0
    }

    pub fn new() -> (r: Indexed<T>)
        ensures
            r.is_triangle_list(),
            r.vertices@ == Seq::<T>::empty(),
            r.indices@ == Seq::<u32>::empty(),
    {
        Indexed { vertices: Vec::new(), indices: Vec::new() }
    }
}

impl<T> Default for Indexed<T> {
    fn default() -> (r: Indexed<T>)
        ensures
            r.is_triangle_list(),
            r.vertices@ == Seq::<T>::empty(),
            r.indices@ == Seq::<u32>::empty(),
    {
        Indexed::new()
    }
}

/// What a tessellated mesh is cached under: the path's commands and the
/// options of its stroke and fill (the stroke width and miter limit as the
/// native-endian bytes of 32-bit floats).
#[derive(Debug, Clone, PartialEq, Eq, Hash)]
pub struct MeshCacheKey {
    pub command_buffer: PackedCommandBuffer,
    pub stroke_width_bytes: [u8; 4],
    pub miter_limit_bytes: [u8; 4],
    pub line_join: LineJoin,
    pub line_cap: LineCap,
    pub fill: bool,
    pub antialias: bool,
}

impl MeshCacheKey {
    pub fn new() -> (r: MeshCacheKey)
        ensures
            r.command_buffer.data@ == Seq::<u8>::empty(),
            r.stroke_width_bytes@ == seq![0u8, 0u8, 0u8, 0u8],
            r.miter_limit_bytes@ == seq![0u8, 0u8, 0u8, 0u8],
            r.line_join == LineJoin::Butt,
            r.line_cap == LineCap::Butt,
            !r.fill,
            !r.antialias,
    {
        let r = MeshCacheKey {
            command_buffer: PackedCommandBuffer::new(),
            stroke_width_bytes: [0u8, 0u8, 0u8, 0u8],
            miter_limit_bytes: [0u8, 0u8, 0u8, 0u8],
            line_join: LineJoin::Butt,
            line_cap: LineCap::Butt,
            fill: false,
            antialias: false,
        };
        assert(r.stroke_width_bytes@ =~= seq![0u8, 0u8, 0u8, 0u8]);
        assert(r.miter_limit_bytes@ =~= seq![0u8, 0u8, 0u8, 0u8]);
        r
    }

    /// Removes the path's commands, keeping the options.
    pub fn reset(&mut self)
        ensures
            final(self).command_buffer.data@ == Seq::<u8>::empty(),
            final(self).stroke_width_bytes == old(self).stroke_width_bytes,
            final(self).miter_limit_bytes == old(self).miter_limit_bytes,
            final(self).line_join == old(self).line_join,
            final(self).line_cap == old(self).line_cap,
            final(self).fill == old(self).fill,
            final(self).antialias == old(self).antialias,
    {
        self.command_buffer.clear();
    }

    /// Takes the options of a mesh: the stroke width (already clamped to the
    /// allowed range) and the miter limit (already clamped at zero) as bytes,
    /// and antialiasing only when both the context and the options enable it.
    pub fn set_mesh_opts(
        &mut self,
        stroke_width_bytes: [u8; 4],
        miter_limit_bytes: [u8; 4],
        line_join: LineJoin,
        line_cap: LineCap,
        fill: bool,
        anti_alias: bool,
        antialiasing_enabled: bool,
    )
        ensures
            final(self).command_buffer == old(self).command_buffer,
            final(self).stroke_width_bytes == stroke_width_bytes,
            final(self).miter_limit_bytes == miter_limit_bytes,
            final(self).line_join == line_join,
            final(self).line_cap == line_cap,
            final(self).fill == fill,
            final(self).antialias == (antialiasing_enabled && anti_alias),
    {
        self.stroke_width_bytes = stroke_width_bytes;
        self.miter_limit_bytes = miter_limit_bytes;
        self.line_join = line_join;
        self.line_cap = line_cap;
        self.fill = fill;
        self.antialias = antialiasing_enabled && anti_alias;
    }
}

/// The initial capacity of a vertex buffer; longer buffers are not kept for
/// reuse.
pub const INIT_VERTS_CAPACITY: usize = 128;

/// Whether a freed vertex buffer of `len` vertices is kept in the pool for
/// reuse: only a buffer that was used and is not particularly long, so that
/// memory does not blow up.
pub fn reuse_vertex_buffer(len: usize) -> (r: bool)
    ensures
        r == (len > 0 && len <= INIT_VERTS_CAPACITY),
{
    len > 0 && len <= INIT_VERTS_CAPACITY
}

/// Whether a cached mesh is kept at the end of a frame: only when the frame
/// drew its fill or its stroke.
pub fn keep_mesh_entry(has_fill_vert_range: bool, has_stroke_vert_range: bool) -> (r: bool)
    ensures
        r == (has_fill_vert_range || has_stroke_vert_range),
{
    has_fill_vert_range || has_stroke_vert_range
}

/// What building a cached mesh does for a key.
#[derive(Debug, Clone, Copy, PartialEq, Eq)]
pub enum CachedMeshAction<I> {
    /// The key has a mesh and no rebuild is forced: use it.
    Reuse(I),
    /// The key has a mesh but a rebuild is forced: tessellate anew and file
    /// the new mesh under the key in place of this one.
    Rebuild(I),
    /// The key has no mesh: tessellate and file the mesh under the key.
    BuildAndInsert,
}

/// What building a cached mesh does, given the mesh filed under the key, if
/// any, and whether the frame forces every mesh to be rebuilt.
pub fn cached_mesh_action<I: Copy>(existing: Option<I>, force_rebuild: bool) -> (r:
    CachedMeshAction<I>)
    ensures
        r == match existing {
            Some(id) => if force_rebuild {
                CachedMeshAction::Rebuild(id)
            } else {
                CachedMeshAction::Reuse(id)
            },
            None => CachedMeshAction::BuildAndInsert,
        },
{
    match existing {
        Some(id) => if force_rebuild {
            CachedMeshAction::Rebuild(id)
        } else {
            CachedMeshAction::Reuse(id)
        },
        None => CachedMeshAction::BuildAndInsert,
    }
}

/// The state of one sub-path in the tessellator: where its points start in
/// the point list, how many there are, and where its vertices went.
#[derive(Debug, Clone, Copy, PartialEq)]
pub struct PathState {
    pub point_start_index: usize,
    pub num_points: usize,
    pub closed: bool,
    pub num_bevels: usize,
    pub fill_vert_start_index: usize,
    pub num_fill_verts: usize,
    pub stroke_vert_start_index: usize,
    pub num_stroke_verts: usize,
    pub winding: Winding,
    pub convex: bool,
}

impl PathState {
    /// A sub-path with no points yet, starting at the given point index.
    pub open spec fn new_spec(point_start_index: usize) -> PathState {
        PathState {
            point_start_index,
            num_points: 0,
            closed: false,
            num_bevels: 0,
            fill_vert_start_index: 0,
            num_fill_verts: 0,
            stroke_vert_start_index: 0,
            num_stroke_verts: 0,
            winding: Winding::Solid,
            convex: false,
        }
    }

    /// A sub-path with no points yet, starting at the given point index.
    pub fn new(point_start_index: usize) -> (r: PathState)
        ensures
            r == PathState::new_spec(point_start_index),
    {
        PathState {
            point_start_index,
            num_points: 0,
            closed: false,
            num_bevels: 0,
            fill_vert_start_index: 0,
            num_fill_verts: 0,
            stroke_vert_start_index: 0,
            num_stroke_verts: 0,
            winding: Winding::Solid,
            convex: false,
        }
    }
}

/// The most vertices that stroking one sub-path makes, `ncap` being the
/// number of divisions of a half circle.
pub open spec fn path_stroke_capacity(
    p: PathState,
    line_join: LineJoin,
    line_cap: LineCap,
    ncap: nat,
) -> nat {
    let joins = if line_join == LineJoin::Round {
        (p.num_points + p.num_bevels * (ncap + 2) + 1) * 2
    } else {
        (p.num_points + p.num_bevels * 5 + 1) * 2
    };
    let caps = if p.closed {
        if line_cap == LineCap::Round {
            (ncap * 2 + 2) * 2
        } else {
            (3 + 3) * 2
        }
    } else {
        0
    };
    (joins + caps) as nat
}

/// The most vertices that stroking the sub-paths makes.
pub open spec fn stroke_capacity(
    paths: Seq<PathState>,
    line_join: LineJoin,
    line_cap: LineCap,
    ncap: nat,
) -> nat
    decreases paths.len(),
{
    if paths.len() == 0 {
        0
    } else {
        stroke_capacity(paths.drop_last(), line_join, line_cap, ncap) + path_stroke_capacity(
            paths.last(),
            line_join,
            line_cap,
            ncap,
        )
    }
}

/// The most vertices that filling one sub-path makes, with or without an
/// antialiasing fringe.
pub open spec fn path_fill_capacity(p: PathState, fringe: bool) -> nat {
    let fill = p.num_points + p.num_bevels + 1;
    let f = if fringe {
        (p.num_points + p.num_bevels * 5 + 1) * 2
    } else {
        0
    };
    (fill + f) as nat
}

/// The most vertices that filling the sub-paths makes.
pub open spec fn fill_capacity(paths: Seq<PathState>, fringe: bool) -> nat
    decreases paths.len(),
{
    if paths.len() == 0 {
        0
    } else {
        fill_capacity(paths.drop_last(), fringe) + path_fill_capacity(paths.last(), fringe)
    }
}

/// `(n + b * per + 1) * 2`, the room for `n` points and `b` bevels of `per`
/// vertices each, or `None` when it does not fit in a `usize`.
fn checked_join_room(n: usize, b: usize, per: Option<usize>, Ghost(per_spec): Ghost<nat>) -> (r:
    Option<usize>)
    requires
        per is Some ==> per->0 == per_spec,
        per is None ==> per_spec > usize::MAX,
    ensures
        match r {
            Some(c) => c == (n + b * per_spec + 1) * 2,
            None => (n + b * per_spec + 1) * 2 > usize::MAX,
        },
{
    let prod = if b == 0 {
        assert(b * per_spec == 0);
        0usize
    } else {
        assert(b * per_spec >= per_spec) by (nonlinear_arith)
            requires
                b >= 1,
        ;
        match per {
            Some(q) => match b.checked_mul(q) {
                Some(m) => m,
                None => return None,
            },
            None => return None,
        }
    };
    match n.checked_add(prod) {
        Some(t) => match t.checked_add(1) {
            Some(t1) => t1.checked_mul(2),
            None => None,
        },
        None => None,
    }
}

/// The room that stroking one sub-path takes, or `None` when it does not
/// fit in a `usize`.
fn checked_path_stroke_capacity(p: &PathState, line_join: LineJoin, line_cap: LineCap, ncap: usize) -> (r:
    Option<usize>)
    ensures
        match r {
            Some(c) => c == path_stroke_capacity(*p, line_join, line_cap, ncap as nat),
            None => path_stroke_capacity(*p, line_join, line_cap, ncap as nat) > usize::MAX,
        },
{
    let joins = if line_join == LineJoin::Round {
        checked_join_room(p.num_points, p.num_bevels, ncap.checked_add(2), Ghost((ncap + 2) as nat))
    } else {
        checked_join_room(p.num_points, p.num_bevels, Some(5), Ghost(5nat))
    };
    let caps: Option<usize> = if p.closed {
        if line_cap == LineCap::Round {
            match ncap.checked_mul(2) {
                Some(c) => match c.checked_add(2) {
                    Some(c2) => c2.checked_mul(2),
                    None => None,
                },
                None => None,
            }
        } else {
            Some(12)
        }
    } else {
        Some(0)
    };
    match (joins, caps) {
        (Some(j), Some(c)) => j.checked_add(c),
        _ => None,
    }
}

/// The number of vertices to reserve before stroking the sub-paths, or
/// `None` when it does not fit in a `usize`.
pub fn stroke_vert_capacity(
    paths: &Vec<PathState>,
    line_join: LineJoin,
    line_cap: LineCap,
    ncap: usize,
) -> (r: Option<usize>)
    ensures
        r == (if stroke_capacity(paths@, line_join, line_cap, ncap as nat) <= usize::MAX {
            Some(stroke_capacity(paths@, line_join, line_cap, ncap as nat) as usize)
        } else {
            None
        }),
{
    let mut total: usize = 0;
    let mut i: usize = 0;
    while i < paths.len()
        invariant
            i <= paths@.len(),
            total == stroke_capacity(paths@.take(i as int), line_join, line_cap, ncap as nat),
        decreases paths@.len() - i,
    {
        proof {
            assert(paths@.take(i + 1).drop_last() =~= paths@.take(i as int));
            lemma_stroke_capacity_prefix(paths@, line_join, line_cap, ncap as nat, i + 1);
        }
        let term = checked_path_stroke_capacity(&paths[i], line_join, line_cap, ncap);
        match term {
            Some(t) => match total.checked_add(t) {
                Some(s) => total = s,
                None => return None,
            },
            None => return None,
        }
        i = i + 1;
    }
    proof {
        assert(paths@.take(paths@.len() as int) =~= paths@);
    }
    Some(total)
}

/// The capacity of a prefix of the sub-paths is at most that of all.
proof fn lemma_stroke_capacity_prefix(
    paths: Seq<PathState>,
    line_join: LineJoin,
    line_cap: LineCap,
    ncap: nat,
    k: int,
)
    requires
        0 <= k <= paths.len(),
    ensures
        stroke_capacity(paths.take(k), line_join, line_cap, ncap) <= stroke_capacity(
            paths,
            line_join,
            line_cap,
            ncap,
        ),
    decreases paths.len(),
{
    if k < paths.len() {
        lemma_stroke_capacity_prefix(paths.drop_last(), line_join, line_cap, ncap, k);
        assert(paths.drop_last().take(k) =~= paths.take(k));
    } else {
        assert(paths.take(k) =~= paths);
    }
}

/// The capacity of a prefix of the sub-paths is at most that of all.
proof fn lemma_fill_capacity_prefix(paths: Seq<PathState>, fringe: bool, k: int)
    requires
        0 <= k <= paths.len(),
    ensures
        fill_capacity(paths.take(k), fringe) <= fill_capacity(paths, fringe),
    decreases paths.len(),
{
    if k < paths.len() {
        lemma_fill_capacity_prefix(paths.drop_last(), fringe, k);
        assert(paths.drop_last().take(k) =~= paths.take(k));
    } else {
        assert(paths.take(k) =~= paths);
    }
}

/// The room that filling one sub-path takes, or `None` when it does not
/// fit in a `usize`.
fn checked_path_fill_capacity(p: &PathState, fringe: bool) -> (r: Option<usize>)
    ensures
        match r {
            Some(c) => c == path_fill_capacity(*p, fringe),
            None => path_fill_capacity(*p, fringe) > usize::MAX,
        },
{
    let fill = match p.num_points.checked_add(p.num_bevels) {
        Some(f) => f.checked_add(1),
        None => None,
    };
    let f = if fringe {
        checked_join_room(p.num_points, p.num_bevels, Some(5), Ghost(5nat))
    } else {
        Some(0)
    };
    match (fill, f) {
        (Some(a), Some(b)) => a.checked_add(b),
        _ => None,
    }
}

/// The number of vertices to reserve before filling the sub-paths, or
/// `None` when it does not fit in a `usize`.
pub fn fill_vert_capacity(paths: &Vec<PathState>, fringe: bool) -> (r: Option<usize>)
    ensures
        r == (if fill_capacity(paths@, fringe) <= usize::MAX {
            Some(fill_capacity(paths@, fringe) as usize)
        } else {
            None
        }),
{
    let mut total: usize = 0;
    let mut i: usize = 0;
    while i < paths.len()
        invariant
            i <= paths@.len(),
            total == fill_capacity(paths@.take(i as int), fringe),
        decreases paths@.len() - i,
    {
        proof {
            assert(paths@.take(i + 1).drop_last() =~= paths@.take(i as int));
            lemma_fill_capacity_prefix(paths@, fringe, i + 1);
        }
        let term = checked_path_fill_capacity(&paths[i], fringe);
        match term {
            Some(t) => match total.checked_add(t) {
                Some(s) => total = s,
                None => return None,
            },
            None => return None,
        }
        i = i + 1;
    }
    proof {
        assert(paths@.take(paths@.len() as int) =~= paths@);
    }
    Some(total)
}

} // verus!

verus! {

/// The flag of a point where the path turns a corner.
pub const POINT_CORNER: u8 = 1;
/// The flag of a point where the path turns left.
pub const POINT_LEFT: u8 = 2;
/// The flag of a point whose outer join is beveled.
pub const POINT_BEVEL: u8 = 4;
/// The flag of a point whose inner join is beveled.
pub const POINT_INNER_BEVEL: u8 = 8;

/// Whether the corner of a point is beveled: it is a corner, and the miter
/// would be too long or the joins are beveled or round.
pub open spec fn corner_beveled(flags: u8, miter_exceeded: bool, line_join: LineJoin) -> bool {
    flags & POINT_CORNER != 0 && (miter_exceeded || line_join == LineJoin::Bevel || line_join
        == LineJoin::Round)
}

/// Only corners are beveled: a corner is beveled when its miter would be
/// too long, or always with bevel and round joins; with any other join
/// (butt, square, miter) a corner whose miter is within the limit is mitered.
pub proof fn lemma_corner_bevel(flags: u8, miter_exceeded: bool, line_join: LineJoin)
    ensures
        flags & POINT_CORNER == 0 ==> !corner_beveled(flags, miter_exceeded, line_join),
        flags & POINT_CORNER != 0 && (miter_exceeded || line_join == LineJoin::Bevel || line_join
            == LineJoin::Round) ==> corner_beveled(flags, miter_exceeded, line_join),
        !miter_exceeded && (line_join == LineJoin::Butt || line_join == LineJoin::Square
            || line_join == LineJoin::Miter) ==> !corner_beveled(flags, miter_exceeded, line_join),
{
}

/// The flags of a point once its join is worked out: the corner flag is
/// kept; the point turns left, has its inner join beveled, and has its
/// corner beveled as the geometry and the join style say.
pub fn join_flags(
    flags: u8,
    left_turn: bool,
    inner_bevel: bool,
    miter_exceeded: bool,
    line_join: LineJoin,
) -> (r: u8)
    ensures
        r & POINT_CORNER == flags & POINT_CORNER,
        (r & POINT_LEFT != 0) == left_turn,
        (r & POINT_INNER_BEVEL != 0) == inner_bevel,
        (r & POINT_BEVEL != 0) == corner_beveled(flags, miter_exceeded, line_join),
        r < 16,
        flags & POINT_CORNER == 0 ==> r & POINT_BEVEL == 0,
        flags & POINT_CORNER != 0 && (miter_exceeded || line_join == LineJoin::Bevel || line_join
            == LineJoin::Round) ==> r & POINT_BEVEL != 0,
        !miter_exceeded && (line_join == LineJoin::Butt || line_join == LineJoin::Square
            || line_join == LineJoin::Miter) ==> r & POINT_BEVEL == 0,
{
    let corner = flags & POINT_CORNER;
    let left = if left_turn { POINT_LEFT } else { 0u8 };
    let inner = if inner_bevel { POINT_INNER_BEVEL } else { 0u8 };
    let bevel = if corner != 0 && (miter_exceeded || line_join == LineJoin::Bevel || line_join
        == LineJoin::Round) {
        POINT_BEVEL
    } else {
        0u8
    };
    let r = corner | left | inner | bevel;
    assert(r & 1 == corner & 1 && (r & 2 != 0) == (left == 2) && (r & 8 != 0) == (inner == 8) && (
    r & 4 != 0) == (bevel == 4) && r < 16) by (bit_vector)
        requires
            corner == flags & 1,
            left == 0 || left == 2,
            inner == 0 || inner == 8,
            bevel == 0 || bevel == 4,
            r == corner | left | inner | bevel,
    ;
    assert(corner & 1 == corner) by (bit_vector)
        requires
            corner == flags & 1,
    ;
    r
}

/// Whether a point's join takes extra vertices: its corner or its inner
/// join is beveled.
pub fn needs_bevel(flags: u8) -> (r: bool)
    ensures
        r == (flags & POINT_BEVEL != 0 || flags & POINT_INNER_BEVEL != 0),
{
    let r = flags & (POINT_BEVEL | POINT_INNER_BEVEL) != 0;
    assert((flags & (4u8 | 8u8) != 0) == (flags & 4 != 0 || flags & 8 != 0)) by (bit_vector);
    r
}

/// A vector that always holds at least one item.
#[verifier::external_type_specification]
#[verifier::external_body]
#[verifier::reject_recursive_types(I)]
pub struct ExVec1<I>(Vec1<I>);

/// The error of a `Vec1` operation that would leave it empty.
#[verifier::external_type_specification]
#[verifier::external_body]
pub struct ExSize0Error(Size0Error);

/// The sub-paths that a `Vec1` holds, in order.
pub uninterp spec fn sub_paths(v: Vec1<PathState>) -> Seq<PathState>;

/// Calls `Vec1::with_capacity`, which holds `first` alone (a small capacity,
/// so that the allocation cannot exceed its limit).
#[verifier::external_body]
fn vec1_with_capacity(first: PathState, capacity: usize) -> (r: Vec1<PathState>)
    requires
        capacity <= INIT_PATHS_SIZE,
    ensures
        sub_paths(r) == seq![first],
{
    Vec1::with_capacity(first, capacity)
}

/// Calls `Vec1::push`, which appends the item.
#[verifier::external_body]
fn vec1_push(v: &mut Vec1<PathState>, item: PathState)
    ensures
        sub_paths(*final(v)) == sub_paths(*old(v)).push(item),
{
    v.push(item)
}

/// Calls `Vec1::last`: the last item, which always exists.
#[verifier::external_body]
fn vec1_last(v: &Vec1<PathState>) -> (r: &PathState)
    ensures
        *r == sub_paths(*v).last(),
{
    v.last()
}

/// Calls `Vec1::last_mut`: the last item, to be written in place.
#[verifier::external_body]
fn vec1_last_mut(v: &mut Vec1<PathState>) -> (r: &mut PathState)
    ensures
        sub_paths(*old(v)).len() > 0,
        *r == sub_paths(*old(v)).last(),
        sub_paths(*final(v)) == sub_paths(*old(v)).update(
            sub_paths(*old(v)).len() - 1,
            *final(r),
        ),
{
    v.last_mut()
}

/// Calls `Vec1::first_mut`: the first item, to be written in place.
#[verifier::external_body]
fn vec1_first_mut(v: &mut Vec1<PathState>) -> (r: &mut PathState)
    ensures
        sub_paths(*old(v)).len() > 0,
        *r == sub_paths(*old(v))[0],
        sub_paths(*final(v)) == sub_paths(*old(v)).update(0, *final(r)),
{
    v.first_mut()
}

/// Calls `Vec1::truncate`, which keeps the first `len` items and refuses a
/// length of zero, leaving the vector as it was.
#[verifier::external_body]
fn vec1_truncate(v: &mut Vec1<PathState>, len: usize) -> (r: Result<(), Size0Error>)
    ensures
        len > 0 ==> r is Ok && sub_paths(*final(v)) == (if len < sub_paths(*old(v)).len() {
            sub_paths(*old(v)).take(len as int)
        } else {
            sub_paths(*old(v))
        }),
        len == 0 ==> r is Err && sub_paths(*final(v)) == sub_paths(*old(v)),
{
    v.truncate(len)
}

/// Calls `Vec1::as_vec`: the items as a `Vec`.
#[verifier::external_body]
fn vec1_as_vec(v: &Vec1<PathState>) -> (r: &Vec<PathState>)
    ensures
        r@ == sub_paths(*v),
{
    v.as_vec()
}

/// The number of sub-paths that the tessellator reserves room for at first.
pub const INIT_PATHS_SIZE: usize = 16;

/// The sub-paths of the tessellator and the number of points they share:
/// each sub-path owns the points from its start index on, the last one up to
/// the end of the point list.
pub struct PathList {
    pub paths: Vec1<PathState>,
    pub num_points: usize,
}

impl PathList {
    /// The sub-paths, in order.
    pub open spec fn view_paths(&self) -> Seq<PathState> {
        sub_paths(self.paths)
    }

    /// The list's invariant: the sub-paths' points lie one after the other
    /// within the point list, the last sub-path's ending where the list ends.
    pub open spec fn wf(&self) -> bool {
        let ps = self.view_paths();
        &&& ps.len() > 0
        &&& forall|i: int|
            0 <= i < ps.len() ==> (#[trigger] ps[i]).point_start_index + ps[i].num_points
                <= self.num_points
        &&& forall|i: int|
            #![trigger ps[i], ps[i + 1]]
            0 <= i < ps.len() - 1 ==> ps[i].point_start_index + ps[i].num_points
                == ps[i + 1].point_start_index
        &&& ps.last().point_start_index + ps.last().num_points == self.num_points
    }

    /// One empty sub-path and no points.
    pub fn new() -> (r: PathList)
        ensures
            r.wf(),
            r.view_paths() == seq![PathState::new_spec(0)],
            r.num_points == 0,
    {
        let paths = vec1_with_capacity(PathState::new(0), INIT_PATHS_SIZE);
        PathList { paths, num_points: 0 }
    }

    /// The sub-paths as a `Vec`, for the capacity computations.
    pub fn paths_vec(&self) -> (r: &Vec<PathState>)
        ensures
            r@ == self.view_paths(),
    {
        vec1_as_vec(&self.paths)
    }

    /// Starts over with one empty sub-path and no points.
    pub fn reset(&mut self)
        ensures
            final(self).wf(),
            final(self).view_paths() == seq![PathState::new_spec(0)],
            final(self).num_points == 0,
    {
        vec1_truncate(&mut self.paths, 1).unwrap();
        let first = vec1_first_mut(&mut self.paths);
        *first = PathState::new(0);
        self.num_points = 0;
        assert(self.view_paths() =~= seq![PathState::new_spec(0)]);
    }

    /// Begins a sub-path at the end of the point list.
    pub fn begin_path(&mut self)
        requires
            old(self).wf(),
        ensures
            final(self).wf(),
            final(self).view_paths() == old(self).view_paths().push(
                PathState::new_spec(old(self).num_points),
            ),
            final(self).num_points == old(self).num_points,
    {
        let n = self.num_points;
        vec1_push(&mut self.paths, PathState::new(n));
        proof {
            let ps = self.view_paths();
            let olds = old(self).view_paths();
            assert forall|i: int| 0 <= i < ps.len() implies (#[trigger] ps[i]).point_start_index
                + ps[i].num_points <= self.num_points by {
                if i < olds.len() {
                    assert(ps[i] == olds[i]);
                }
            }
            assert forall|i: int|
                #![trigger ps[i], ps[i + 1]]
                0 <= i < ps.len() - 1 implies ps[i].point_start_index + ps[i].num_points
                == ps[i + 1].point_start_index by {
                assert(ps[i] == olds[i]);
                if i + 1 < olds.len() {
                    assert(ps[i + 1] == olds[i + 1]);
                }
            }
        }
    }

    /// Adds a point to the last sub-path. When that sub-path has points and
    /// the new point is near the previous one, the two are merged (nothing
    /// is added, and `false` is returned); otherwise the point is appended.
    pub fn add_point(&mut self, near_prev: bool) -> (pushed: bool)
        requires
            old(self).wf(),
            old(self).num_points < usize::MAX,
        ensures
            final(self).wf(),
            pushed == !(old(self).view_paths().last().num_points > 0 && near_prev),
            !pushed ==> final(self).view_paths() == old(self).view_paths() && final(self).num_points
                == old(self).num_points,
            pushed ==> final(self).num_points == old(self).num_points + 1
                && final(self).view_paths() == old(self).view_paths().update(
                old(self).view_paths().len() - 1,
                PathState {
                    num_points: (old(self).view_paths().last().num_points + 1) as usize,
                    ..old(self).view_paths().last()
                },
            ),
    {
        if vec1_last(&self.paths).num_points > 0 && near_prev {
            return false;
        }
        let ghost olds = self.view_paths();
        self.num_points = self.num_points + 1;
        let last = vec1_last_mut(&mut self.paths);
        last.num_points = last.num_points + 1;
        proof {
            let ps = self.view_paths();
            assert forall|i: int|
                #![trigger ps[i], ps[i + 1]]
                0 <= i < ps.len() - 1 implies ps[i].point_start_index + ps[i].num_points
                == ps[i + 1].point_start_index by {
                assert(ps[i] == olds[i]);
                assert(olds[i + 1].point_start_index == ps[i + 1].point_start_index);
            }
            assert forall|i: int| 0 <= i < ps.len() implies (#[trigger] ps[i]).point_start_index
                + ps[i].num_points <= self.num_points by {
                if i < ps.len() - 1 {
                    assert(ps[i] == olds[i]);
                }
            }
        }
        true
    }

    /// Marks the last sub-path closed.
    pub fn close_path(&mut self)
        requires
            old(self).wf(),
        ensures
            final(self).wf(),
            final(self).num_points == old(self).num_points,
            final(self).view_paths() == old(self).view_paths().update(
                old(self).view_paths().len() - 1,
                PathState { closed: true, ..old(self).view_paths().last() },
            ),
    {
        let last = vec1_last_mut(&mut self.paths);
        last.closed = true;
        proof {
            lemma_same_points_wf(*old(self), *self);
        }
    }

    /// Sets the winding of the last sub-path.
    pub fn set_path_winding(&mut self, winding: Winding)
        requires
            old(self).wf(),
        ensures
            final(self).wf(),
            final(self).num_points == old(self).num_points,
            final(self).view_paths() == old(self).view_paths().update(
                old(self).view_paths().len() - 1,
                PathState { winding, ..old(self).view_paths().last() },
            ),
    {
        let last = vec1_last_mut(&mut self.paths);
        last.winding = winding;
        proof {
            lemma_same_points_wf(*old(self), *self);
        }
    }
}

/// Changing no sub-path's points keeps a well-formed list well formed.
proof fn lemma_same_points_wf(a: PathList, b: PathList)
    requires
        a.wf(),
        a.num_points == b.num_points,
        a.view_paths().len() == b.view_paths().len(),
        forall|i: int|
            0 <= i < a.view_paths().len() ==> (#[trigger] a.view_paths()[i]).point_start_index
                == b.view_paths()[i].point_start_index && a.view_paths()[i].num_points
                == b.view_paths()[i].num_points,
    ensures
        b.wf(),
{
    let pa = a.view_paths();
    let pb = b.view_paths();
    assert forall|i: int|
        #![trigger pb[i], pb[i + 1]]
        0 <= i < pb.len() - 1 implies pb[i].point_start_index + pb[i].num_points
        == pb[i + 1].point_start_index by {
        assert(pa[i].point_start_index == pb[i].point_start_index);
        assert(pa[i + 1].point_start_index == pb[i + 1].point_start_index);
    }
    assert forall|i: int| 0 <= i < pb.len() implies (#[trigger] pb[i]).point_start_index
        + pb[i].num_points <= b.num_points by {
        assert(pa[i].point_start_index == pb[i].point_start_index);
    }
    assert(pa[pa.len() - 1].point_start_index == pb[pb.len() - 1].point_start_index);
}

} // verus!
