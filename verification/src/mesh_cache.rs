//! The cache of tessellated meshes, kept across frames while they are drawn:
//! the meshes live in a `thunderdome::Arena`, the cached ones are found by
//! their key in an `ahash::AHashMap`, and freed vertex buffers are pooled.
use vstd::prelude::*;
use ahash::{AHashMap, RandomState};
use thunderdome::{Arena, Index};
use crate::context::VertRange;
use crate::mesh::{
    cached_mesh_action, keep_mesh_entry, reuse_vertex_buffer, CachedMeshAction, MeshCacheKey,
    INIT_VERTS_CAPACITY,
};
use crate::style::{LineCap, LineJoin};

verus! {

/// The index of a value in an arena: a slot and a generation.
#[verifier::external_type_specification]
#[verifier::external_body]
pub struct ExIndex(Index);

/// A generational arena.
#[verifier::external_type_specification]
#[verifier::external_body]
#[verifier::reject_recursive_types(T)]
pub struct ExArena<T>(Arena<T>);

/// A hash map hashed with aHash.
#[verifier::external_type_specification]
#[verifier::external_body]
#[verifier::reject_recursive_types(K)]
#[verifier::reject_recursive_types(V)]
#[verifier::reject_recursive_types(S)]
pub struct ExAHashMap<K, V, S>(AHashMap<K, V, S>);

/// The hasher state that an `AHashMap` is built with.
#[verifier::external_type_specification]
#[verifier::external_body]
pub struct ExRandomState(RandomState);

/// A vertex of a mesh: its position and texture coordinate, each the bits of
/// two 32-bit floats.
#[derive(Debug, Clone, Copy, PartialEq, Eq)]
pub struct Vertex {
    pub pos: [u32; 2],
    pub uv: [u32; 2],
}

/// A mesh in the cache: its stroke and fill vertices, the stroke width (the
/// bytes of a 32-bit float) and antialiasing it was made with, and the
/// vertex ranges its fill and stroke take in the current frame, once drawn.
pub struct MeshCacheEntry {
    pub stroke_verts: Vec<Vertex>,
    pub fill_verts: Vec<Vertex>,
    pub stroke_width_bytes: [u8; 4],
    pub antialiased: bool,
    pub fill_vert_range: Option<VertRange>,
    pub stroke_vert_range: Option<VertRange>,
}

/// The id of a mesh in the cache.
#[derive(Debug, Clone, Copy, PartialEq, Eq, Hash)]
pub struct MeshID(pub Index);

/// What a mesh cache key stands for: its command bytes, stroke width and
/// miter limit bytes, join, cap, fill and antialiasing.
pub type MeshKeyView = (Seq<u8>, Seq<u8>, Seq<u8>, LineJoin, LineCap, bool, bool);

/// The view of a mesh cache key: its fields, the byte arrays as sequences.
pub open spec fn key_view(k: MeshCacheKey) -> MeshKeyView {
    (
        k.command_buffer.data@,
        k.stroke_width_bytes@,
        k.miter_limit_bytes@,
        k.line_join,
        k.line_cap,
        k.fill,
        k.antialias,
    )
}

/// The bits of an arena index (`Index::to_bits`): its generation and its slot.
pub uninterp spec fn index_bits(i: Index) -> u64;

/// The meshes that an arena holds, by the bits of their indices.
pub uninterp spec fn arena_meshes(a: Arena<MeshCacheEntry>) -> Map<u64, MeshCacheEntry>;

/// The ids that a key map holds, by the view of their keys, as index bits.
pub uninterp spec fn key_ids(m: AHashMap<MeshCacheKey, Index>) -> Map<MeshKeyView, u64>;

/// The bits of a mesh id.
pub open spec fn id_bits(id: MeshID) -> u64 {
    index_bits(id.0)
}

/// Whether no other index has the bits of `i` (`Index::to_bits` keeps both
/// the slot and the generation).
pub open spec fn bits_determine(i: Index) -> bool {
    forall|j: Index| #[trigger] index_bits(j) == index_bits(i) ==> j == i
}

/// Whether no other mesh id has the bits of `id`.
pub open spec fn id_determined(id: MeshID) -> bool {
    bits_determine(id.0)
}

/// An id that the cache handed out is known by its bits: an id with the same
/// bits is that id. So looking up a key again gives back the very id that
/// was filed under it.
pub proof fn lemma_same_bits_same_id(a: MeshID, b: MeshID)
    requires
        id_determined(a),
        id_bits(b) == id_bits(a),
    ensures
        b == a,
{
}

/// Calls `Arena::with_capacity`: an empty arena (a small capacity, so that
/// the allocation cannot exceed its limit).
#[verifier::external_body]
fn arena_with_capacity(capacity: usize) -> (r: Arena<MeshCacheEntry>)
    requires
        capacity <= INIT_POOL_CAPACITY,
    ensures
        arena_meshes(r).dom() == Set::<u64>::empty(),
{
    Arena::with_capacity(capacity)
}

/// Calls `Arena::len`: the number of meshes held, of which there are finitely
/// many.
#[verifier::external_body]
fn arena_len(a: &Arena<MeshCacheEntry>) -> (r: usize)
    ensures
        r == arena_meshes(*a).dom().len(),
{
    a.len()
}

/// Calls `Arena::insert`: the mesh gets an index that was not in use (it
/// panics with `u32::MAX` meshes held).
#[verifier::external_body]
fn arena_insert(a: &mut Arena<MeshCacheEntry>, value: MeshCacheEntry) -> (r: Index)
    requires
        arena_meshes(*old(a)).dom().len() < u32::MAX,
    ensures
        !arena_meshes(*old(a)).dom().contains(index_bits(r)),
        arena_meshes(*final(a)) == arena_meshes(*old(a)).insert(index_bits(r), value),
        bits_determine(r),
{
    a.insert(value)
}

/// Calls `Arena::remove`: the mesh of the index, taken out, if it is held.
#[verifier::external_body]
fn arena_remove(a: &mut Arena<MeshCacheEntry>, i: Index) -> (r: Option<MeshCacheEntry>)
    ensures
        arena_meshes(*old(a)).dom().contains(index_bits(i)) ==> r == Some(
            arena_meshes(*old(a))[index_bits(i)],
        ) && arena_meshes(*final(a)) == arena_meshes(*old(a)).remove(index_bits(i)),
        !arena_meshes(*old(a)).dom().contains(index_bits(i)) ==> r is None && arena_meshes(*final(a)) == arena_meshes(*old(a)),
{
    a.remove(i)
}

/// Calls `Arena::contains`: whether the index is in use.
#[verifier::external_body]
fn arena_contains(a: &Arena<MeshCacheEntry>, i: Index) -> (r: bool)
    ensures
        r == arena_meshes(*a).dom().contains(index_bits(i)),
{
    a.contains(i)
}

/// Calls `Arena::get`: the mesh of the index, if it is held.
#[verifier::external_body]
fn arena_get(a: &Arena<MeshCacheEntry>, i: Index) -> (r: Option<&MeshCacheEntry>)
    ensures
        match r {
            Some(e) => arena_meshes(*a).dom().contains(index_bits(i)) && *e == arena_meshes(*a)[index_bits(i)],
            None => !arena_meshes(*a).dom().contains(index_bits(i)),
        },
{
    a.get(i)
}

/// Calls `Arena::get_mut` on an index in use: its mesh, to be changed in
/// place.
#[verifier::external_body]
fn arena_get_mut(a: &mut Arena<MeshCacheEntry>, i: Index) -> (r: &mut MeshCacheEntry)
    requires
        arena_meshes(*old(a)).dom().contains(index_bits(i)),
    ensures
        *r == arena_meshes(*old(a))[index_bits(i)],
        arena_meshes(*final(a)) == arena_meshes(*old(a)).insert(index_bits(i), *final(r)),
{
    a.get_mut(i).unwrap()
}

/// Calls `Arena::iter`, keeping the indices: every index in use, once each.
#[verifier::external_body]
fn arena_indices(a: &Arena<MeshCacheEntry>) -> (r: Vec<Index>)
    ensures
        r@.map_values(|i: Index| index_bits(i)).no_duplicates(),
        forall|b: u64|
            arena_meshes(*a).dom().contains(b) <==> r@.map_values(|i: Index| index_bits(i)).contains(b),
{
    a.iter().map(|(i, _)| i).collect()
}

/// Calls `AHashMap::with_capacity`: an empty map (a small capacity, so that
/// the allocation cannot exceed its limit).
#[verifier::external_body]
fn keys_with_capacity(capacity: usize) -> (r: AHashMap<MeshCacheKey, Index>)
    requires
        capacity <= INIT_POOL_CAPACITY,
    ensures
        key_ids(r).dom() == Set::<MeshKeyView>::empty(),
{
    AHashMap::with_capacity(capacity)
}

/// Calls `AHashMap::get`: the id of a key equal to `key` (keys compare and
/// hash field by field), if there is one.
#[verifier::external_body]
fn keys_get(m: &AHashMap<MeshCacheKey, Index>, key: &MeshCacheKey) -> (r: Option<Index>)
    ensures
        match r {
            Some(i) => key_ids(*m).dom().contains(key_view(*key)) && index_bits(i) == key_ids(*m)[key_view(*key)]
                && bits_determine(i),
            None => !key_ids(*m).dom().contains(key_view(*key)),
        },
{
    m.get(key).copied()
}

/// Calls `AHashMap::insert`: the key now has the id.
#[verifier::external_body]
fn keys_insert(m: &mut AHashMap<MeshCacheKey, Index>, key: MeshCacheKey, id: Index)
    ensures
        key_ids(*final(m)) == key_ids(*old(m)).insert(key_view(key), index_bits(id)),
{
    m.insert(key, id);
}

/// Calls `AHashMap::drain`, keeping the ids: the map is emptied, and every id
/// it held is returned.
#[verifier::external_body]
fn keys_drain_ids(m: &mut AHashMap<MeshCacheKey, Index>) -> (r: Vec<Index>)
    ensures
        key_ids(*final(m)).dom() == Set::<MeshKeyView>::empty(),
        forall|b: u64|
            key_ids(*old(m)).values().contains(b) <==> r@.map_values(|i: Index| index_bits(i)).contains(b),
{
    m.drain().map(|(_, id)| id).collect()
}

/// Whether the arena holds the index.
fn is_live(a: &Arena<MeshCacheEntry>, i: &Index) -> (r: bool)
    ensures
        r == arena_meshes(*a).dom().contains(index_bits(*i)),
{
    arena_contains(a, *i)
}

/// Calls `AHashMap::retain`: keeps the keys whose ids the arena holds.
#[verifier::external_body]
fn keys_retain_live(m: &mut AHashMap<MeshCacheKey, Index>, a: &Arena<MeshCacheEntry>)
    ensures
        key_ids(*final(m)) == key_ids(*old(m)).restrict(
            key_ids(*old(m)).dom().filter(
                |k: MeshKeyView| arena_meshes(*a).dom().contains(key_ids(*old(m))[k]),
            ),
        ),
{
    m.retain(|_, id| is_live(a, id))
}

/// The number of meshes, vertex buffers and keys that a cache makes room for
/// at first.
pub const INIT_POOL_CAPACITY: usize = 128;

/// The cache: the meshes, the ids of the cached ones by key, the pool of
/// freed vertex buffers, and whether this frame rebuilds every mesh.
pub struct MeshCache {
    pub builder_to_id_map: AHashMap<MeshCacheKey, Index>,
    pub meshes: Arena<MeshCacheEntry>,
    pub vert_pool: Vec<Vec<Vertex>>,
    pub force_rebuild: bool,
}

/// Whether `b` stands among the first `j` items of `bits`.
pub open spec fn listed_before(bits: Seq<u64>, j: int, b: u64) -> bool {
    exists|q: int| 0 <= q < j && bits[q] == b
}

/// The mesh with its frame's vertex ranges cleared.
pub open spec fn without_ranges(e: MeshCacheEntry) -> MeshCacheEntry {
    MeshCacheEntry { fill_vert_range: None, stroke_vert_range: None, ..e }
}

/// What pooling a freed vertex buffer adds to the pool: the buffer, emptied
/// when `clear`, if it was used and is not particularly long; else nothing.
pub open spec fn pooled(verts: Seq<Vertex>, clear: bool) -> Seq<Seq<Vertex>> {
    if 0 < verts.len() <= INIT_VERTS_CAPACITY {
        seq![if clear { Seq::<Vertex>::empty() } else { verts }]
    } else {
        Seq::<Seq<Vertex>>::empty()
    }
}

/// The buffers that dropping the meshes of `order`, in that order, adds to
/// the pool: each mesh's fill buffer, then its stroke buffer.
pub open spec fn freed_buffers(m: Map<u64, MeshCacheEntry>, order: Seq<u64>, clear: bool) -> Seq<
    Seq<Vertex>,
>
    decreases order.len(),
{
    if order.len() == 0 {
        Seq::<Seq<Vertex>>::empty()
    } else {
        freed_buffers(m, order.drop_last(), clear) + pooled(m[order.last()].fill_verts@, clear)
            + pooled(m[order.last()].stroke_verts@, clear)
    }
}

/// Whether a mesh is kept at the end of the frame: the frame drew it.
pub open spec fn drawn(e: MeshCacheEntry) -> bool {
    e.fill_vert_range is Some || e.stroke_vert_range is Some
}

impl MeshCache {
    /// The meshes by the bits of their ids.
    pub open spec fn meshes_view(&self) -> Map<u64, MeshCacheEntry> {
        arena_meshes(self.meshes)
    }

    /// The pooled vertex buffers, as their contents.
    pub open spec fn pool_view(&self) -> Seq<Seq<Vertex>> {
        self.vert_pool@.map_values(|v: Vec<Vertex>| v@)
    }

    /// The ids of the cached meshes by key.
    pub open spec fn keys_view(&self) -> Map<MeshKeyView, u64> {
        key_ids(self.builder_to_id_map)
    }

    /// The cache's invariant: every key leads to a mesh that is held.
    pub open spec fn wf(&self) -> bool {
        forall|k: MeshKeyView|
            #[trigger] self.keys_view().dom().contains(k) ==> self.meshes_view().dom().contains(
                self.keys_view()[k],
            )
    }

    /// An empty cache.
    pub fn new() -> (r: MeshCache)
        ensures
            r.wf(),
            r.meshes_view() == Map::<u64, MeshCacheEntry>::empty(),
            r.keys_view() == Map::<MeshKeyView, u64>::empty(),
            r.vert_pool@.len() == 0,
            !r.force_rebuild,
    {
        MeshCache {
            builder_to_id_map: keys_with_capacity(INIT_POOL_CAPACITY),
            meshes: arena_with_capacity(INIT_POOL_CAPACITY),
            vert_pool: Vec::new(),
            force_rebuild: false,
        }
    }

    /// The number of meshes held.
    pub fn len(&self) -> (r: usize)
        ensures
            r == self.meshes_view().dom().len(),
    {
        arena_len(&self.meshes)
    }

    /// Whether the id is that of a mesh held: an id that is not must have its
    /// mesh rebuilt.
    pub fn contains(&self, id: MeshID) -> (r: bool)
        ensures
            r == self.meshes_view().dom().contains(id_bits(id)),
    {
        arena_contains(&self.meshes, id.0)
    }

    /// The mesh of the id, if it is held.
    pub fn get(&self, id: MeshID) -> (r: Option<&MeshCacheEntry>)
        ensures
            match r {
                Some(e) => self.meshes_view().dom().contains(id_bits(id)) && *e
                    == self.meshes_view()[id_bits(id)],
                None => !self.meshes_view().dom().contains(id_bits(id)),
            },
    {
        arena_get(&self.meshes, id.0)
    }

    /// The mesh of an id that is held, to be changed in place.
    pub fn get_mut(&mut self, id: MeshID) -> (r: &mut MeshCacheEntry)
        requires
            old(self).meshes_view().dom().contains(id_bits(id)),
        ensures
            *r == old(self).meshes_view()[id_bits(id)],
            final(self).meshes_view() == old(self).meshes_view().insert(id_bits(id), *final(r)),
            final(self).keys_view() == old(self).keys_view(),
            final(self).vert_pool == old(self).vert_pool,
            final(self).force_rebuild == old(self).force_rebuild,
    {
        arena_get_mut(&mut self.meshes, id.0)
    }

    /// Keeps a freed vertex buffer for reuse when it was used and is not
    /// particularly long, emptied when `clear`.
    fn pool(&mut self, verts: Vec<Vertex>, clear: bool)
        ensures
            final(self).meshes == old(self).meshes,
            final(self).builder_to_id_map == old(self).builder_to_id_map,
            final(self).force_rebuild == old(self).force_rebuild,
            final(self).pool_view() == old(self).pool_view() + pooled(verts@, clear),
    {
        let ghost p0 = self.pool_view();
        if reuse_vertex_buffer(verts.len()) {
            let mut verts = verts;
            if clear {
                verts.clear();
            }
            let ghost v = verts@;
            self.vert_pool.push(verts);
            assert(self.pool_view() =~= p0 + seq![v]);
        } else {
            assert(p0 + pooled(verts@, clear) =~= p0);
        }
    }

    /// A vertex buffer to fill: a pooled one, else a new one.
    pub fn take_buffer(&mut self) -> (r: Vec<Vertex>)
        ensures
            final(self).meshes == old(self).meshes,
            final(self).builder_to_id_map == old(self).builder_to_id_map,
            final(self).force_rebuild == old(self).force_rebuild,
            old(self).vert_pool@.len() > 0 ==> r == old(self).vert_pool@.last() && final(self).vert_pool@ == old(self).vert_pool@.drop_last(),
            old(self).vert_pool@.len() == 0 ==> r@.len() == 0 && final(self).vert_pool@.len()
                == 0,
    {
        match self.vert_pool.pop() {
            Some(v) => v,
            None => Vec::with_capacity(INIT_VERTS_CAPACITY),
        }
    }

    /// Begins a frame. A forced rebuild drops every cached mesh and empties
    /// the key map; the dropped meshes' vertex buffers that were used and are
    /// not particularly long go to the pool as they are (not emptied), fill
    /// then stroke, mesh by mesh in some order. Then no mesh has a vertex
    /// range in the new frame.
    pub fn begin_frame(&mut self, force_rebuild: bool)
        requires
            old(self).wf(),
        ensures
            final(self).wf(),
            final(self).force_rebuild == force_rebuild,
            force_rebuild ==> final(self).keys_view() == Map::<MeshKeyView, u64>::empty(),
            !force_rebuild ==> final(self).keys_view() == old(self).keys_view(),
            forall|b: u64|
                #[trigger] final(self).meshes_view().dom().contains(b) <==> old(self).meshes_view().dom().contains(b) && !(force_rebuild && old(self).keys_view().values().contains(b)),
            forall|b: u64|
                #[trigger] final(self).meshes_view().dom().contains(b) ==> final(self).meshes_view()[b] == without_ranges(old(self).meshes_view()[b]),
            exists|order: Seq<u64>|
                #![trigger freed_buffers(old(self).meshes_view(), order, false)]
                order.no_duplicates() && (forall|b: u64|
                    #[trigger] order.contains(b) <==> force_rebuild && old(self).meshes_view().dom().contains(b)
                        && old(self).keys_view().values().contains(b)) && final(self).pool_view()
                    == old(self).pool_view() + freed_buffers(old(self).meshes_view(), order, false),
    {
        self.force_rebuild = force_rebuild;
        let ghost m0 = self.meshes_view();
        let ghost k0 = self.keys_view();
        let ghost p0 = self.pool_view();
        let ghost mut order: Seq<u64> = Seq::empty();
        if force_rebuild {
            let ids = keys_drain_ids(&mut self.builder_to_id_map);
            proof {
                assert(self.keys_view() =~= Map::<MeshKeyView, u64>::empty());
            }
            let ghost bits = ids@.map_values(|i: Index| index_bits(i));
            let mut j: usize = 0;
            while j < ids.len()
                invariant
                    j <= ids@.len(),
                    bits == ids@.map_values(|i: Index| index_bits(i)),
                    self.keys_view() == Map::<MeshKeyView, u64>::empty(),
                    self.force_rebuild == force_rebuild,
                    forall|b: u64|
                        #[trigger] self.meshes_view().dom().contains(b) <==> m0.dom().contains(b)
                            && !listed_before(bits, j as int, b),
                    forall|b: u64|
                        #[trigger] self.meshes_view().dom().contains(b) ==> self.meshes_view()[b]
                            == m0[b],
                    order.no_duplicates(),
                    forall|b: u64|
                        #[trigger] order.contains(b) <==> m0.dom().contains(b) && listed_before(
                            bits,
                            j as int,
                            b,
                        ),
                    self.pool_view() == p0 + freed_buffers(m0, order, false),
                decreases ids@.len() - j,
            {
                let id = ids[j];
                let ghost before = self.meshes_view();
                let ghost order0 = order;
                let removed = arena_remove(&mut self.meshes, id);
                let ghost after = self.meshes_view();
                match removed {
                    Some(entry) => {
                        let ghost e0 = entry;
                        self.pool(entry.fill_verts, false);
                        self.pool(entry.stroke_verts, false);
                        proof {
                            let b = index_bits(id);
                            assert(before.dom().contains(b));
                            assert(e0 == m0[b]);
                            assert(!order0.contains(b));
                            order = order0.push(b);
                            assert(order.drop_last() =~= order0);
                            assert(order.last() == b);
                            assert(self.pool_view() == p0 + freed_buffers(m0, order, false));
                        }
                    },
                    None => {},
                }
                proof {
                    assert(bits[j as int] == index_bits(id));
                    assert(self.meshes_view() == after);
                    assert forall|b: u64| #[trigger] after.dom().contains(b) <==> before.dom().contains(b)
                        && b != index_bits(id) by {}
                    assert forall|b: u64| #[trigger] after.dom().contains(b) implies after[b] == before[b] by {}
                    assert forall|b: u64|
                        #[trigger] listed_before(bits, j + 1, b) <==> (listed_before(bits, j as int, b)
                            || b == index_bits(id)) by {
                        if b == index_bits(id) {
                            assert(bits[j as int] == b);
                        }
                        if exists|q: int| 0 <= q < j + 1 && bits[q] == b {
                            let q = choose|q: int| 0 <= q < j + 1 && bits[q] == b;
                            if q < j {
                                assert(0 <= q < j && bits[q] == b);
                            }
                        }
                    }
                    assert forall|b: u64| #[trigger] order.contains(b) <==> m0.dom().contains(b)
                        && listed_before(bits, j + 1, b) by {
                        assert(order0.contains(b) <==> m0.dom().contains(b) && listed_before(bits, j as int, b));
                        if order != order0 {
                            assert(order == order0.push(index_bits(id)));
                            if b == index_bits(id) {
                                assert(order[order0.len() as int] == b);
                            }
                            if order.contains(b) && b != index_bits(id) {
                                let q = choose|q: int| 0 <= q < order.len() && order[q] == b;
                                assert(order0[q] == b);
                            }
                            if order0.contains(b) {
                                let q = choose|q: int| 0 <= q < order0.len() && order0[q] == b;
                                assert(order[q] == b);
                            }
                        }
                    }
                }
                j = j + 1;
            }
            proof {
                assert forall|b: u64| #[trigger] order.contains(b) <==> m0.dom().contains(b)
                    && k0.values().contains(b) by {
                    assert(listed_before(bits, ids@.len() as int, b) <==> bits.contains(b));
                }
            }
        } else {
            proof {
                assert(p0 + freed_buffers(m0, order, false) =~= p0);
            }
        }
        let ghost m1 = self.meshes_view();
        let ghost vp1 = self.vert_pool;
        let ids = arena_indices(&self.meshes);
        let ghost bits = ids@.map_values(|i: Index| index_bits(i));
        let mut j: usize = 0;
        while j < ids.len()
            invariant
                j <= ids@.len(),
                bits == ids@.map_values(|i: Index| index_bits(i)),
                bits.no_duplicates(),
                forall|b: u64| m1.dom().contains(b) <==> bits.contains(b),
                self.meshes_view().dom() == m1.dom(),
                self.vert_pool == vp1,
                self.keys_view() == (if force_rebuild {
                    Map::<MeshKeyView, u64>::empty()
                } else {
                    k0
                }),
                self.force_rebuild == force_rebuild,
                forall|q: int| 0 <= q < j ==> #[trigger] self.meshes_view()[bits[q]] == without_ranges(m1[bits[q]]),
                forall|q: int| j <= q < bits.len() ==> #[trigger] self.meshes_view()[bits[q]] == m1[bits[q]],
            decreases ids@.len() - j,
        {
            let id = ids[j];
            proof {
                assert(bits[j as int] == index_bits(id));
                assert(bits.contains(index_bits(id)));
            }
            let e = arena_get_mut(&mut self.meshes, id);
            e.fill_vert_range = None;
            e.stroke_vert_range = None;
            proof {
                assert forall|q: int| 0 <= q < bits.len() && q != j implies bits[q] != bits[j as int] by {}
                assert(self.meshes_view().dom() =~= m1.dom());
            }
            j = j + 1;
        }
        proof {
            assert forall|b: u64| #[trigger] self.meshes_view().dom().contains(b) implies self.meshes_view()[b]
                == without_ranges(old(self).meshes_view()[b]) by {
                assert(bits.contains(b));
                let q = choose|q: int| 0 <= q < bits.len() && bits[q] == b;
                assert(self.meshes_view()[bits[q]] == without_ranges(m1[bits[q]]));
            }
            assert forall|b: u64| #[trigger] self.meshes_view().dom().contains(b) <==> old(self).meshes_view().dom().contains(b)
                && !(force_rebuild && old(self).keys_view().values().contains(b)) by {}
            assert forall|k: MeshKeyView| #[trigger] self.keys_view().dom().contains(k) implies self.meshes_view().dom().contains(
                self.keys_view()[k]) by {
                if force_rebuild {
                    assert(!Map::<MeshKeyView, u64>::empty().dom().contains(k));
                } else {
                    assert(k0 == old(self).keys_view());
                    assert(old(self).keys_view().dom().contains(k));
                    assert(m1 == m0);
                    assert(m0.dom().contains(k0[k]));
                }
            }
            assert(self.pool_view() == p0 + freed_buffers(m0, order, false));
            assert(order.no_duplicates());
            assert forall|b: u64| #[trigger] order.contains(b) <==> force_rebuild && m0.dom().contains(b)
                && k0.values().contains(b) by {}
            assert(k0 == old(self).keys_view());
        }
    }

    /// Ends a frame: the meshes that it did not draw are dropped, and so are
    /// the keys that led to them; every key left leads to a mesh that is held.
    /// The dropped meshes' vertex buffers that were used and are not
    /// particularly long go to the pool emptied, fill then stroke, mesh by
    /// mesh in some order.
    pub fn end_frame(&mut self)
        requires
            old(self).wf(),
        ensures
            final(self).wf(),
            final(self).force_rebuild == old(self).force_rebuild,
            forall|b: u64|
                #[trigger] final(self).meshes_view().dom().contains(b) <==> old(self).meshes_view().dom().contains(b) && drawn(old(self).meshes_view()[b]),
            forall|b: u64|
                #[trigger] final(self).meshes_view().dom().contains(b) ==> final(self).meshes_view()[b] == old(self).meshes_view()[b],
            forall|k: MeshKeyView|
                #[trigger] final(self).keys_view().dom().contains(k) <==> old(self).keys_view().dom().contains(k) && final(self).meshes_view().dom().contains(
                    old(self).keys_view()[k],
                ),
            forall|k: MeshKeyView|
                #[trigger] final(self).keys_view().dom().contains(k) ==> final(self).keys_view()[k]
                    == old(self).keys_view()[k],
            exists|order: Seq<u64>|
                #![trigger freed_buffers(old(self).meshes_view(), order, true)]
                order.no_duplicates() && (forall|b: u64|
                    #[trigger] order.contains(b) <==> old(self).meshes_view().dom().contains(b)
                        && !drawn(old(self).meshes_view()[b])) && final(self).pool_view() == old(
                    self,
                ).pool_view() + freed_buffers(old(self).meshes_view(), order, true),
    {
        let ghost m0 = self.meshes_view();
        let ghost p0 = self.pool_view();
        let ghost mut order: Seq<u64> = Seq::empty();
        let ids = arena_indices(&self.meshes);
        let ghost bits = ids@.map_values(|i: Index| index_bits(i));
        let mut j: usize = 0;
        while j < ids.len()
            invariant
                j <= ids@.len(),
                bits == ids@.map_values(|i: Index| index_bits(i)),
                bits.no_duplicates(),
                forall|b: u64| m0.dom().contains(b) <==> bits.contains(b),
                self.builder_to_id_map == old(self).builder_to_id_map,
                self.force_rebuild == old(self).force_rebuild,
                forall|b: u64|
                    #[trigger] self.meshes_view().dom().contains(b) ==> m0.dom().contains(b)
                        && self.meshes_view()[b] == m0[b],
                forall|q: int|
                    0 <= q < bits.len() ==> (self.meshes_view().dom().contains(#[trigger] bits[q])
                        <==> (q >= j || drawn(m0[bits[q]]))),
                order.no_duplicates(),
                forall|b: u64|
                    #[trigger] order.contains(b) <==> listed_before(bits, j as int, b) && !drawn(
                        m0[b],
                    ),
                self.pool_view() == p0 + freed_buffers(m0, order, true),
            decreases ids@.len() - j,
        {
            let id = ids[j];
            let ghost order0 = order;
            let ghost b = index_bits(id);
            proof {
                assert(bits[j as int] == index_bits(id));
                assert forall|q: int| 0 <= q < bits.len() && q != j implies bits[q] != bits[j as int] by {}
                assert(self.meshes_view().dom().contains(bits[j as int]));
                assert(!listed_before(bits, j as int, b));
            }
            let keep = match arena_get(&self.meshes, id) {
                Some(e) => keep_mesh_entry(e.fill_vert_range.is_some(), e.stroke_vert_range.is_some()),
                None => true,
            };
            if !keep {
                let removed = arena_remove(&mut self.meshes, id);
                match removed {
                    Some(entry) => {
                        let ghost e0 = entry;
                        self.pool(entry.fill_verts, true);
                        self.pool(entry.stroke_verts, true);
                        proof {
                            assert(e0 == m0[b]);
                            assert(!order0.contains(b));
                            order = order0.push(b);
                            assert(order.drop_last() =~= order0);
                            assert(self.pool_view() == p0 + freed_buffers(m0, order, true));
                        }
                    },
                    None => {},
                }
            }
            proof {
                assert(keep == drawn(m0[b]));
                assert forall|c: u64| #[trigger] listed_before(bits, j + 1, c) <==> (listed_before(bits, j as int, c)
                    || c == b) by {
                    if c == b {
                        assert(bits[j as int] == c);
                    }
                    if exists|q: int| 0 <= q < j + 1 && bits[q] == c {
                        let q = choose|q: int| 0 <= q < j + 1 && bits[q] == c;
                        if q < j {
                            assert(0 <= q < j && bits[q] == c);
                        }
                    }
                }
                assert forall|c: u64| #[trigger] order.contains(c) <==> listed_before(bits, j + 1, c)
                    && !drawn(m0[c]) by {
                    if order != order0 {
                        if c == b {
                            assert(order[order0.len() as int] == c);
                        }
                        if order.contains(c) && c != b {
                            let q = choose|q: int| 0 <= q < order.len() && order[q] == c;
                            assert(order0[q] == c);
                        }
                        if order0.contains(c) {
                            let q = choose|q: int| 0 <= q < order0.len() && order0[q] == c;
                            assert(order[q] == c);
                        }
                    }
                }
            }
            j = j + 1;
        }
        proof {
            assert forall|c: u64| #[trigger] order.contains(c) <==> m0.dom().contains(c) && !drawn(m0[c]) by {
                assert(listed_before(bits, ids@.len() as int, c) <==> bits.contains(c));
            }
            assert forall|b: u64| #[trigger] self.meshes_view().dom().contains(b) <==> m0.dom().contains(b)
                && drawn(m0[b]) by {
                if m0.dom().contains(b) {
                    let q = choose|q: int| 0 <= q < bits.len() && bits[q] == b;
                    assert(self.meshes_view().dom().contains(bits[q]) <==> drawn(m0[bits[q]]));
                }
            }
        }
        let ghost m2 = self.meshes_view();
        keys_retain_live(&mut self.builder_to_id_map, &self.meshes);
        proof {
            assert(self.meshes_view() == m2);
            assert(m0 == old(self).meshes_view());
            assert forall|b: u64| #[trigger] self.meshes_view().dom().contains(b) implies self.meshes_view()[b]
                == old(self).meshes_view()[b] by {}
            assert(self.pool_view() == p0 + freed_buffers(m0, order, true));
            assert(p0 == old(self).pool_view());
        }
    }

    /// The id of the cached mesh of `key`, when it is held and no rebuild is
    /// forced; otherwise the mesh must be tessellated and inserted with
    /// `insert_cached`.
    pub fn cached_id(&self, key: &MeshCacheKey) -> (r: Option<MeshID>)
        requires
            self.wf(),
        ensures
            match r {
                Some(id) => !self.force_rebuild && self.keys_view().dom().contains(key_view(*key))
                    && id_bits(id) == self.keys_view()[key_view(*key)]
                    && self.meshes_view().dom().contains(id_bits(id)) && id_determined(id),
                None => self.force_rebuild || !self.keys_view().dom().contains(key_view(*key)),
            },
    {
        let existing = keys_get(&self.builder_to_id_map, key);
        match cached_mesh_action(existing, self.force_rebuild) {
            CachedMeshAction::Reuse(i) => {
                proof {
                    assert(self.keys_view().dom().contains(key_view(*key)));
                    assert(id_bits(MeshID(i)) == index_bits(i));
                }
                Some(MeshID(i))
            },
            _ => None,
        }
    }

    /// Inserts the tessellated mesh of `key`, made with the key's stroke
    /// width and antialiasing and with no vertex ranges yet, and files it
    /// under the key.
    pub fn insert_cached(&mut self, key: MeshCacheKey, stroke_verts: Vec<Vertex>, fill_verts: Vec<
        Vertex,
    >) -> (r: MeshID)
        requires
            old(self).wf(),
            old(self).meshes_view().dom().len() < u32::MAX,
        ensures
            final(self).wf(),
            !old(self).meshes_view().dom().contains(id_bits(r)),
            id_determined(r),
            final(self).meshes_view() == old(self).meshes_view().insert(
                id_bits(r),
                MeshCacheEntry {
                    stroke_verts,
                    fill_verts,
                    stroke_width_bytes: key.stroke_width_bytes,
                    antialiased: key.antialias,
                    fill_vert_range: None,
                    stroke_vert_range: None,
                },
            ),
            final(self).keys_view() == old(self).keys_view().insert(key_view(key), id_bits(r)),
            final(self).vert_pool == old(self).vert_pool,
            final(self).force_rebuild == old(self).force_rebuild,
    {
        let stroke_width_bytes = key.stroke_width_bytes;
        let antialiased = key.antialias;
        let id = arena_insert(
            &mut self.meshes,
            MeshCacheEntry {
                stroke_verts,
                fill_verts,
                stroke_width_bytes,
                antialiased,
                fill_vert_range: None,
                stroke_vert_range: None,
            },
        );
        keys_insert(&mut self.builder_to_id_map, key, id);
        proof {
            assert forall|k: MeshKeyView| #[trigger] self.keys_view().dom().contains(k) implies self.meshes_view().dom().contains(
                self.keys_view()[k]) by {
                if k != key_view(key) {
                    assert(old(self).keys_view().dom().contains(k));
                }
            }
        }
        MeshID(id)
    }

    /// Inserts a mesh made elsewhere, with no vertex ranges yet; it is not
    /// filed under any key.
    pub fn insert_raw_mesh(
        &mut self,
        fill_verts: Vec<Vertex>,
        stroke_verts: Vec<Vertex>,
        stroke_width_bytes: [u8; 4],
        antialiased: bool,
    ) -> (r: MeshID)
        requires
            old(self).wf(),
            old(self).meshes_view().dom().len() < u32::MAX,
        ensures
            final(self).wf(),
            !old(self).meshes_view().dom().contains(id_bits(r)),
            id_determined(r),
            final(self).meshes_view() == old(self).meshes_view().insert(
                id_bits(r),
                MeshCacheEntry {
                    stroke_verts,
                    fill_verts,
                    stroke_width_bytes,
                    antialiased,
                    fill_vert_range: None,
                    stroke_vert_range: None,
                },
            ),
            final(self).keys_view() == old(self).keys_view(),
            final(self).vert_pool == old(self).vert_pool,
            final(self).force_rebuild == old(self).force_rebuild,
    {
        let id = arena_insert(
            &mut self.meshes,
            MeshCacheEntry {
                stroke_verts,
                fill_verts,
                stroke_width_bytes,
                antialiased,
                fill_vert_range: None,
                stroke_vert_range: None,
            },
        );
        proof {
            assert forall|k: MeshKeyView| #[trigger] self.keys_view().dom().contains(k) implies self.meshes_view().dom().contains(
                self.keys_view()[k]) by {
                assert(old(self).keys_view().dom().contains(k));
            }
        }
        MeshID(id)
    }

    /// Readies the mesh of a raw id for new vertices: a mesh that is held
    /// keeps its id and vertices (they are not cleared) and loses its vertex
    /// ranges; for an id that is not held (a dangling one) a new mesh is
    /// inserted, with a pooled fill buffer and an empty stroke buffer, and the
    /// id is set to it.
    pub fn raw_mesh_mut(&mut self, id: &mut MeshID)
        requires
            old(self).wf(),
            old(self).meshes_view().dom().len() < u32::MAX,
        ensures
            final(self).wf(),
            final(self).keys_view() == old(self).keys_view(),
            final(self).force_rebuild == old(self).force_rebuild,
            final(self).meshes_view().dom().contains(id_bits(*final(id))),
            final(self).meshes_view()[id_bits(*final(id))].fill_vert_range is None,
            final(self).meshes_view()[id_bits(*final(id))].stroke_vert_range is None,
            old(self).meshes_view().dom().contains(id_bits(*old(id))) ==> *final(id) == *old(id)
                && final(self).meshes_view() == old(self).meshes_view().insert(
                id_bits(*old(id)),
                without_ranges(old(self).meshes_view()[id_bits(*old(id))]),
            ),
            !old(self).meshes_view().dom().contains(id_bits(*old(id))) ==> id_determined(*final(id)) && !old(self).meshes_view().dom().contains(id_bits(*final(id))) && final(self).meshes_view().remove(
                id_bits(*final(id)),
            ) == old(self).meshes_view() && final(self).meshes_view()[id_bits(*final(id))].stroke_verts@.len() == 0,
    {
        if arena_contains(&self.meshes, id.0) {
            let e = arena_get_mut(&mut self.meshes, id.0);
            e.fill_vert_range = None;
            e.stroke_vert_range = None;
            proof {
                assert forall|k: MeshKeyView| #[trigger] self.keys_view().dom().contains(k) implies self.meshes_view().dom().contains(
                    self.keys_view()[k]) by {
                    assert(old(self).keys_view().dom().contains(k));
                }
            }
        } else {
            let fill_verts = self.take_buffer();
            let ghost m0 = self.meshes_view();
            let new_id = arena_insert(
                &mut self.meshes,
                MeshCacheEntry {
                    stroke_verts: Vec::new(),
                    fill_verts,
                    stroke_width_bytes: [0u8; 4],
                    antialiased: false,
                    fill_vert_range: None,
                    stroke_vert_range: None,
                },
            );
            *id = MeshID(new_id);
            proof {
                assert(self.meshes_view().remove(index_bits(new_id)) =~= m0);
                assert forall|k: MeshKeyView| #[trigger] self.keys_view().dom().contains(k) implies self.meshes_view().dom().contains(
                    self.keys_view()[k]) by {
                    assert(old(self).keys_view().dom().contains(k));
                }
            }
        }
    }

    /// Sets what the vertices of a held mesh were made with, for a raw or an
    /// uncached mesh about to be tessellated again in place.
    pub fn set_mesh_opts(&mut self, id: MeshID, stroke_width_bytes: [u8; 4], antialiased: bool)
        requires
            old(self).wf(),
            old(self).meshes_view().dom().contains(id_bits(id)),
        ensures
            final(self).wf(),
            final(self).keys_view() == old(self).keys_view(),
            final(self).vert_pool == old(self).vert_pool,
            final(self).force_rebuild == old(self).force_rebuild,
            final(self).meshes_view() == old(self).meshes_view().insert(
                id_bits(id),
                MeshCacheEntry {
                    stroke_width_bytes,
                    antialiased,
                    ..old(self).meshes_view()[id_bits(id)]
                },
            ),
    {
        let e = arena_get_mut(&mut self.meshes, id.0);
        e.stroke_width_bytes = stroke_width_bytes;
        e.antialiased = antialiased;
        proof {
            assert forall|k: MeshKeyView| #[trigger] self.keys_view().dom().contains(k) implies self.meshes_view().dom().contains(
                self.keys_view()[k]) by {
                assert(old(self).keys_view().dom().contains(k));
            }
        }
    }
}

} // verus!
