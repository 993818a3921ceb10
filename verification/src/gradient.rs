//! Gradients: the ordered color stops of a linear gradient, and the packing
//! of half-precision floats for the shaders.
use vstd::prelude::*;

verus! {

/// The most color stops of a gradient.
pub const MAX_STOPS: usize = 8;

/// The color stops of a linear gradient: `MAX_STOPS` slots, the filled ones
/// first, ordered by the key of their offset. Each stop is its offset's key
/// (an integer in the order of the offsets) and what it carries (its offset
/// and color).
pub struct GradientStops<C> {
    pub stops: Vec<Option<(u32, C)>>,
}

/// The key of a filled slot.
pub open spec fn stop_key<C>(o: Option<(u32, C)>) -> u32 {
    match o {
        Some(s) => s.0,
        None => 0,
    }
}

/// Whether slot `i` holds a stop whose key is below `key`.
pub open spec fn below<C>(stops: Seq<Option<(u32, C)>>, i: int, key: u32) -> bool {
    match stops[i] {
        Some(s) => s.0 < key,
        None => false,
    }
}

/// The slot that a stop with `key` goes to: the first slot that is empty or
/// holds a key not below it (`MAX_STOPS` when there is none). On slots that
/// are well formed this is where a binary search of the key lands: the slot
/// of an equal key, or else the slot where the key would be inserted.
pub open spec fn stop_index<C>(stops: Seq<Option<(u32, C)>>, key: u32) -> int
    decreases stops.len(),
{
    if stops.len() == 0 {
        0
    } else if below(stops, 0, key) {
        1 + stop_index(stops.drop_first(), key)
    } else {
        0
    }
}

/// Well-formed slots: `MAX_STOPS` of them, the filled ones first, with keys
/// strictly increasing.
pub open spec fn stops_wf<C>(stops: Seq<Option<(u32, C)>>) -> bool {
    &&& stops.len() == MAX_STOPS
    &&& forall|i: int, j: int|
        0 <= i < j < stops.len() && (#[trigger] stops[j]) is Some ==> (#[trigger] stops[i]) is Some
    &&& forall|i: int, j: int|
        0 <= i < j < stops.len() && (#[trigger] stops[j]) is Some ==> stop_key(#[trigger] stops[i]) < stop_key(stops[j])
}

/// The slots once a stop with `key` has been added: a stop with an equal
/// key is replaced; otherwise, when the last slot is free, the stop is
/// inserted at its slot and the stops from there on move up one slot; when
/// every slot is full, nothing changes.
pub open spec fn stops_with<C>(stops: Seq<Option<(u32, C)>>, key: u32, stop: C) -> Seq<
    Option<(u32, C)>,
> {
    let k = stop_index(stops, key);
    if k < stops.len() && stops[k] is Some && stop_key(stops[k]) == key {
        stops.update(k, Some((key, stop)))
    } else if stops.len() == 0 || stops.last() is Some {
        stops
    } else {
        stops.take(k) + seq![Some((key, stop))] + stops.subrange(k, stops.len() - 1)
    }
}

proof fn lemma_stop_index<C>(stops: Seq<Option<(u32, C)>>, key: u32)
    ensures
        0 <= stop_index(stops, key) <= stops.len(),
        forall|i: int| 0 <= i < stop_index(stops, key) ==> below(stops, i, key),
        stop_index(stops, key) < stops.len() ==> !below(stops, stop_index(stops, key), key),
    decreases stops.len(),
{
    if stops.len() > 0 && below(stops, 0, key) {
        let t = stops.drop_first();
        lemma_stop_index(t, key);
        assert forall|i: int| 0 <= i < stop_index(stops, key) implies below(stops, i, key) by {
            if i > 0 {
                assert(stops[i] == t[i - 1]);
                assert(below(t, i - 1, key));
            }
        }
        if stop_index(stops, key) < stops.len() {
            assert(stops[stop_index(stops, key)] == t[stop_index(t, key)]);
        }
    }
}

impl<C> GradientStops<C> {
    /// No stops.
    pub fn new() -> (r: GradientStops<C>)
        ensures
            stops_wf(r.stops@),
            forall|i: int| 0 <= i < MAX_STOPS ==> (#[trigger] r.stops@[i]) is None,
    {
        let mut stops: Vec<Option<(u32, C)>> = Vec::new();
        let mut i: usize = 0;
        while i < MAX_STOPS
            invariant
                i <= MAX_STOPS,
                stops@.len() == i,
                forall|j: int| 0 <= j < i ==> (#[trigger] stops@[j]) is None,
            decreases MAX_STOPS - i,
        {
            stops.push(None);
            i = i + 1;
        }
        GradientStops { stops }
    }

    /// Adds a stop whose offset lies between zero and one and has `key`: a
    /// stop with an equal key is replaced; otherwise, when a slot is free, the
    /// stop is inserted in key order, the stops after it moving up one slot,
    /// so that no stop is lost; when all slots are full it is ignored.
    pub fn add_stop(&mut self, key: u32, stop: C)
        requires
            stops_wf(old(self).stops@),
        ensures
            stops_wf(final(self).stops@),
            final(self).stops@ == stops_with(old(self).stops@, key, stop),
    {
        let ghost s0 = self.stops@;
        proof {
            lemma_stop_index(s0, key);
        }
        let mut index: usize = 0;
        while index < MAX_STOPS && slot_below(&self.stops, index, key)
            invariant
                self.stops@ == s0,
                stops_wf(s0),
                index <= MAX_STOPS,
                index <= stop_index(s0, key),
                0 <= stop_index(s0, key) <= s0.len(),
                forall|i: int| 0 <= i < stop_index(s0, key) ==> below(s0, i, key),
                stop_index(s0, key) < s0.len() ==> !below(s0, stop_index(s0, key), key),
            decreases MAX_STOPS - index,
        {
            index = index + 1;
        }
        proof {
            if index < MAX_STOPS {
                assert(!below(s0, index as int, key));
                assert(index as int == stop_index(s0, key));
            } else {
                assert(stop_index(s0, key) == MAX_STOPS);
            }
        }
        let k = index;
        if k < MAX_STOPS && slot_has_key(&self.stops, k, key) {
            self.stops.set(k, Some((key, stop)));
            proof {
                let s1 = self.stops@;
                assert forall|i: int, j: int|
                    0 <= i < j < s1.len() && (#[trigger] s1[j]) is Some implies (
                    #[trigger] s1[i]) is Some && stop_key(s1[i]) < stop_key(s1[j]) by {
                    assert(s0[j] is Some);
                    assert(s0[k as int] is Some);
                }
            }
        } else if self.stops[MAX_STOPS - 1].is_some() {
            proof {
                if k < MAX_STOPS {
                    assert(s0[k as int] is Some);
                }
            }
        } else {
            proof {
                // The last slot is free, so the key has a slot below it.
                if k == MAX_STOPS {
                    assert(below(s0, MAX_STOPS - 1, key));
                }
                assert(k < MAX_STOPS);
            }
            self.stops.insert(k, Some((key, stop)));
            self.stops.pop();
            proof {
                let s1 = self.stops@;
                let x = Some((key, stop));
                let kk = k as int;
                assert(s1 =~= s0.take(kk) + seq![x] + s0.subrange(kk, s0.len() - 1));
                assert forall|i: int| 0 <= i < s1.len() implies #[trigger] s1[i] == (if i < kk {
                    s0[i]
                } else if i == kk {
                    x
                } else {
                    s0[i - 1]
                }) by {}
                // A stop at or after the slot holds a key above `key`.
                assert forall|j: int| kk <= j < s0.len() && (#[trigger] s0[j]) is Some implies stop_key(s0[j]) > key by {
                    assert(s0[kk] is Some);
                    assert(!below(s0, kk, key));
                    if j > kk {
                        assert(stop_key(s0[kk]) < stop_key(s0[j]));
                    }
                }
                assert forall|i: int, j: int|
                    0 <= i < j < s1.len() && (#[trigger] s1[j]) is Some implies (
                    #[trigger] s1[i]) is Some && stop_key(s1[i]) < stop_key(s1[j]) by {
                    if j < kk {
                        assert(s1[j] == s0[j]);
                        assert(s1[i] == s0[i]);
                    } else if j == kk {
                        assert(s1[i] == s0[i]);
                        assert(below(s0, i, key));
                    } else {
                        assert(s1[j] == s0[j - 1]);
                        assert(s0[j - 1] is Some);
                        if i < kk {
                            assert(s1[i] == s0[i]);
                            assert(below(s0, i, key));
                            assert(stop_key(s0[j - 1]) > key);
                        } else if i == kk {
                            assert(stop_key(s0[j - 1]) > key);
                        } else {
                            assert(s1[i] == s0[i - 1]);
                        }
                    }
                }
            }
        }
    }
}

/// Whether slot `i` holds a stop with exactly `key`.
fn slot_has_key<C>(stops: &Vec<Option<(u32, C)>>, i: usize, key: u32) -> (r: bool)
    requires
        i < stops@.len(),
    ensures
        r == (stops@[i as int] is Some && stop_key(stops@[i as int]) == key),
{
    match &stops[i] {
        Some(s) => s.0 == key,
        None => false,
    }
}

/// Whether slot `i` holds a stop whose key is below `key`.
fn slot_below<C>(stops: &Vec<Option<(u32, C)>>, i: usize, key: u32) -> (r: bool)
    requires
        i < stops@.len(),
    ensures
        r == below(stops@, i as int, key),
{
    match &stops[i] {
        Some(s) => s.0 < key,
        None => false,
    }
}

/// Packs two half-precision floats, given by their bits, into one word: the
/// first in the high half.
pub fn pack_f16s(f: [u16; 2]) -> (r: u32)
    ensures
        r == f[0] * 65536 + f[1],
{
    let hi = f[0] as u32;
    let lo = f[1] as u32;
    let r = hi << 16u32 | lo;
    assert(r == hi * 65536 + lo) by (bit_vector)
        requires
            r == hi << 16u32 | lo,
            hi < 65536,
            lo < 65536,
    ;
    r
}

} // verus!
