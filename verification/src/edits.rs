//! The edits of a session in memory, by finest-level chunk: which block each edited voxel
//! now holds. A later edit of a voxel replaces an earlier one.

use crate::block::Bar;
use crate::journal::{decode_spec, encode, encode_spec, law_journal_roundtrip, BarState, JournalError, PlayerState, Record};
use crate::voxel::VOL;
use std::collections::HashMap;
use vstd::prelude::*;
use vstd::std_specs::iter::IteratorSpec;

verus! {

broadcast use vstd::std_specs::hash::group_hash_axioms;

/// The finest-level chunk holding block `p`: its coordinates divided by 64, rounding down.
pub open spec fn chunk_of(p: (i32, i32, i32)) -> (i32, i32, i32) {
    (p.0 >> 6u32, p.1 >> 6u32, p.2 >> 6u32)
}

/// Chunk coordinates that blocks with 32-bit coordinates can have.
pub open spec fn chunk_in_range(c: (i32, i32, i32)) -> bool {
    &&& -0x200_0000 <= c.0 < 0x200_0000
    &&& -0x200_0000 <= c.1 < 0x200_0000
    &&& -0x200_0000 <= c.2 < 0x200_0000
}

/// The dense index of block `p` within its chunk.
pub open spec fn local_of(p: (i32, i32, i32)) -> u32 {
    ((p.0 & 63i32) + (p.2 & 63i32) * 64 + (p.1 & 63i32) * 4096) as u32
}

/// A chunk's coordinates as one map key: their 32-bit patterns side by side.
pub open spec fn chunk_key(c: (i32, i32, i32)) -> u128 {
    ((c.0 as u32 as u128) << 64u128) | ((c.1 as u32 as u128) << 32u128) | (c.2 as u32 as u128)
}

/// The chunk a map key names.
pub open spec fn key_chunk(k: u128) -> (i32, i32, i32) {
    ((k >> 64u128) as u32 as i32, (k >> 32u128) as u32 as i32, k as u32 as i32)
}

pub fn chunk_of_block(p: (i32, i32, i32)) -> (c: (i32, i32, i32))
    ensures
        c == chunk_of(p),
        chunk_in_range(c),
{
    let (x, y, z) = p;
    assert(-0x200_0000 <= (x >> 6u32) < 0x200_0000 && -0x200_0000 <= (y >> 6u32) < 0x200_0000
        && -0x200_0000 <= (z >> 6u32) < 0x200_0000) by (bit_vector);
    (x >> 6u32, y >> 6u32, z >> 6u32)
}

pub fn local_index(p: (i32, i32, i32)) -> (i: u32)
    ensures
        i == local_of(p),
        i < VOL,
{
    let (x, y, z) = (p.0, p.1, p.2);
    assert((x & 63i32) >= 0 && (x & 63i32) < 64 && (y & 63i32) >= 0 && (y & 63i32) < 64 && (z & 63i32) >= 0
        && (z & 63i32) < 64) by (bit_vector);
    ((x & 63i32) + (z & 63i32) * 64 + (y & 63i32) * 4096) as u32
}

pub fn key_of_chunk(c: (i32, i32, i32)) -> (k: u128)
    ensures
        k == chunk_key(c),
        key_chunk(k) == c,
        k < 0x1_0000_0000_0000_0000_0000_0000u128,
{
    let (a, b, d) = (c.0, c.1, c.2);
    let k = ((a as u32 as u128) << 64u128) | ((b as u32 as u128) << 32u128) | (d as u32 as u128);
    assert(((k >> 64u128) as u32 as i32) == a && ((k >> 32u128) as u32 as i32) == b && (k as u32 as i32) == d
        && k < 0x1_0000_0000_0000_0000_0000_0000u128) by (bit_vector)
        requires
            k == ((a as u32 as u128) << 64u128) | ((b as u32 as u128) << 32u128) | (d as u32 as u128),
    ;
    k
}

pub fn chunk_of_key(k: u128) -> (c: (i32, i32, i32))
    ensures
        c == key_chunk(k),
        k < 0x1_0000_0000_0000_0000_0000_0000u128 ==> chunk_key(c) == k,
{
    let c = ((k >> 64u128) as u32 as i32, (k >> 32u128) as u32 as i32, k as u32 as i32);
    let (a, b, d) = c;
    assert(k < 0x1_0000_0000_0000_0000_0000_0000u128 ==> ((a as u32 as u128) << 64u128) | ((b as u32 as u128)
        << 32u128) | (d as u32 as u128) == k) by (bit_vector)
        requires
            a == (k >> 64u128) as u32 as i32,
            b == (k >> 32u128) as u32 as i32,
            d == k as u32 as i32,
    ;
    c
}

/// The edits, by chunk key: for each edited chunk, the block at each edited voxel index.
pub struct Edits {
    chunks: HashMap<u128, HashMap<u32, u16>>,
}

impl Edits {
    pub closed spec fn view(&self) -> Map<u128, Map<u32, u16>> {
        self.chunks@.map_values(|h: HashMap<u32, u16>| h@)
    }

    /// Every key is a chunk key and every voxel index lies inside a chunk.
    #[verifier::type_invariant]
    closed spec fn wf(&self) -> bool {
        forall|k: u128|
            #[trigger] self.chunks@.contains_key(k) ==> k < 0x1_0000_0000_0000_0000_0000_0000u128
                && chunk_in_range(key_chunk(k))
                && (exists|i: u32| #[trigger] self.chunks@[k]@.contains_key(i))
                && forall|i: u32| #[trigger] self.chunks@[k]@.contains_key(i) ==> i < VOL
    }

    /// No edits.
    pub fn new() -> (e: Edits)
        ensures
            e.view() == Map::<u128, Map<u32, u16>>::empty(),
    {
        let e = Edits { chunks: HashMap::new() };
        assert(e.view() =~= Map::<u128, Map<u32, u16>>::empty());
        e
    }

    /// The edits of the chunk with key `k`, none when it has none.
    pub open spec fn of_key(&self, k: u128) -> Map<u32, u16> {
        if self.view().contains_key(k) {
            self.view()[k]
        } else {
            Map::empty()
        }
    }

    /// Record that block `p` now holds `id`, replacing any earlier edit of it.
    pub fn record(&mut self, p: (i32, i32, i32), id: u16)
        ensures
            final(self).view() == old(self).view().insert(
                chunk_key(chunk_of(p)),
                old(self).of_key(chunk_key(chunk_of(p))).insert(local_of(p), id),
            ),
            final(self).view() == record_spec(old(self).view(), Record { x: p.0, y: p.1, z: p.2, id }),
    {
        proof {
            use_type_invariant(&*self);
        }
        let c = chunk_of_block(p);
        let k = key_of_chunk(c);
        let i = local_index(p);
        let ghost v0 = self.view();
        let mut chunks: HashMap<u128, HashMap<u32, u16>> = HashMap::new();
        std::mem::swap(&mut chunks, &mut self.chunks);
        let ghost m0 = chunks@;
        assert(v0 == m0.map_values(|h: HashMap<u32, u16>| h@));
        let mut inner = match chunks.remove(&k) {
            Some(h) => h,
            None => HashMap::new(),
        };
        assert(inner@ == (if v0.contains_key(k) { v0[k] } else { Map::<u32, u16>::empty() }));
        inner.insert(i, id);
        assert(inner@.contains_key(i));
        chunks.insert(k, inner);
        assert(chunks@.map_values(|h: HashMap<u32, u16>| h@) =~= v0.insert(k, (if v0.contains_key(k) { v0[k] } else { Map::<u32, u16>::empty() }).insert(i, id)));
        proof {
            assert forall|kk: u128| #[trigger] chunks@.contains_key(kk) implies kk < 0x1_0000_0000_0000_0000_0000_0000u128
                && chunk_in_range(key_chunk(kk))
                && (exists|ii: u32| #[trigger] chunks@[kk]@.contains_key(ii))
                && forall|ii: u32| #[trigger] chunks@[kk]@.contains_key(ii) ==> ii < VOL by {
                if kk == k {
                    assert(chunks@[kk]@.contains_key(i));
                } else {
                    assert(m0.contains_key(kk));
                    assert(chunks@[kk] == m0[kk]);
                    assert(exists|ii: u32| #[trigger] m0[kk]@.contains_key(ii));
                }
            }
        }
        self.chunks = chunks;
    }

    /// How many chunks hold edits.
    pub fn chunks(&self) -> (n: usize)
        ensures
            n == self.view().dom().len(),
    {
        assert(self.view().dom() =~= self.chunks@.dom());
        self.chunks.len()
    }

    /// Write the edits of finest-level chunk `c` into its dense block array; how many there are.
    pub fn apply(&self, c: (i32, i32, i32), dense: &mut Vec<u16>) -> (n: usize)
        requires
            old(dense)@.len() == VOL,
        ensures
            final(dense)@.len() == VOL,
            n == self.of_key(chunk_key(c)).dom().len(),
            forall|i: int|
                0 <= i < VOL ==> #[trigger] final(dense)@[i] == if self.of_key(chunk_key(c)).contains_key(i as u32) {
                    self.of_key(chunk_key(c))[i as u32]
                } else {
                    old(dense)@[i]
                },
    {
        proof {
            use_type_invariant(self);
        }
        let k = key_of_chunk(c);
        match self.chunks.get(&k) {
            None => {
                assert(self.of_key(k) =~= Map::<u32, u16>::empty());
                0
            },
            Some(m) => {
                let ghost d0 = dense@;
                let ghost v0 = vstd::std_specs::hash::spec_hash_map_iter(m).remaining();
                let ghost mut cnt: int = 0;
                assert(self.of_key(k) == m@);
                for (i, v) in it: m.iter()
                    invariant
                        dense@.len() == VOL,
                        forall|j: u32| m@.contains_key(j) ==> j < VOL,
                        v0 == vstd::std_specs::hash::spec_hash_map_iter(m).remaining(),
                        it.seq() == v0,
                        cnt == it.index(),
                        forall|x: int|
                            0 <= x < VOL ==> dense@[x] == if exists|j: int|
                                0 <= j < cnt && *v0[j].0 == x as u32 {
                                m@[x as u32]
                            } else {
                                d0[x]
                            },
                {
                    proof {
                        assert(m@.contains_key(*v0[it.index() as int].0));
                    }
                    dense.set(*i as usize, *v);
                    proof {
                        cnt = cnt + 1;
                    }
                }
                proof {
                    assert(cnt == v0.len());
                    assert forall|x: int| 0 <= x < VOL implies #[trigger] dense@[x] == if m@.contains_key(x as u32) {
                        m@[x as u32]
                    } else {
                        d0[x]
                    } by {
                        if m@.contains_key(x as u32) {
                            let kk = x as u32;
                            assert(v0.contains((&kk, &m@[kk])));
                            let j = choose|j: int| 0 <= j < v0.len() && v0[j] == (&kk, &m@[kk]);
                            assert(*v0[j].0 == x as u32);
                        }
                    }
                }
                m.len()
            },
        }
    }

    /// Every edit once: its chunk, its voxel index there, and its block.
    pub fn entries(&self) -> (out: Vec<((i32, i32, i32), u32, u16)>)
        ensures
            forall|t: int|
                0 <= t < out@.len() ==> #[trigger] self.of_key(chunk_key(out@[t].0)).contains_key(out@[t].1)
                    && self.of_key(chunk_key(out@[t].0))[out@[t].1] == out@[t].2,
            forall|t: int| 0 <= t < out@.len() ==> chunk_in_range((#[trigger] out@[t]).0) && out@[t].1 < VOL,
            forall|k: u128, i: u32|
                #[trigger] self.view().contains_key(k) && #[trigger] self.view()[k].contains_key(i)
                    ==> exists|t: int| 0 <= t < out@.len() && chunk_key(#[trigger] out@[t].0) == k && out@[t].1 == i,
            forall|s: int, t: int|
                0 <= s < t < out@.len() ==> chunk_key(#[trigger] out@[s].0) != chunk_key(#[trigger] out@[t].0)
                    || out@[s].1 != out@[t].1,
            no_empty_chunk(self.view()),
    {
        proof {
            use_type_invariant(self);
        }
        let mut out: Vec<((i32, i32, i32), u32, u16)> = Vec::new();
        let ghost w0 = vstd::std_specs::hash::spec_hash_map_iter(&self.chunks).remaining();
        let ghost mut cnt: int = 0;
        for (k, m) in it: self.chunks.iter()
            invariant
                w0 == vstd::std_specs::hash::spec_hash_map_iter(&self.chunks).remaining(),
                it.seq() == w0,
                cnt == it.index(),
                w0.no_duplicates(),
                forall|kk: u128| #[trigger] self.chunks@.contains_key(kk) ==> kk < 0x1_0000_0000_0000_0000_0000_0000u128,
                cnt <= w0.len(),
                forall|kk: u128| #[trigger] self.chunks@.contains_key(kk) ==> chunk_in_range(key_chunk(kk))
                    && forall|ii: u32| #[trigger] self.chunks@[kk]@.contains_key(ii) ==> ii < VOL,
                forall|t: int| 0 <= t < out@.len() ==> chunk_in_range((#[trigger] out@[t]).0) && out@[t].1 < VOL,
                forall|t: int|
                    0 <= t < out@.len() ==> #[trigger] self.of_key(chunk_key(out@[t].0)).contains_key(out@[t].1)
                        && self.of_key(chunk_key(out@[t].0))[out@[t].1] == out@[t].2,
                forall|t: int|
                    0 <= t < out@.len() ==> exists|j: int| 0 <= j < cnt && *w0[j].0 == chunk_key(#[trigger] out@[t].0),
                forall|j: int, i: u32|
                    0 <= j < cnt && #[trigger] (*w0[j].1)@.contains_key(i)
                        ==> exists|t: int| 0 <= t < out@.len() && chunk_key(#[trigger] out@[t].0) == *w0[j].0 && out@[t].1 == i,
                forall|s: int, t: int|
                    0 <= s < t < out@.len() ==> chunk_key(#[trigger] out@[s].0) != chunk_key(#[trigger] out@[t].0)
                        || out@[s].1 != out@[t].1,
        {
            let ghost j0 = cnt;
            proof {
                assert(self.chunks@.contains_key(*w0[j0].0));
                assert(self.chunks@[*w0[j0].0] == *w0[j0].1);
                assert forall|j: int| 0 <= j < j0 implies *w0[j].0 != *k by {
                    if *w0[j].0 == *k {
                        assert(self.chunks@[*w0[j].0] == *w0[j].1);
                        assert(w0[j] == w0[j0]);
                    }
                }
            }
            let c = chunk_of_key(*k);
            assert(chunk_in_range(c));
            assert(forall|ii: u32| #[trigger] m@.contains_key(ii) ==> ii < VOL);
            assert(forall|t: int| 0 <= t < out@.len() ==> chunk_in_range((#[trigger] out@[t]).0) && out@[t].1 < VOL);
            let ghost n0 = out@.len();
            let ghost start = out@;
            let ghost u0 = vstd::std_specs::hash::spec_hash_map_iter(m).remaining();
            let ghost mut cnt2: int = 0;
            assert(*k == *w0[j0].0 && *m == *w0[j0].1);
            assert forall|t: int| 0 <= t < n0 implies chunk_key(#[trigger] start[t].0) != *k by {
                assert(start[t] == out@[t]);
                assert(0 <= t < out@.len());
                let ck = chunk_key(out@[t].0);
                assert(exists|j: int| 0 <= j < cnt && *w0[j].0 == ck);
                let j = choose|j: int| 0 <= j < cnt && *w0[j].0 == ck;
                assert(*w0[j].0 != *k);
            }
            for (i, v) in jt: m.iter()
                invariant
                    u0 == vstd::std_specs::hash::spec_hash_map_iter(m).remaining(),
                    jt.seq() == u0,
                    cnt2 == jt.index(),
                    u0.no_duplicates(),
                    chunk_key(c) == *k,
                    self.chunks@.contains_key(*k),
                    self.chunks@[*k] == *m,
                    n0 <= out@.len(),
                    out@.len() == n0 + cnt2,
                    chunk_in_range(c),
                    forall|ii: u32| #[trigger] m@.contains_key(ii) ==> ii < VOL,
                    forall|t: int| 0 <= t < out@.len() ==> chunk_in_range((#[trigger] out@[t]).0) && out@[t].1 < VOL,
                    j0 < w0.len(),
                    n0 == start.len(),
                    forall|t: int| 0 <= t < n0 ==> out@[t] == #[trigger] start[t],
                    forall|t: int| n0 <= t < out@.len() ==> chunk_key(#[trigger] out@[t].0) == *k && out@[t].1 == *u0[t - n0].0,
                    forall|j: int| 0 <= j < j0 ==> *w0[j].0 != *k,
                    forall|t: int| 0 <= t < n0 ==> chunk_key(#[trigger] start[t].0) != *k,
                    forall|t: int|
                        0 <= t < out@.len() ==> #[trigger] self.of_key(chunk_key(out@[t].0)).contains_key(out@[t].1)
                            && self.of_key(chunk_key(out@[t].0))[out@[t].1] == out@[t].2,
                    forall|s: int, t: int|
                        0 <= s < t < out@.len() ==> chunk_key(#[trigger] out@[s].0) != chunk_key(#[trigger] out@[t].0)
                            || out@[s].1 != out@[t].1,
            {
                proof {
                    assert(m@.contains_key(*u0[cnt2].0) && m@[*u0[cnt2].0] == *u0[cnt2].1);
                }
                let ghost o0 = out@;
                out.push((c, *i, *v));
                proof {
                    assert forall|s: int, t: int|
                        0 <= s < t < out@.len() implies chunk_key(#[trigger] out@[s].0) != chunk_key(#[trigger] out@[t].0)
                            || out@[s].1 != out@[t].1 by {
                        if t == o0.len() && s >= n0 {
                            assert(o0[s] == out@[s]);
                            assert(chunk_key(o0[s].0) == *k);
                            assert(out@[s].1 == *u0[s - n0].0);
                            if *u0[s - n0].0 == *u0[cnt2].0 {
                                assert(u0[s - n0] == u0[cnt2]);
                            }
                        } else if t == o0.len() {
                            assert(o0[s] == out@[s]);
                            assert(start[s] == o0[s]);
                            assert(chunk_key(start[s].0) != *k);
                        } else {
                            assert(o0[s] == out@[s] && o0[t] == out@[t]);
                        }
                    }
                    assert forall|t: int| 0 <= t < out@.len() implies #[trigger] self.of_key(chunk_key(out@[t].0)).contains_key(out@[t].1)
                        && self.of_key(chunk_key(out@[t].0))[out@[t].1] == out@[t].2 by {
                        if t < o0.len() {
                            assert(o0[t] == out@[t]);
                        }
                    }
                    assert forall|t: int| n0 <= t < out@.len() implies chunk_key(#[trigger] out@[t].0) == *k && out@[t].1 == *u0[t - n0].0 by {
                        if t < o0.len() {
                            assert(o0[t] == out@[t]);
                        }
                    }
                    assert forall|t: int| 0 <= t < n0 implies out@[t] == #[trigger] start[t] by {
                        assert(o0[t] == out@[t]);
                    }
                    assert(*i == *u0[cnt2].0);
                    assert(*i < VOL);
                    assert forall|t: int| 0 <= t < out@.len() implies chunk_in_range((#[trigger] out@[t]).0) && out@[t].1 < VOL by {
                        if t < o0.len() {
                            assert(o0[t] == out@[t]);
                        } else {
                            assert(out@[t] == (c, *i, *v));
                        }
                    }
                    cnt2 = cnt2 + 1;
                }
            }
            proof {
                assert(cnt2 == u0.len());
                assert forall|i: u32| #[trigger] (*w0[j0].1)@.contains_key(i) implies exists|t: int|
                    0 <= t < out@.len() && chunk_key(#[trigger] out@[t].0) == *w0[j0].0 && out@[t].1 == i by {
                    assert(u0.contains((&i, &m@[i])));
                    let q = choose|q: int| 0 <= q < u0.len() && u0[q] == (&i, &m@[i]);
                    assert(n0 <= n0 + q < out@.len());
                    assert(chunk_key(out@[n0 + q].0) == *k);
                    assert(out@[n0 + q].1 == *u0[q].0);
                    assert(out@[n0 + q].1 == i);
                }
                assert forall|j: int, i: u32| 0 <= j < j0 && #[trigger] (*w0[j].1)@.contains_key(i) implies exists|t: int|
                    0 <= t < out@.len() && chunk_key(#[trigger] out@[t].0) == *w0[j].0 && out@[t].1 == i by {
                    let t = choose|t: int| 0 <= t < start.len() && chunk_key(#[trigger] start[t].0) == *w0[j].0 && start[t].1 == i;
                    assert(out@[t] == start[t]);
                }
                assert forall|t: int| 0 <= t < out@.len() implies exists|j: int| 0 <= j < j0 + 1 && *w0[j].0 == chunk_key(#[trigger] out@[t].0) by {
                    if t < n0 {
                        assert(out@[t] == start[t]);
                        let j = choose|j: int| 0 <= j < j0 && *w0[j].0 == chunk_key(#[trigger] start[t].0);
                    } else {
                        assert(*w0[j0].0 == *k);
                    }
                }
                cnt = cnt + 1;
            }
        }
        proof {
            assert(cnt == w0.len());
            assert forall|kk: u128| #[trigger] self.view().contains_key(kk) implies exists|i: u32| #[trigger] self.view()[kk].contains_key(i) by {
                assert(self.chunks@.contains_key(kk));
                let i = choose|i: u32| #[trigger] self.chunks@[kk]@.contains_key(i);
                assert(self.view()[kk].contains_key(i));
            }
            assert forall|kk: u128, i: u32|
                #[trigger] self.view().contains_key(kk) && #[trigger] self.view()[kk].contains_key(i)
                    implies exists|t: int| 0 <= t < out@.len() && chunk_key(#[trigger] out@[t].0) == kk && out@[t].1 == i by {
                assert(w0.contains((&kk, &self.chunks@[kk])));
                let j = choose|j: int| 0 <= j < w0.len() && w0[j] == (&kk, &self.chunks@[kk]);
                assert((*w0[j].1)@.contains_key(i));
            }
        }
        out
    }
}

// ------------------------------------------------------------------ replaying a saved journal

/// The edits of chunk key `k` in `v`, none when it has none.
pub open spec fn entry_of(v: Map<u128, Map<u32, u16>>, k: u128) -> Map<u32, u16> {
    if v.contains_key(k) {
        v[k]
    } else {
        Map::empty()
    }
}

/// The chunk key and voxel index of a journal record's block.
pub open spec fn rec_key(r: Record) -> u128 {
    chunk_key(chunk_of((r.x, r.y, r.z)))
}

pub open spec fn rec_local(r: Record) -> u32 {
    local_of((r.x, r.y, r.z))
}

/// The edits `v` after recording `r`, as [`Edits::record`] does.
pub open spec fn record_spec(v: Map<u128, Map<u32, u16>>, r: Record) -> Map<u128, Map<u32, u16>> {
    v.insert(rec_key(r), entry_of(v, rec_key(r)).insert(rec_local(r), r.id))
}

/// The edits `v` after recording `recs` in order.
pub open spec fn replay(v: Map<u128, Map<u32, u16>>, recs: Seq<Record>) -> Map<u128, Map<u32, u16>>
    decreases recs.len(),
{
    if recs.len() == 0 {
        v
    } else {
        record_spec(replay(v, recs.drop_last()), recs.last())
    }
}

/// No chunk is held without an edit in it.
pub open spec fn no_empty_chunk(v: Map<u128, Map<u32, u16>>) -> bool {
    forall|k: u128| #[trigger] v.contains_key(k) ==> exists|i: u32| #[trigger] v[k].contains_key(i)
}

/// `recs` lists the edits `v`: each record is an edit of `v`, and each edit of `v` is listed.
pub open spec fn lists(v: Map<u128, Map<u32, u16>>, recs: Seq<Record>) -> bool {
    &&& forall|t: int|
        0 <= t < recs.len() ==> #[trigger] entry_of(v, rec_key(recs[t])).contains_key(rec_local(recs[t]))
            && entry_of(v, rec_key(recs[t]))[rec_local(recs[t])] == recs[t].id
    &&& forall|k: u128, i: u32|
        #[trigger] v.contains_key(k) && #[trigger] v[k].contains_key(i) ==> exists|t: int|
            0 <= t < recs.len() && rec_key(#[trigger] recs[t]) == k && rec_local(recs[t]) == i
}

/// The edits of `v` listed among the first `n` records.
pub open spec fn listed_part(v: Map<u128, Map<u32, u16>>, recs: Seq<Record>, n: int) -> Map<u128, Map<u32, u16>> {
    Map::new(
        |k: u128| exists|t: int| 0 <= t < n && rec_key(recs[t]) == k,
        |k: u128|
            Map::new(
                |i: u32| exists|t: int| 0 <= t < n && rec_key(recs[t]) == k && rec_local(recs[t]) == i,
                |i: u32| v[k][i],
            ),
    )
}

proof fn lemma_replay_prefix(v: Map<u128, Map<u32, u16>>, recs: Seq<Record>, n: int)
    requires
        lists(v, recs),
        0 <= n <= recs.len(),
    ensures
        replay(Map::empty(), recs.take(n)) == listed_part(v, recs, n),
    decreases n,
{
    if n == 0 {
        assert(listed_part(v, recs, 0) =~= Map::<u128, Map<u32, u16>>::empty());
    } else {
        lemma_replay_prefix(v, recs, n - 1);
        assert(recs.take(n).drop_last() =~= recs.take(n - 1));
        let r = recs[n - 1];
        let k = rec_key(r);
        let i = rec_local(r);
        let prev = listed_part(v, recs, n - 1);
        let next = listed_part(v, recs, n);
        assert(0 <= n - 1 < recs.len());
        assert(entry_of(v, rec_key(recs[n - 1])).contains_key(rec_local(recs[n - 1])));
        assert(entry_of(v, k).contains_key(i) && entry_of(v, k)[i] == r.id);
        assert(v.contains_key(k));
        assert forall|kk: u128| #[trigger] next.contains_key(kk) implies record_spec(prev, r).contains_key(kk)
            && record_spec(prev, r)[kk] =~= next[kk] by {
            if kk == k {
                assert forall|ii: u32| #[trigger] next[kk].contains_key(ii) implies entry_of(prev, k).insert(i, r.id).contains_key(ii)
                    && entry_of(prev, k).insert(i, r.id)[ii] == next[kk][ii] by {
                    if ii != i {
                        let t = choose|t: int| 0 <= t < n && rec_key(recs[t]) == kk && rec_local(recs[t]) == ii;
                        assert(t != n - 1);
                        assert(prev.contains_key(kk));
                        assert(prev[kk].contains_key(ii));
                    }
                }
                assert forall|ii: u32| #[trigger] entry_of(prev, k).insert(i, r.id).contains_key(ii) implies next[kk].contains_key(ii) by {
                    if ii != i {
                        assert(prev.contains_key(kk));
                        let t = choose|t: int| 0 <= t < n - 1 && rec_key(recs[t]) == kk && rec_local(recs[t]) == ii;
                    }
                }
            } else {
                let t = choose|t: int| 0 <= t < n && rec_key(recs[t]) == kk;
                assert(t != n - 1);
                assert(prev.contains_key(kk));
                assert(prev[kk] =~= next[kk]) by {
                    assert forall|ii: u32| #[trigger] next[kk].contains_key(ii) implies prev[kk].contains_key(ii) by {
                        let t2 = choose|t2: int| 0 <= t2 < n && rec_key(recs[t2]) == kk && rec_local(recs[t2]) == ii;
                        assert(t2 != n - 1);
                    }
                }
            }
        }
        assert forall|kk: u128| #[trigger] record_spec(prev, r).contains_key(kk) implies next.contains_key(kk) by {
            if kk != k {
                let t = choose|t: int| 0 <= t < n - 1 && rec_key(recs[t]) == kk;
            }
        }
        assert(record_spec(prev, r) =~= next);
    }
}

/// Records that list a set of edits, each once or more and in any order, recorded into no
/// edits, give back exactly those edits: what a saved journal holds loads back.
pub proof fn law_replaying_a_listing_restores(v: Map<u128, Map<u32, u16>>, recs: Seq<Record>)
    requires
        lists(v, recs),
        no_empty_chunk(v),
    ensures
        replay(Map::empty(), recs) == v,
{
    lemma_replay_prefix(v, recs, recs.len() as int);
    assert(recs.take(recs.len() as int) =~= recs);
    let l = listed_part(v, recs, recs.len() as int);
    assert forall|k: u128| #[trigger] v.contains_key(k) implies l.contains_key(k) && l[k] =~= v[k] by {
        let i = choose|i: u32| #[trigger] v[k].contains_key(i);
        let t = choose|t: int| 0 <= t < recs.len() && rec_key(#[trigger] recs[t]) == k && rec_local(recs[t]) == i;
        assert forall|ii: u32| #[trigger] v[k].contains_key(ii) implies l[k].contains_key(ii) by {
            let t2 = choose|t2: int| 0 <= t2 < recs.len() && rec_key(#[trigger] recs[t2]) == k && rec_local(recs[t2]) == ii;
        }
        assert forall|ii: u32| #[trigger] l[k].contains_key(ii) implies v[k].contains_key(ii) by {
            let t2 = choose|t2: int| 0 <= t2 < recs.len() && rec_key(recs[t2]) == k && rec_local(recs[t2]) == ii;
            assert(entry_of(v, rec_key(recs[t2])).contains_key(rec_local(recs[t2])));
        }
    }
    assert forall|k: u128| #[trigger] l.contains_key(k) implies v.contains_key(k) by {
        let t = choose|t: int| 0 <= t < recs.len() && rec_key(recs[t]) == k;
        assert(entry_of(v, rec_key(recs[t])).contains_key(rec_local(recs[t])));
    }
    assert(l =~= v);
}

/// The block at voxel index `i` of chunk `c`.
pub open spec fn block_at(c: (i32, i32, i32), i: u32) -> (i32, i32, i32) {
    (
        (c.0 * 64 + ((i & 63u32) as i32)) as i32,
        (c.1 * 64 + (((i >> 12u32) & 63u32) as i32)) as i32,
        (c.2 * 64 + (((i >> 6u32) & 63u32) as i32)) as i32,
    )
}

/// The block at voxel index `i` of chunk `c` lies in that chunk, at that index.
proof fn lemma_block_of(c: (i32, i32, i32), i: u32)
    requires
        chunk_in_range(c),
        i < VOL,
    ensures
        0 <= ((i & 63u32) as i32) < 64,
        0 <= (((i >> 12u32) & 63u32) as i32) < 64,
        0 <= (((i >> 6u32) & 63u32) as i32) < 64,
        chunk_of(block_at(c, i)) == c,
        local_of(block_at(c, i)) == i,
{
    let (a, b, d) = c;
    let lx = (i & 63u32) as i32;
    let ly = ((i >> 12u32) & 63u32) as i32;
    let lz = ((i >> 6u32) & 63u32) as i32;
    assert(0 <= lx < 64 && 0 <= ly < 64 && 0 <= lz < 64 && lx + lz * 64 + ly * 4096 == i) by (bit_vector)
        requires
            i < 262144u32,
            lx == (i & 63u32) as i32,
            ly == ((i >> 12u32) & 63u32) as i32,
            lz == ((i >> 6u32) & 63u32) as i32,
    ;
    assert((((a * 64 + lx) as i32) >> 6u32) == a && (((a * 64 + lx) as i32) & 63i32) == lx) by (bit_vector)
        requires
            -0x200_0000 <= a < 0x200_0000,
            0 <= lx < 64,
    ;
    assert((((b * 64 + ly) as i32) >> 6u32) == b && (((b * 64 + ly) as i32) & 63i32) == ly) by (bit_vector)
        requires
            -0x200_0000 <= b < 0x200_0000,
            0 <= ly < 64,
    ;
    assert((((d * 64 + lz) as i32) >> 6u32) == d && (((d * 64 + lz) as i32) & 63i32) == lz) by (bit_vector)
        requires
            -0x200_0000 <= d < 0x200_0000,
            0 <= lz < 64,
    ;
}

impl Edits {
    /// The edits as journal records, one for each edited block.
    pub fn records(&self) -> (out: Vec<Record>)
        ensures
            lists(self.view(), out@),
            no_empty_chunk(self.view()),
    {
        let es = self.entries();
        let mut out: Vec<Record> = Vec::new();
        let mut t: usize = 0;
        while t < es.len()
            invariant
                t <= es@.len(),
                out@.len() == t,
                forall|u: int| 0 <= u < es@.len() ==> chunk_in_range((#[trigger] es@[u]).0) && es@[u].1 < VOL,
                forall|u: int| 0 <= u < t ==> rec_key(#[trigger] out@[u]) == chunk_key(es@[u].0)
                    && rec_local(out@[u]) == es@[u].1 && out@[u].id == es@[u].2,
            decreases es@.len() - t,
        {
            let (c, i, id) = es[t];
            assert(chunk_in_range(es@[t as int].0) && es@[t as int].1 < VOL);
            proof {
                lemma_block_of(c, i);
            }
            let x = c.0 * 64 + (i & 63u32) as i32;
            let y = c.1 * 64 + ((i >> 12u32) & 63u32) as i32;
            let z = c.2 * 64 + ((i >> 6u32) & 63u32) as i32;
            assert((x, y, z) == block_at(c, i));
            let ghost o0 = out@;
            out.push(Record { x, y, z, id });
            assert forall|u: int| 0 <= u < t + 1 implies rec_key(#[trigger] out@[u]) == chunk_key(es@[u].0)
                && rec_local(out@[u]) == es@[u].1 && out@[u].id == es@[u].2 by {
                if u < t {
                    assert(out@[u] == o0[u]);
                }
            }
            t += 1;
        }
        assert forall|u: int| 0 <= u < out@.len() implies #[trigger] entry_of(self.view(), rec_key(out@[u])).contains_key(
            rec_local(out@[u]),
        ) && entry_of(self.view(), rec_key(out@[u]))[rec_local(out@[u])] == out@[u].id by {
            assert(rec_key(out@[u]) == chunk_key(es@[u].0));
            assert(self.of_key(chunk_key(es@[u].0)).contains_key(es@[u].1));
        }
        assert forall|k: u128, i: u32|
            #[trigger] self.view().contains_key(k) && #[trigger] self.view()[k].contains_key(i) implies exists|u: int|
                0 <= u < out@.len() && rec_key(#[trigger] out@[u]) == k && rec_local(out@[u]) == i by {
            let u = choose|u: int| 0 <= u < es@.len() && chunk_key(#[trigger] es@[u].0) == k && es@[u].1 == i;
            assert(rec_key(out@[u]) == chunk_key(es@[u].0));
        }
        out
    }

    /// The edits of journal records, recorded in order.
    pub fn from_records(recs: &Vec<Record>) -> (e: Edits)
        ensures
            e.view() == replay(Map::empty(), recs@),
    {
        let mut e = Edits::new();
        let mut t: usize = 0;
        assert(recs@.take(0) =~= Seq::<Record>::empty());
        while t < recs.len()
            invariant
                t <= recs@.len(),
                e.view() == replay(Map::empty(), recs@.take(t as int)),
            decreases recs@.len() - t,
        {
            let r = recs[t];
            assert(recs@.take(t + 1).drop_last() =~= recs@.take(t as int));
            e.record((r.x, r.y, r.z), r.id);
            t += 1;
        }
        assert(recs@.take(recs@.len() as int) =~= recs@);
        e
    }
}


/// Journal order: by x, then z, then y.
pub open spec fn rec_le(a: Record, b: Record) -> bool {
    a.x < b.x || (a.x == b.x && (a.z < b.z || (a.z == b.z && a.y <= b.y)))
}

pub open spec fn sorted_records(s: Seq<Record>) -> bool {
    forall|i: int, j: int| 0 <= i < j < s.len() ==> rec_le(#[trigger] s[i], #[trigger] s[j])
}

/// `saved` holds the records `recs`, each as often, in journal order.
pub open spec fn saved_as(saved: Seq<Record>, recs: Seq<Record>) -> bool {
    saved.to_multiset() == recs.to_multiset() && sorted_records(saved)
}

/// A record's place in journal order: x, then z, then y.
fn journal_key(r: &Record) -> (k: (i32, i32, i32))
    ensures
        k == (r.x, r.z, r.y),
{
    (r.x, r.z, r.y)
}

/// Calls std's `slice::sort_unstable_by_key` with [`journal_key`]. Claimed, as its
/// documentation states: afterwards the vector holds the same records, each as often as
/// before, ascending by that key in tuple order. Which of two records with one key comes
/// first is not claimed.
#[verifier::external_body]
fn sort_records(v: &mut Vec<Record>)
    ensures
        saved_as(final(v)@, old(v)@),
{
    v.sort_unstable_by_key(|r| journal_key(r));
}

/// The bytes of a saved journal: the player, the bar and the records in journal order;
/// nothing when there are more records than a journal header can count.
pub fn save_bytes(recs: Vec<Record>, seed: i32, sea_level: i32, player: Option<PlayerState>, bar: Option<Bar>) -> (r: Option<Vec<u8>>)
    ensures
        r is None <==> recs@.len() > u32::MAX,
        r matches Some(b) ==> exists|saved: Seq<Record>|
            #[trigger] saved_as(saved, recs@) && b@ == encode_spec(seed, sea_level, player, bar, saved),
{
    if recs.len() > u32::MAX as usize {
        return None;
    }
    let mut saved = recs;
    sort_records(&mut saved);
    proof {
        saved@.to_multiset_ensures();
        recs@.to_multiset_ensures();
    }
    let b = encode(seed, sea_level, player, bar, saved.as_slice());
    Some(b)
}

/// A listing of the same records in another order lists the same edits.
proof fn lemma_listing_reordered(v: Map<u128, Map<u32, u16>>, recs: Seq<Record>, saved: Seq<Record>)
    requires
        lists(v, recs),
        saved.to_multiset() == recs.to_multiset(),
    ensures
        lists(v, saved),
{
    saved.to_multiset_ensures();
    recs.to_multiset_ensures();
    assert forall|t: int| 0 <= t < saved.len() implies #[trigger] entry_of(v, rec_key(saved[t])).contains_key(rec_local(saved[t]))
        && entry_of(v, rec_key(saved[t]))[rec_local(saved[t])] == saved[t].id by {
        assert(saved.contains(saved[t]));
        assert(saved.to_multiset().count(saved[t]) > 0);
        assert(recs.contains(saved[t]));
        let u = choose|u: int| 0 <= u < recs.len() && recs[u] == saved[t];
        assert(entry_of(v, rec_key(recs[u])).contains_key(rec_local(recs[u])));
    }
    assert forall|k: u128, i: u32| #[trigger] v.contains_key(k) && #[trigger] v[k].contains_key(i) implies exists|t: int|
        0 <= t < saved.len() && rec_key(#[trigger] saved[t]) == k && rec_local(saved[t]) == i by {
        let u = choose|u: int| 0 <= u < recs.len() && rec_key(#[trigger] recs[u]) == k && rec_local(recs[u]) == i;
        assert(recs.contains(recs[u]));
        assert(recs.to_multiset().count(recs[u]) > 0);
        assert(saved.contains(recs[u]));
        let t = choose|t: int| 0 <= t < saved.len() && saved[t] == recs[u];
        assert(rec_key(saved[t]) == k);
    }
}

/// Saving a session's edits and reading the bytes back gives the player, the bar, and records
/// whose replay is exactly those edits, with nothing recovered or torn: a load after a save
/// restores the session -- whenever the player and bar would pass their own checks.
pub proof fn law_saved_edits_load_back(
    v: Map<u128, Map<u32, u16>>,
    recs: Seq<Record>,
    saved: Seq<Record>,
    seed: i32,
    sea_level: i32,
    player: Option<PlayerState>,
    bar: Option<Bar>,
)
    requires
        lists(v, recs),
        no_empty_chunk(v),
        saved_as(saved, recs),
        recs.len() <= u32::MAX,
        player is Some ==> player->0.fault() is None,
        bar is Some ==> (BarState { slots: bar->0 }).fault() is None,
    ensures
        decode_spec(encode_spec(seed, sea_level, player, bar, saved), seed, sea_level)
            == Ok::<_, JournalError>((player, bar, saved, 0nat, 0nat)),
        replay(Map::empty(), saved) == v,
{
    saved.to_multiset_ensures();
    recs.to_multiset_ensures();
    law_journal_roundtrip(seed, sea_level, player, bar, saved);
    lemma_listing_reordered(v, recs, saved);
    law_replaying_a_listing_restores(v, saved);
}

} // verus!
