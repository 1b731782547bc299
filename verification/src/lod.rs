//! Chunk residency as the level-of-detail planner sees it, and how the drawn chunks spread
//! over the levels.

use vstd::prelude::*;

verus! {

#[derive(Clone, Copy, PartialEq, Eq, Debug)]
pub enum Residency {
    Absent,
    Empty,
    Solid,
}

impl Residency {
    pub fn is_resident(self) -> (b: bool)
        ensures
            b <==> !(self is Absent),
    {
        !matches!(self, Residency::Absent)
    }
}

/// How a coarse chunk dissolves into its children across the fade band.
#[derive(Clone, Copy, Debug, PartialEq, Eq, Structural)]
pub enum FadeSchedule {
    Smoothstep,
    Smootherstep,
}

/// How many of `lods` equal `l`.
pub open spec fn lod_count(lods: Seq<u8>, l: int) -> nat
    decreases lods.len(),
{
    if lods.len() == 0 {
        0
    } else {
        lod_count(lods.drop_last(), l) + if lods.last() == l { 1nat } else { 0nat }
    }
}

/// How many drawn chunks sit at each level `0..=max_lod`, given each chunk's level.
pub fn histogram(lods: &Vec<u8>, max_lod: u8) -> (h: Vec<usize>)
    requires
        forall|i: int| 0 <= i < lods@.len() ==> #[trigger] lods@[i] <= max_lod,
    ensures
        h@.len() == max_lod as int + 1,
        forall|l: int| 0 <= l <= max_lod ==> #[trigger] h@[l] == lod_count(lods@, l),
{
    let mut h: Vec<usize> = Vec::new();
    let n: usize = max_lod as usize + 1;
    while h.len() < n
        invariant
            n == max_lod as int + 1,
            h@.len() <= n,
            forall|l: int| 0 <= l < h@.len() ==> #[trigger] h@[l] == 0,
        decreases n - h@.len(),
    {
        h.push(0);
    }
    let mut i: usize = 0;
    assert(lods@.take(0) =~= Seq::<u8>::empty());
    while i < lods.len()
        invariant
            i <= lods@.len(),
            h@.len() == max_lod as int + 1,
            forall|j: int| 0 <= j < lods@.len() ==> #[trigger] lods@[j] <= max_lod,
            forall|l: int| 0 <= l <= max_lod ==> #[trigger] h@[l] == lod_count(lods@.take(i as int), l),
            forall|l: int| 0 <= l <= max_lod ==> #[trigger] h@[l] <= i,
        decreases lods@.len() - i,
    {
        let l = lods[i] as usize;
        assert(lods@.take(i + 1).drop_last() =~= lods@.take(i as int));
        assert(lods@.take(i + 1).last() == lods@[i as int]);
        let c = h[l];
        h.set(l, c + 1);
        i += 1;
    }
    assert(lods@.take(lods@.len() as int) =~= lods@);
    h
}

/// The counts of levels `0..=m` together.
pub open spec fn counts_through(lods: Seq<u8>, m: int) -> nat
    decreases m + 1,
{
    if m < 0 {
        0
    } else {
        counts_through(lods, m - 1) + lod_count(lods, m)
    }
}

proof fn lemma_counts_push(lods: Seq<u8>, x: u8, m: int)
    ensures
        counts_through(lods.push(x), m) == counts_through(lods, m) + if 0 <= x <= m { 1nat } else { 0nat },
    decreases m + 1,
{
    assert(lods.push(x).drop_last() =~= lods);
    if m >= 0 {
        lemma_counts_push(lods, x, m - 1);
    }
}

/// When every chunk's level is at most `max_lod`, the histogram counts every chunk once.
pub proof fn law_histogram_counts_every_chunk(lods: Seq<u8>, max_lod: u8)
    requires
        forall|i: int| 0 <= i < lods.len() ==> #[trigger] lods[i] <= max_lod,
    ensures
        counts_through(lods, max_lod as int) == lods.len(),
    decreases lods.len(),
{
    if lods.len() == 0 {
        assert(lods =~= Seq::<u8>::empty());
        lemma_counts_empty(max_lod as int);
    } else {
        let rest = lods.drop_last();
        assert forall|i: int| 0 <= i < rest.len() implies #[trigger] rest[i] <= max_lod by {
            assert(rest[i] == lods[i]);
        }
        law_histogram_counts_every_chunk(rest, max_lod);
        assert(rest.push(lods.last()) =~= lods);
        assert(lods[lods.len() - 1] <= max_lod);
        lemma_counts_push(rest, lods.last(), max_lod as int);
    }
}

proof fn lemma_counts_empty(m: int)
    ensures
        counts_through(Seq::<u8>::empty(), m) == 0,
    decreases m + 1,
{
    if m >= 0 {
        lemma_counts_empty(m - 1);
    }
}

} // verus!
