//! GPU buffers that mirror CPU-side pools: how a buffer grows, and which byte ranges a
//! frame's dirty element ranges are uploaded as.

use vstd::prelude::*;
use vstd::multiset::Multiset;

verus! {

/// The capacity a mirror starts with.
pub const MIN_CAP: u64 = 0x10_0000;
/// The capacity a wholesale buffer never goes below.
pub const MIN_DYN_CAP: u64 = 256;
/// Dirty ranges this close together are uploaded as one write.
pub const MERGE_GAP: u64 = 4096;
/// Past this many separate writes, one upload of the whole pool is cheaper.
pub const MAX_WRITES: usize = 512;

/// The capacity a buffer of `cap` bytes grows to, doubling, until it holds `needed`.
pub open spec fn grown(cap: nat, needed: nat) -> nat
    decreases if needed > cap { needed - cap } else { 0 },
    when cap > 0
{
    if cap >= needed {
        cap
    } else {
        grown(2 * cap, needed)
    }
}

proof fn lemma_grown_bounds(cap: nat, needed: nat)
    requires
        cap > 0,
    ensures
        grown(cap, needed) >= cap,
        grown(cap, needed) >= needed,
    decreases if needed > cap { needed - cap } else { 0 },
{
    if cap < needed {
        lemma_grown_bounds(2 * cap, needed);
    }
}

/// Double `cap` until it holds `needed` bytes.
pub fn grow_cap(cap: u64, needed: u64) -> (c: u64)
    requires
        cap > 0,
        grown(cap as nat, needed as nat) <= u64::MAX,
    ensures
        c == grown(cap as nat, needed as nat),
        c >= needed,
{
    proof {
        lemma_grown_bounds(cap as nat, needed as nat);
    }
    let mut c = cap;
    while c < needed
        invariant
            c > 0,
            grown(c as nat, needed as nat) == grown(cap as nat, needed as nat),
            grown(cap as nat, needed as nat) <= u64::MAX,
        decreases if needed > c { needed - c } else { 0 },
    {
        proof {
            lemma_grown_bounds(2 * c as nat, needed as nat);
        }
        c = c * 2;
    }
    c
}

/// Tuple order: by offset, then by length.
pub open spec fn range_le(a: (u32, u32), b: (u32, u32)) -> bool {
    a.0 < b.0 || (a.0 == b.0 && a.1 <= b.1)
}

pub open spec fn sorted_ranges(s: Seq<(u32, u32)>) -> bool {
    forall|i: int, j: int| 0 <= i < j < s.len() ==> range_le(#[trigger] s[i], #[trigger] s[j])
}

/// Calls std's `slice::sort_unstable` on `(offset, length)` pairs. Claimed, as its
/// documentation states: afterwards the vector holds the same pairs, each as often as
/// before, in ascending tuple order (by offset, then by length). Nothing here is proved of
/// the sort itself.
#[verifier::external_body]
fn sort_pairs(v: &mut Vec<(u32, u32)>)
    ensures
        final(v)@.to_multiset() == old(v)@.to_multiset(),
        sorted_ranges(final(v)@),
{
    v.sort_unstable();
}

/// The bytes of a dirty range of elements `elem` bytes wide.
pub open spec fn bytes_of(d: (u32, u32), elem: int) -> (int, int) {
    (d.0 * elem, d.0 * elem + d.1 * elem)
}

/// Byte ranges, in order, with each one that starts within [`MERGE_GAP`] of the end of the
/// run before it folded into that run.
pub open spec fn merged(rs: Seq<(int, int)>) -> Seq<(int, int)>
    decreases rs.len(),
{
    if rs.len() == 0 {
        Seq::empty()
    } else {
        let m = merged(rs.drop_last());
        let r = rs.last();
        if m.len() > 0 && r.0 <= m.last().1 + MERGE_GAP {
            let top = m.last();
            m.update(m.len() - 1, (top.0, if top.1 >= r.1 { top.1 } else { r.1 }))
        } else {
            m.push(r)
        }
    }
}

/// `x` rounded down to a multiple of four.
pub open spec fn down4(x: int) -> int {
    x - x % 4
}

/// The write a merged run turns into: clipped to the pool's `needed` bytes and widened to
/// four-byte alignment, none when nothing of it is left.
pub open spec fn write_of(r: (int, int), needed: int) -> Option<(int, int)> {
    let e = if r.1 <= needed { r.1 } else { needed };
    if e > r.0 {
        let e2 = down4(e + 3);
        Some((down4(r.0), if e2 <= needed { e2 } else { needed }))
    } else {
        None
    }
}

/// The writes of merged runs, in order, leaving out the empty ones.
pub open spec fn writes_of(ms: Seq<(int, int)>, needed: int) -> Seq<(int, int)>
    decreases ms.len(),
{
    if ms.len() == 0 {
        Seq::empty()
    } else {
        let w = writes_of(ms.drop_last(), needed);
        match write_of(ms.last(), needed) {
            Some(x) => w.push(x),
            None => w,
        }
    }
}

/// The byte ranges of a set of dirty element ranges, sorted.
pub open spec fn dirty_bytes(sorted: Seq<(u32, u32)>, elem: int) -> Seq<(int, int)> {
    sorted.map_values(|d: (u32, u32)| bytes_of(d, elem))
}

/// Which bytes of a pool of `needed` bytes to upload for its dirty element ranges: `None`
/// when there are so many separate runs that the whole pool goes up in one write, else
/// the writes. The dirty list is emptied.
pub fn upload_ranges(dirty: &mut Vec<(u32, u32)>, elem: u64, needed: u64) -> (r: Option<
    Vec<(u64, u64)>,
>)
    requires
        forall|k: int| 0 <= k < old(dirty)@.len() ==>
            (#[trigger] old(dirty)@[k]).0 as int * elem as int + old(dirty)@[k].1 as int * elem as int <= u64::MAX,
        needed <= u64::MAX - 3,
    ensures
        final(dirty)@.len() == 0,
        exists|sorted: Seq<(u32, u32)>|
            {
                &&& sorted.to_multiset() == old(dirty)@.to_multiset()
                &&& sorted_ranges(sorted)
                &&& #[trigger] merged(dirty_bytes(sorted, elem as int)).len() > MAX_WRITES ==> r
                    is None
                &&& merged(dirty_bytes(sorted, elem as int)).len() <= MAX_WRITES ==> r is Some
                    && r->0@.map_values(|w: (u64, u64)| (w.0 as int, w.1 as int)) == writes_of(
                    merged(dirty_bytes(sorted, elem as int)),
                    needed as int,
                )
            },
{
    let ghost d0 = dirty@;
    sort_pairs(dirty);
    let ghost sorted = dirty@;
    assert forall|k: int| 0 <= k < sorted.len() implies
        (#[trigger] sorted[k]).0 as int * elem as int + sorted[k].1 as int * elem as int <= u64::MAX by {
        sorted.to_multiset_ensures();
        d0.to_multiset_ensures();
        assert(sorted.contains(sorted[k]));
        assert(sorted.to_multiset().count(sorted[k]) > 0);
        assert(d0.to_multiset().count(sorted[k]) > 0);
        assert(d0.contains(sorted[k]));
    }
    let ghost bytes = dirty_bytes(sorted, elem as int);
    let mut m: Vec<(u64, u64)> = Vec::new();
    let mut i: usize = 0;
    while i < dirty.len()
        invariant
            i <= dirty@.len(),
            dirty@ == sorted,
            sorted_ranges(sorted),
            forall|k: int| 0 <= k < sorted.len() ==>
                (#[trigger] sorted[k]).0 as int * elem as int + sorted[k].1 as int * elem as int <= u64::MAX,
            bytes == dirty_bytes(sorted, elem as int),
            m@.map_values(|w: (u64, u64)| (w.0 as int, w.1 as int)) == merged(bytes.take(i as int)),
        decreases dirty@.len() - i,
    {
        let (off, len) = dirty[i];
        assert(sorted[i as int].0 as int * elem as int + sorted[i as int].1 as int * elem as int <= u64::MAX);
        assert(off as int * elem as int <= u64::MAX && len as int * elem as int <= u64::MAX) by (nonlinear_arith)
            requires
                off as int * elem as int + len as int * elem as int <= u64::MAX,
                off >= 0,
                len >= 0,
                elem >= 0,
        ;
        let s = off as u64 * elem;
        let e = s + len as u64 * elem;
        let ghost prev = m@.map_values(|w: (u64, u64)| (w.0 as int, w.1 as int));
        assert(bytes.take(i + 1).drop_last() =~= bytes.take(i as int));
        assert(bytes.take(i + 1).last() == (s as int, e as int));
        let n = m.len();
        if n > 0 && (s <= MERGE_GAP || s - MERGE_GAP <= m[n - 1].1) {
            let top = m[n - 1];
            let hi = if top.1 >= e { top.1 } else { e };
            m.set(n - 1, (top.0, hi));
            assert(m@.map_values(|w: (u64, u64)| (w.0 as int, w.1 as int)) =~= merged(
                bytes.take(i + 1),
            ));
        } else {
            m.push((s, e));
            assert(m@.map_values(|w: (u64, u64)| (w.0 as int, w.1 as int)) =~= merged(
                bytes.take(i + 1),
            ));
        }
        i += 1;
    }
    assert(bytes.take(dirty@.len() as int) =~= bytes);
    dirty.clear();
    if m.len() > MAX_WRITES {
        return None;
    }
    let ghost ms = merged(bytes);
    let mut out: Vec<(u64, u64)> = Vec::new();
    let mut j: usize = 0;
    while j < m.len()
        invariant
            j <= m@.len(),
            needed <= u64::MAX - 3,
            m@.map_values(|w: (u64, u64)| (w.0 as int, w.1 as int)) == ms,
            out@.map_values(|w: (u64, u64)| (w.0 as int, w.1 as int)) == writes_of(
                ms.take(j as int),
                needed as int,
            ),
        decreases m@.len() - j,
    {
        let (s, e) = m[j];
        let e = if e <= needed { e } else { needed };
        assert(ms.take(j + 1).drop_last() =~= ms.take(j as int));
        assert(ms.take(j + 1).last() == ms[j as int]);
        assert(ms[j as int] == (s as int, m@[j as int].1 as int));
        if e > s {
            let s4 = s & !3u64;
            let e3 = e + 3;
            let e4 = e3 & !3u64;
            assert(s4 == s - s % 4 && e4 == e3 - e3 % 4) by (bit_vector)
                requires
                    s4 == s & !3u64,
                    e4 == e3 & !3u64,
            ;
            let e4 = if e4 <= needed { e4 } else { needed };
            out.push((s4, e4));
            assert(out@.map_values(|w: (u64, u64)| (w.0 as int, w.1 as int)) =~= writes_of(
                ms.take(j + 1),
                needed as int,
            ));
        } else {
            assert(out@.map_values(|w: (u64, u64)| (w.0 as int, w.1 as int)) =~= writes_of(
                ms.take(j + 1),
                needed as int,
            ));
        }
        j += 1;
    }
    assert(ms.take(m@.len() as int) =~= ms);
    Some(out)
}

/// Byte `b` lies in the range `r`.
pub open spec fn in_run(r: (int, int), b: int) -> bool {
    r.0 <= b < r.1
}

/// Every byte range of `rs` lies in some run of `merged(rs)`, and no run starts after the
/// last range does, when the ranges come in order of their starts.
proof fn lemma_merged_covers(rs: Seq<(int, int)>)
    requires
        forall|i: int, j: int| 0 <= i < j < rs.len() ==> (#[trigger] rs[i]).0 <= (#[trigger] rs[j]).0,
    ensures
        forall|k: int, b: int|
            0 <= k < rs.len() && #[trigger] in_run(rs[k], b) ==> exists|m: int|
                0 <= m < merged(rs).len() && #[trigger] in_run(merged(rs)[m], b),
        rs.len() > 0 ==> forall|m: int| 0 <= m < merged(rs).len() ==> (#[trigger] merged(rs)[m]).0 <= rs.last().0,
    decreases rs.len(),
{
    if rs.len() > 0 {
        let p = rs.drop_last();
        lemma_merged_covers(p);
        let mp = merged(p);
        let r = rs.last();
        let mr = merged(rs);
        assert forall|k: int, b: int|
            0 <= k < rs.len() && #[trigger] in_run(rs[k], b) implies exists|m: int|
                0 <= m < mr.len() && #[trigger] in_run(mr[m], b) by {
            if k < rs.len() - 1 {
                assert(p[k] == rs[k]);
                assert(in_run(p[k], b));
                let m = choose|m: int| 0 <= m < mp.len() && #[trigger] in_run(mp[m], b);
                assert(in_run(mr[m], b));
            } else {
                if mp.len() > 0 && r.0 <= mp.last().1 + MERGE_GAP {
                    assert(mp.last().0 <= p.last().0);
                    assert(p.last().0 <= r.0);
                    assert(in_run(mr[mr.len() - 1], b));
                } else {
                    assert(mr[mr.len() - 1] == r);
                    assert(in_run(mr[mr.len() - 1], b));
                }
            }
        }
        assert forall|m: int| 0 <= m < mr.len() implies (#[trigger] mr[m]).0 <= rs.last().0 by {
            if m < mp.len() {
                assert(mp[m].0 <= p.last().0);
                assert(p.last().0 <= r.0);
            }
        }
    }
}

/// A byte of a merged run below `needed` is uploaded by the write that run turns into.
proof fn lemma_writes_cover(ms: Seq<(int, int)>, needed: int, m: int, b: int)
    requires
        0 <= m < ms.len(),
        in_run(ms[m], b),
        0 <= b < needed,
    ensures
        exists|w: int| 0 <= w < writes_of(ms, needed).len() && #[trigger] in_run(writes_of(ms, needed)[w], b),
    decreases ms.len(),
{
    let p = ms.drop_last();
    let wp = writes_of(p, needed);
    let ws = writes_of(ms, needed);
    if m < ms.len() - 1 {
        assert(p[m] == ms[m]);
        lemma_writes_cover(p, needed, m, b);
        let w = choose|w: int| 0 <= w < wp.len() && #[trigger] in_run(wp[w], b);
        assert(ws[w] == wp[w]);
        assert(in_run(ws[w], b));
    } else {
        let r = ms[m];
        let e = if r.1 <= needed { r.1 } else { needed };
        assert(e > r.0);
        assert(down4(r.0) <= r.0 && down4(e + 3) >= e) by {
            vstd::arithmetic::div_mod::lemma_mod_bound(r.0, 4);
            vstd::arithmetic::div_mod::lemma_mod_bound(e + 3, 4);
        }
        assert(ws[ws.len() - 1] == write_of(r, needed)->0);
        assert(in_run(ws[ws.len() - 1], b));
    }
}

/// An upload never leaves a dirty byte stale: every byte of every dirty element range that
/// lies inside the pool falls in one of the writes, when the writes are not replaced by a
/// whole upload.
pub proof fn law_writes_cover_dirty(sorted: Seq<(u32, u32)>, elem: int, needed: int, k: int, b: int)
    requires
        sorted_ranges(sorted),
        elem >= 0,
        0 <= k < sorted.len(),
        in_run(bytes_of(sorted[k], elem), b),
        b < needed,
    ensures
        exists|w: int|
            0 <= w < writes_of(merged(dirty_bytes(sorted, elem)), needed).len() && #[trigger] in_run(
                writes_of(merged(dirty_bytes(sorted, elem)), needed)[w],
                b,
            ),
{
    let rs = dirty_bytes(sorted, elem);
    assert forall|i: int, j: int| 0 <= i < j < rs.len() implies (#[trigger] rs[i]).0 <= (
    #[trigger] rs[j]).0 by {
        assert(range_le(sorted[i], sorted[j]));
        assert(sorted[i].0 * elem <= sorted[j].0 * elem) by (nonlinear_arith)
            requires
                sorted[i].0 <= sorted[j].0,
                elem >= 0,
        ;
    }
    lemma_merged_covers(rs);
    assert(rs[k] == bytes_of(sorted[k], elem));
    assert(in_run(rs[k], b));
    let ms = merged(rs);
    let m = choose|m: int| 0 <= m < ms.len() && #[trigger] in_run(ms[m], b);
    assert(b >= 0) by (nonlinear_arith)
        requires
            sorted[k].0 * elem <= b,
            elem >= 0,
            sorted[k].0 >= 0,
    ;
    lemma_writes_cover(ms, needed, m, b);
}

} // verus!
