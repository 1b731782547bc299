//! The edit journal's file format: a little-endian header, an optional player block, an
//! optional hotbar block, then one fixed-size record per edited voxel.
//!
//! A session killed mid-write leaves records past the count its header carries, and a
//! half-written record at the very end; a journal marked as appended to recovers the
//! former and drops the latter rather than refusing the file.

use vstd::prelude::*;
use crate::block::{self, Bar, BlockId, SLOTS};
use crate::text::{chars_of, is_digit, range_views, split_on, split_ranges, trim, trim_range};

verus! {

/// `b"VXJ1"` read as a little-endian word.
pub const MAGIC: u32 = 0x314A_5856;
pub const VERSION: u32 = 3;

pub const FLAG_PLAYER: u32 = 1;
pub const FLAG_APPEND: u32 = 2;
pub const FLAG_BAR: u32 = 4;

/// Bytes of each part of the file.
pub const HEAD_BYTES: usize = 24;
pub const PLAYER_BYTES: usize = 32;
pub const BAR_BYTES: usize = 24;
pub const RECORD_BYTES: usize = 16;

/// Offsets, within the header, of the two words the append log rewrites in place.
pub const COUNT_AT: u64 = 16;
pub const FLAGS_AT: u64 = 20;

#[derive(Clone, Copy, Debug, PartialEq, Eq)]
pub struct Header {
    pub magic: u32,
    pub version: u32,
    pub seed: i32,
    pub sea_level: i32,
    pub count: u32,
    pub flags: u32,
}

/// The player's position, look and selection. The five angles and coordinates are kept
/// as the bit patterns of the `f32`s they are, which is what the file holds.
#[derive(Clone, Copy, Debug, PartialEq, Eq)]
pub struct PlayerState {
    pub pos: [u32; 3],
    pub yaw: u32,
    pub pitch: u32,
    pub hotbar: u32,
    pub fly: u32,
}

#[derive(Clone, Copy, Debug, PartialEq, Eq)]
pub struct BarState {
    pub slots: Bar,
}

/// One edit: the block now at a world position.
#[derive(Clone, Copy, Debug, PartialEq, Eq)]
pub struct Record {
    pub x: i32,
    pub y: i32,
    pub z: i32,
    pub id: BlockId,
}

/// Why a journal file was refused.
#[derive(Clone, Copy, Debug, PartialEq, Eq)]
pub enum JournalError {
    /// Shorter than a header.
    TooShort,
    /// The magic word is wrong.
    NotAJournal,
    /// A version this build does not read.
    Version(u32),
    /// Written for another seed or sea level.
    WrongWorld { seed: i32, sea_level: i32 },
    /// The header claims a player or bar block the file is too short to hold.
    ExtrasTruncated,
    /// The player's position or look angle is not a finite number.
    PlayerNotFinite,
    /// The player selects a hotbar slot this build does not have.
    HotbarSlot(u32),
    /// A bar slot holds a block that may not be placed there.
    BarSlot { slot: usize, id: BlockId },
    /// The record area matches neither the header's count nor an appended log.
    CountMismatch { count: u32, carried: usize },
}

/// What a journal file holds.
pub struct Journal {
    pub player: Option<PlayerState>,
    pub bar: Option<Bar>,
    pub records: Vec<Record>,
    /// Records past the header's count, recovered from a killed session.
    pub recovered: usize,
    /// Trailing bytes of a half-written record, dropped.
    pub torn: usize,
}

// ------------------------------------------------------------------ little-endian words

pub open spec fn le32(v: u32) -> Seq<u8> {
    seq![(v & 0xff) as u8, ((v >> 8u32) & 0xff) as u8, ((v >> 16u32) & 0xff) as u8, ((v >> 24u32) & 0xff) as u8]
}

pub open spec fn le16(v: u16) -> Seq<u8> {
    seq![(v & 0xff) as u8, ((v >> 8u16) & 0xff) as u8]
}

pub open spec fn u32_at(b: Seq<u8>, off: int) -> u32 {
    ((b[off] as u32) | ((b[off + 1] as u32) << 8u32) | ((b[off + 2] as u32) << 16u32) | ((b[off + 3] as u32) << 24u32)) as u32
}

pub open spec fn u16_at(b: Seq<u8>, off: int) -> u16 {
    ((b[off] as u16) | ((b[off + 1] as u16) << 8u16)) as u16
}

proof fn lemma_le32(v: u32)
    ensures
        u32_at(le32(v), 0) == v,
{
    let (b0, b1, b2, b3) = ((v & 0xff) as u8, ((v >> 8u32) & 0xff) as u8, ((v >> 16u32) & 0xff) as u8, ((v >> 24u32) & 0xff) as u8);
    assert(((b0 as u32) | ((b1 as u32) << 8u32) | ((b2 as u32) << 16u32) | ((b3 as u32) << 24u32)) == v) by (bit_vector)
        requires
            b0 == (v & 0xff) as u8,
            b1 == ((v >> 8u32) & 0xff) as u8,
            b2 == ((v >> 16u32) & 0xff) as u8,
            b3 == ((v >> 24u32) & 0xff) as u8,
    ;
}

proof fn lemma_le16(v: u16)
    ensures
        u16_at(le16(v), 0) == v,
{
    let (b0, b1) = ((v & 0xff) as u8, ((v >> 8u16) & 0xff) as u8);
    assert(((b0 as u16) | ((b1 as u16) << 8u16)) == v) by (bit_vector)
        requires
            b0 == (v & 0xff) as u8,
            b1 == ((v >> 8u16) & 0xff) as u8,
    ;
}

proof fn lemma_i32_bits(v: i32)
    ensures
        (v as u32) as i32 == v,
{
    assert((v as u32) as i32 == v) by (bit_vector);
}

fn read_u32(b: &[u8], off: usize) -> (v: u32)
    requires
        off + 4 <= b@.len(),
    ensures
        v == u32_at(b@, off as int),
{
    (b[off] as u32) | ((b[off + 1] as u32) << 8) | ((b[off + 2] as u32) << 16) | ((b[off + 3] as u32) << 24)
}

fn read_u16(b: &[u8], off: usize) -> (v: u16)
    requires
        off + 2 <= b@.len(),
    ensures
        v == u16_at(b@, off as int),
{
    (b[off] as u16) | ((b[off + 1] as u16) << 8)
}

fn push_u32(out: &mut Vec<u8>, v: u32)
    ensures
        final(out)@ == old(out)@ + le32(v),
{
    out.push((v & 0xff) as u8);
    out.push(((v >> 8) & 0xff) as u8);
    out.push(((v >> 16) & 0xff) as u8);
    out.push(((v >> 24) & 0xff) as u8);
    assert(final(out)@ =~= old(out)@ + le32(v));
}

fn push_u16(out: &mut Vec<u8>, v: u16)
    ensures
        final(out)@ == old(out)@ + le16(v),
{
    out.push((v & 0xff) as u8);
    out.push(((v >> 8) & 0xff) as u8);
    assert(final(out)@ =~= old(out)@ + le16(v));
}

// ------------------------------------------------------------------ the parts

pub open spec fn header_bytes(h: Header) -> Seq<u8> {
    le32(h.magic) + le32(h.version) + le32(h.seed as u32) + le32(h.sea_level as u32) + le32(h.count) + le32(h.flags)
}

pub open spec fn header_at(b: Seq<u8>) -> Header {
    Header {
        magic: u32_at(b, 0),
        version: u32_at(b, 4),
        seed: u32_at(b, 8) as i32,
        sea_level: u32_at(b, 12) as i32,
        count: u32_at(b, 16),
        flags: u32_at(b, 20),
    }
}

pub open spec fn player_bytes(p: PlayerState) -> Seq<u8> {
    le32(p.pos[0]) + le32(p.pos[1]) + le32(p.pos[2]) + le32(p.yaw) + le32(p.pitch) + le32(p.hotbar) + le32(p.fly) + le32(0)
}

pub open spec fn player_at(b: Seq<u8>, off: int) -> PlayerState {
    PlayerState {
        pos: [u32_at(b, off), u32_at(b, off + 4), u32_at(b, off + 8)],
        yaw: u32_at(b, off + 12),
        pitch: u32_at(b, off + 16),
        hotbar: u32_at(b, off + 20),
        fly: u32_at(b, off + 24),
    }
}

pub open spec fn bar_bytes(s: Bar) -> Seq<u8> {
    le16(s[0]) + le16(s[1]) + le16(s[2]) + le16(s[3]) + le16(s[4]) + le16(s[5]) + le16(s[6]) + le16(s[7])
        + le16(s[8]) + le16(s[9]) + le16(0) + le16(0)
}

pub open spec fn bar_at(b: Seq<u8>, off: int) -> Bar {
    [u16_at(b, off), u16_at(b, off + 2), u16_at(b, off + 4), u16_at(b, off + 6), u16_at(b, off + 8), u16_at(b, off + 10),
        u16_at(b, off + 12), u16_at(b, off + 14), u16_at(b, off + 16), u16_at(b, off + 18)]
}

pub open spec fn record_bytes(r: Record) -> Seq<u8> {
    le32(r.x as u32) + le32(r.y as u32) + le32(r.z as u32) + le16(r.id) + le16(0)
}

pub open spec fn record_at(b: Seq<u8>, off: int) -> Record {
    Record { x: u32_at(b, off) as i32, y: u32_at(b, off + 4) as i32, z: u32_at(b, off + 8) as i32, id: u16_at(b, off + 12) }
}

pub open spec fn records_bytes(rs: Seq<Record>) -> Seq<u8>
    decreases rs.len(),
{
    if rs.len() == 0 {
        Seq::empty()
    } else {
        records_bytes(rs.drop_last()) + record_bytes(rs.last())
    }
}

/// The `n` records starting at byte `off`.
pub open spec fn records_at(b: Seq<u8>, off: int, n: nat) -> Seq<Record> {
    Seq::new(n, |k: int| record_at(b, off + 16 * k))
}

/// Bytes the player and bar blocks take for a header's flags.
pub open spec fn extras_spec(flags: u32) -> nat {
    (if flags & FLAG_PLAYER != 0 { PLAYER_BYTES as nat } else { 0nat }) + (if flags & FLAG_BAR != 0 {
        BAR_BYTES as nat
    } else {
        0nat
    })
}

pub fn extras_bytes(flags: u32) -> (n: usize)
    ensures
        n == extras_spec(flags),
{
    let mut n: usize = 0;
    if flags & FLAG_PLAYER != 0 {
        n += PLAYER_BYTES;
    }
    if flags & FLAG_BAR != 0 {
        n += BAR_BYTES;
    }
    n
}

/// Where an append log resumes: the header and extras of a log with `flags`, then the
/// whole records of a file `file_len` bytes long (a file shorter than its header counts as
/// holding none). Returns the length the file is cut back to and the whole records kept.
pub open spec fn log_extent_spec(file_len: nat, flags: u32) -> (nat, nat) {
    let body: int = HEAD_BYTES + extras_spec(flags);
    let len: int = if file_len >= body { file_len as int } else { body };
    let whole = ((len - body) / (RECORD_BYTES as int)) as nat;
    ((body + whole * RECORD_BYTES) as nat, whole)
}

pub fn log_extent(file_len: u64, flags: u32) -> (r: (u64, u64))
    ensures
        (r.0 as nat, r.1 as nat) == log_extent_spec(file_len as nat, flags),
{
    let body = (HEAD_BYTES + extras_bytes(flags)) as u64;
    let len = if file_len >= body { file_len } else { body };
    let whole = (len - body) / (RECORD_BYTES as u64);
    (body + whole * (RECORD_BYTES as u64), whole)
}

/// An append log cut back to its last whole record keeps every whole record and drops
/// only the torn tail: the kept length is never past the file's, and less than one record
/// short of it.
pub proof fn law_log_extent_drops_only_the_torn_tail(file_len: nat, flags: u32)
    requires
        file_len >= HEAD_BYTES + extras_spec(flags),
    ensures
        log_extent_spec(file_len, flags).0 <= file_len < log_extent_spec(file_len, flags).0 + RECORD_BYTES,
{
}

/// An `f32` bit pattern is a finite number: its exponent is not all ones.
pub open spec fn finite_bits(bits: u32) -> bool {
    (bits >> 23u32) & 0xff != 0xff
}

fn is_finite_bits(bits: u32) -> (b: bool)
    ensures
        b == finite_bits(bits),
{
    (bits >> 23) & 0xff != 0xff
}

impl PlayerState {
    /// The reason a stored player cannot be restored, if there is one.
    pub open spec fn fault(&self) -> Option<JournalError> {
        if !(finite_bits(self.pos[0]) && finite_bits(self.pos[1]) && finite_bits(self.pos[2]) && finite_bits(self.yaw)
            && finite_bits(self.pitch)) {
            Some(JournalError::PlayerNotFinite)
        } else if self.hotbar >= SLOTS {
            Some(JournalError::HotbarSlot(self.hotbar))
        } else {
            None
        }
    }

    pub fn check(&self) -> (r: Result<(), JournalError>)
        ensures
            r matches Err(e) ==> self.fault() == Some(e),
            r is Ok <==> self.fault() is None,
    {
        if !(is_finite_bits(self.pos[0]) && is_finite_bits(self.pos[1]) && is_finite_bits(self.pos[2])
            && is_finite_bits(self.yaw) && is_finite_bits(self.pitch)) {
            return Err(JournalError::PlayerNotFinite);
        }
        if self.hotbar as usize >= SLOTS {
            return Err(JournalError::HotbarSlot(self.hotbar));
        }
        Ok(())
    }
}

/// The first bar slot, from slot `from` on, that holds a block which may not sit in a bar.
pub open spec fn first_refused(slots: Bar, from: int) -> Option<int>
    decreases SLOTS - from,
{
    if from >= SLOTS {
        None
    } else if !block::placeable(slots[from]) {
        Some(from)
    } else {
        first_refused(slots, from + 1)
    }
}

impl BarState {
    pub fn new(slots: Bar) -> (b: BarState)
        ensures
            b.slots == slots,
    {
        BarState { slots }
    }

    /// The reason a stored bar cannot be used, if there is one: the first slot holding a
    /// block that may not be placed.
    pub open spec fn fault(&self) -> Option<JournalError> {
        match first_refused(self.slots, 0) {
            Some(i) => Some(JournalError::BarSlot { slot: i as usize, id: self.slots[i] }),
            None => None,
        }
    }

    pub fn check(&self) -> (r: Result<(), JournalError>)
        ensures
            r matches Err(e) ==> self.fault() == Some(e),
            r is Ok <==> self.fault() is None,
    {
        let mut i: usize = 0;
        while i < SLOTS
            invariant
                i <= SLOTS,
                first_refused(self.slots, 0) == first_refused(self.slots, i as int),
            decreases SLOTS - i,
        {
            if block::bar_slot_refusal(self.slots[i]).is_some() {
                return Err(JournalError::BarSlot { slot: i, id: self.slots[i] });
            }
            i += 1;
        }
        Ok(())
    }
}


// ------------------------------------------------------------------ the whole file

#[verifier::opaque]
/// What a journal file decodes to: the player, the bar, the records, how many records
/// were recovered past the header's count, and how many torn bytes were dropped.
pub open spec fn decode_spec(b: Seq<u8>, seed: i32, sea_level: i32) -> Result<
    (Option<PlayerState>, Option<Bar>, Seq<Record>, nat, nat),
    JournalError,
> {
    if b.len() < HEAD_BYTES {
        Err(JournalError::TooShort)
    } else {
        let h = header_at(b);
        if h.magic != MAGIC {
            Err(JournalError::NotAJournal)
        } else if h.version == 0 || h.version > VERSION {
            Err(JournalError::Version(h.version))
        } else if h.seed != seed || h.sea_level != sea_level {
            Err(JournalError::WrongWorld { seed: h.seed, sea_level: h.sea_level })
        } else {
            let rest = b.len() - HEAD_BYTES;
            let ex = extras_spec(h.flags);
            if rest < ex {
                Err(JournalError::ExtrasTruncated)
            } else {
                let player = if h.flags & FLAG_PLAYER != 0 { Some(player_at(b, HEAD_BYTES as int)) } else { None };
                let bar_off = HEAD_BYTES + if h.flags & FLAG_PLAYER != 0 { PLAYER_BYTES as int } else { 0int };
                let bar = if h.flags & FLAG_BAR != 0 { Some(bar_at(b, bar_off)) } else { None };
                if player is Some && player->0.fault() is Some {
                    Err(player->0.fault()->0)
                } else if bar is Some && (BarState { slots: bar->0 }).fault() is Some {
                    Err((BarState { slots: bar->0 }).fault()->0)
                } else {
                    let body = rest - ex;
                    let want = h.count * RECORD_BYTES;
                    if body == want || (h.flags & FLAG_APPEND != 0 && body > want) {
                        let whole = body / RECORD_BYTES as int;
                        Ok((player, bar, records_at(b, HEAD_BYTES + ex, whole as nat), (whole - h.count) as nat,
                            (body - whole * RECORD_BYTES) as nat))
                    } else {
                        Err(JournalError::CountMismatch { count: h.count, carried: body as usize })
                    }
                }
            }
        }
    }
}

fn read_player(b: &[u8], off: usize) -> (p: PlayerState)
    requires
        off + PLAYER_BYTES <= b@.len(),
    ensures
        p == player_at(b@, off as int),
{
    let _n = b.len();
    PlayerState {
        pos: [read_u32(b, off), read_u32(b, off + 4), read_u32(b, off + 8)],
        yaw: read_u32(b, off + 12),
        pitch: read_u32(b, off + 16),
        hotbar: read_u32(b, off + 20),
        fly: read_u32(b, off + 24),
    }
}

fn read_bar(b: &[u8], off: usize) -> (s: Bar)
    requires
        off + BAR_BYTES <= b@.len(),
    ensures
        s == bar_at(b@, off as int),
{
    let _n = b.len();
    [read_u16(b, off), read_u16(b, off + 2), read_u16(b, off + 4), read_u16(b, off + 6), read_u16(b, off + 8),
        read_u16(b, off + 10), read_u16(b, off + 12), read_u16(b, off + 14), read_u16(b, off + 16), read_u16(b, off + 18)]
}

/// Decode a journal file for the world of `seed` and `sea_level`.
pub fn decode(b: &[u8], seed: i32, sea_level: i32) -> (r: Result<Journal, JournalError>)
    ensures
        match (r, decode_spec(b@, seed, sea_level)) {
            (Ok(j), Ok((player, bar, records, recovered, torn))) => j.player == player && j.bar == bar
                && j.records@ == records && j.recovered == recovered && j.torn == torn,
            (Err(e), Err(f)) => e == f,
            _ => false,
        },
{
    reveal(decode_spec);
    if b.len() < HEAD_BYTES {
        return Err(JournalError::TooShort);
    }
    let magic = read_u32(b, 0);
    let version = read_u32(b, 4);
    let hseed = #[verifier::truncate] (read_u32(b, 8) as i32);
    let hsea = #[verifier::truncate] (read_u32(b, 12) as i32);
    let count = read_u32(b, 16);
    let flags = read_u32(b, 20);
    if magic != MAGIC {
        return Err(JournalError::NotAJournal);
    }
    if version == 0 || version > VERSION {
        return Err(JournalError::Version(version));
    }
    if hseed != seed || hsea != sea_level {
        return Err(JournalError::WrongWorld { seed: hseed, sea_level: hsea });
    }
    let rest = b.len() - HEAD_BYTES;
    let ex = extras_bytes(flags);
    if rest < ex {
        return Err(JournalError::ExtrasTruncated);
    }
    let player = if flags & FLAG_PLAYER != 0 { Some(read_player(b, HEAD_BYTES)) } else { None };
    let bar_off = HEAD_BYTES + if flags & FLAG_PLAYER != 0 { PLAYER_BYTES } else { 0 };
    let bar = if flags & FLAG_BAR != 0 { Some(read_bar(b, bar_off)) } else { None };
    if let Some(p) = &player {
        if let Err(e) = p.check() {
            return Err(e);
        }
    }
    if let Some(s) = &bar {
        if let Err(e) = BarState::new(*s).check() {
            return Err(e);
        }
    }
    let body = rest - ex;
    let want: u64 = count as u64 * RECORD_BYTES as u64;
    let appended = flags & FLAG_APPEND != 0;
    if !(body as u64 == want || (appended && body as u64 > want)) {
        return Err(JournalError::CountMismatch { count, carried: body });
    }
    let whole = body / RECORD_BYTES;
    let start = HEAD_BYTES + ex;
    let blen = b.len();
    let mut records: Vec<Record> = Vec::new();
    let mut k: usize = 0;
    while k < whole
        invariant
            k <= whole,
            whole == body / RECORD_BYTES,
            start + body == b@.len(),
            b@.len() == blen,
            records@ == records_at(b@, start as int, k as nat),
        decreases whole - k,
    {
        let off = start + k * RECORD_BYTES;
        assert(off + 16 <= b@.len()) by (nonlinear_arith)
            requires
                k < whole,
                whole == body / 16,
                off == start + k * 16,
                start + body == b@.len(),
        ;
        let r = Record {
            x: #[verifier::truncate] (read_u32(b, off) as i32),
            y: #[verifier::truncate] (read_u32(b, off + 4) as i32),
            z: #[verifier::truncate] (read_u32(b, off + 8) as i32),
            id: read_u16(b, off + 12),
        };
        records.push(r);
        assert(records@ =~= records_at(b@, start as int, (k + 1) as nat));
        k += 1;
    }
    Ok(Journal { player, bar, records, recovered: whole - count as usize, torn: body - whole * RECORD_BYTES })
}

/// The flags a file carries for what it holds.
pub open spec fn flags_for(player: Option<PlayerState>, bar: Option<Bar>) -> u32 {
    ((if player is Some { FLAG_PLAYER } else { 0u32 }) | (if bar is Some { FLAG_BAR } else { 0u32 })) as u32
}

/// The file a journal of these contents is written as.
#[verifier::opaque]
pub open spec fn encode_spec(seed: i32, sea_level: i32, player: Option<PlayerState>, bar: Option<Bar>, records: Seq<Record>) -> Seq<u8> {
    header_bytes(Header { magic: MAGIC, version: VERSION, seed, sea_level, count: records.len() as u32, flags: flags_for(player, bar) })
        + (if player is Some { player_bytes(player->0) } else { Seq::empty() })
        + (if bar is Some { bar_bytes(bar->0) } else { Seq::empty() })
        + records_bytes(records)
}

/// Write a journal: header, player, bar, then the records in the order given.
#[verifier::spinoff_prover]
#[verifier::rlimit(40)]
pub fn encode(seed: i32, sea_level: i32, player: Option<PlayerState>, bar: Option<Bar>, records: &[Record]) -> (out: Vec<u8>)
    requires
        records@.len() <= u32::MAX,
    ensures
        out@ == encode_spec(seed, sea_level, player, bar, records@),
{
    let flags: u32 = (if player.is_some() { FLAG_PLAYER } else { 0 }) | (if bar.is_some() { FLAG_BAR } else { 0 });
    let mut out: Vec<u8> = Vec::new();
    push_u32(&mut out, MAGIC);
    push_u32(&mut out, VERSION);
    push_u32(&mut out, #[verifier::truncate] (seed as u32));
    push_u32(&mut out, #[verifier::truncate] (sea_level as u32));
    push_u32(&mut out, records.len() as u32);
    push_u32(&mut out, flags);
    let ghost head = out@;
    if let Some(p) = player {
        push_u32(&mut out, p.pos[0]);
        push_u32(&mut out, p.pos[1]);
        push_u32(&mut out, p.pos[2]);
        push_u32(&mut out, p.yaw);
        push_u32(&mut out, p.pitch);
        push_u32(&mut out, p.hotbar);
        push_u32(&mut out, p.fly);
        push_u32(&mut out, 0);
    }
    let ghost with_player = out@;
    if let Some(s) = bar {
        let mut i: usize = 0;
        while i < SLOTS
            invariant
                i <= SLOTS,
                out@ == with_player + bar_bytes_upto(s, i as int),
            decreases SLOTS - i,
        {
            push_u16(&mut out, s[i]);
            i += 1;
        }
        push_u16(&mut out, 0);
        push_u16(&mut out, 0);
        assert(bar_bytes_upto(s, 10) + le16(0) + le16(0) =~= bar_bytes(s)) by {
            reveal_with_fuel(bar_bytes_upto, 11);
        }
    }
    let ghost with_bar = out@;
    let mut k: usize = 0;
    while k < records.len()
        invariant
            k <= records@.len(),
            out@ == with_bar + records_bytes(records@.take(k as int)),
        decreases records@.len() - k,
    {
        let r = records[k];
        push_u32(&mut out, #[verifier::truncate] (r.x as u32));
        push_u32(&mut out, #[verifier::truncate] (r.y as u32));
        push_u32(&mut out, #[verifier::truncate] (r.z as u32));
        push_u16(&mut out, r.id);
        push_u16(&mut out, 0);
        assert(records@.take(k + 1).drop_last() =~= records@.take(k as int));
        k += 1;
    }
    assert(records@.take(records@.len() as int) =~= records@);
    reveal(encode_spec);
    assert(out@ =~= encode_spec(seed, sea_level, player, bar, records@));
    out
}

/// The bytes of the first `n` bar slots.
pub open spec fn bar_bytes_upto(s: Bar, n: int) -> Seq<u8>
    decreases n,
{
    if n <= 0 {
        Seq::empty()
    } else {
        bar_bytes_upto(s, n - 1) + le16(s[n - 1])
    }
}


// ------------------------------------------------------------------ reading back a write

proof fn lemma_u32_in(b: Seq<u8>, off: int, v: u32)
    requires
        0 <= off,
        off + 4 <= b.len(),
        b.subrange(off, off + 4) == le32(v),
    ensures
        u32_at(b, off) == v,
{
    lemma_le32(v);
    assert(b[off] == le32(v)[0]);
    assert(b[off + 1] == le32(v)[1]);
    assert(b[off + 2] == le32(v)[2]);
    assert(b[off + 3] == le32(v)[3]);
}

proof fn lemma_u16_in(b: Seq<u8>, off: int, v: u16)
    requires
        0 <= off,
        off + 2 <= b.len(),
        b.subrange(off, off + 2) == le16(v),
    ensures
        u16_at(b, off) == v,
{
    lemma_le16(v);
    assert(b[off] == le16(v)[0]);
    assert(b[off + 1] == le16(v)[1]);
}

proof fn lemma_records_bytes(rs: Seq<Record>, k: int)
    requires
        0 <= k < rs.len(),
    ensures
        records_bytes(rs).len() == 16 * rs.len(),
        records_bytes(rs).subrange(16 * k, 16 * k + 16) == record_bytes(rs[k]),
    decreases rs.len(),
{
    let init = rs.drop_last();
    if k < rs.len() - 1 {
        lemma_records_bytes(init, k);
        assert(records_bytes(rs).subrange(16 * k, 16 * k + 16) =~= records_bytes(init).subrange(16 * k, 16 * k + 16));
    } else {
        lemma_records_len(init);
        assert(records_bytes(rs).subrange(16 * k, 16 * k + 16) =~= record_bytes(rs[k]));
    }
}

proof fn lemma_records_len(rs: Seq<Record>)
    ensures
        records_bytes(rs).len() == 16 * rs.len(),
    decreases rs.len(),
{
    if rs.len() > 0 {
        lemma_records_len(rs.drop_last());
    }
}

proof fn lemma_record_in(b: Seq<u8>, off: int, r: Record)
    requires
        0 <= off,
        off + 16 <= b.len(),
        b.subrange(off, off + 16) == record_bytes(r),
    ensures
        record_at(b, off) == r,
{
    let rb = record_bytes(r);
    assert(b.subrange(off, off + 4) =~= rb.subrange(0, 4));
    assert(b.subrange(off + 4, off + 8) =~= rb.subrange(4, 8));
    assert(b.subrange(off + 8, off + 12) =~= rb.subrange(8, 12));
    assert(b.subrange(off + 12, off + 14) =~= rb.subrange(12, 14));
    assert(rb.subrange(0, 4) =~= le32(r.x as u32));
    assert(rb.subrange(4, 8) =~= le32(r.y as u32));
    assert(rb.subrange(8, 12) =~= le32(r.z as u32));
    assert(rb.subrange(12, 14) =~= le16(r.id));
    lemma_u32_in(b, off, r.x as u32);
    lemma_u32_in(b, off + 4, r.y as u32);
    lemma_u32_in(b, off + 8, r.z as u32);
    lemma_u16_in(b, off + 12, r.id);
    lemma_i32_bits(r.x);
    lemma_i32_bits(r.y);
    lemma_i32_bits(r.z);
}

proof fn lemma_flags(player: Option<PlayerState>, bar: Option<Bar>)
    ensures
        (flags_for(player, bar) & FLAG_PLAYER != 0) == player is Some,
        (flags_for(player, bar) & FLAG_BAR != 0) == bar is Some,
        flags_for(player, bar) & FLAG_APPEND == 0,
{
    let a: u32 = if player is Some { 1 } else { 0 };
    let c: u32 = if bar is Some { 4 } else { 0 };
    assert(((a | c) & 1 != 0) == (a == 1) && ((a | c) & 4 != 0) == (c == 4) && (a | c) & 2 == 0) by (bit_vector)
        requires
            a == 0 || a == 1,
            c == 0 || c == 4,
    ;
}

proof fn lemma_header_read(h: Header, tail: Seq<u8>)
    ensures
        header_at(header_bytes(h) + tail) == h,
{
    let e = header_bytes(h) + tail;
    assert(e.subrange(0, 4) =~= le32(h.magic));
    assert(e.subrange(4, 8) =~= le32(h.version));
    assert(e.subrange(8, 12) =~= le32(h.seed as u32));
    assert(e.subrange(12, 16) =~= le32(h.sea_level as u32));
    assert(e.subrange(16, 20) =~= le32(h.count));
    assert(e.subrange(20, 24) =~= le32(h.flags));
    lemma_u32_in(e, 0, h.magic);
    lemma_u32_in(e, 4, h.version);
    lemma_u32_in(e, 8, h.seed as u32);
    lemma_u32_in(e, 12, h.sea_level as u32);
    lemma_u32_in(e, 16, h.count);
    lemma_u32_in(e, 20, h.flags);
    lemma_i32_bits(h.seed);
    lemma_i32_bits(h.sea_level);
}

proof fn lemma_player_read(pre: Seq<u8>, p: PlayerState, tail: Seq<u8>)
    ensures
        player_at(pre + player_bytes(p) + tail, pre.len() as int) == p,
{
    let e = pre + player_bytes(p) + tail;
    let o = pre.len() as int;
    assert(e.subrange(o, o + 4) =~= le32(p.pos[0]));
    assert(e.subrange(o + 4, o + 8) =~= le32(p.pos[1]));
    assert(e.subrange(o + 8, o + 12) =~= le32(p.pos[2]));
    assert(e.subrange(o + 12, o + 16) =~= le32(p.yaw));
    assert(e.subrange(o + 16, o + 20) =~= le32(p.pitch));
    assert(e.subrange(o + 20, o + 24) =~= le32(p.hotbar));
    assert(e.subrange(o + 24, o + 28) =~= le32(p.fly));
    lemma_u32_in(e, o, p.pos[0]);
    lemma_u32_in(e, o + 4, p.pos[1]);
    lemma_u32_in(e, o + 8, p.pos[2]);
    lemma_u32_in(e, o + 12, p.yaw);
    lemma_u32_in(e, o + 16, p.pitch);
    lemma_u32_in(e, o + 20, p.hotbar);
    lemma_u32_in(e, o + 24, p.fly);
    assert(player_at(e, o).pos =~= p.pos);
}

proof fn lemma_bar_read(pre: Seq<u8>, s: Bar, tail: Seq<u8>)
    ensures
        bar_at(pre + bar_bytes(s) + tail, pre.len() as int) == s,
{
    let e = pre + bar_bytes(s) + tail;
    let o = pre.len() as int;
    assert(e.subrange(o + 0, o + 2) =~= le16(s[0]));
    lemma_u16_in(e, o + 0, s[0]);
    assert(e.subrange(o + 2, o + 4) =~= le16(s[1]));
    lemma_u16_in(e, o + 2, s[1]);
    assert(e.subrange(o + 4, o + 6) =~= le16(s[2]));
    lemma_u16_in(e, o + 4, s[2]);
    assert(e.subrange(o + 6, o + 8) =~= le16(s[3]));
    lemma_u16_in(e, o + 6, s[3]);
    assert(e.subrange(o + 8, o + 10) =~= le16(s[4]));
    lemma_u16_in(e, o + 8, s[4]);
    assert(e.subrange(o + 10, o + 12) =~= le16(s[5]));
    lemma_u16_in(e, o + 10, s[5]);
    assert(e.subrange(o + 12, o + 14) =~= le16(s[6]));
    lemma_u16_in(e, o + 12, s[6]);
    assert(e.subrange(o + 14, o + 16) =~= le16(s[7]));
    lemma_u16_in(e, o + 14, s[7]);
    assert(e.subrange(o + 16, o + 18) =~= le16(s[8]));
    lemma_u16_in(e, o + 16, s[8]);
    assert(e.subrange(o + 18, o + 20) =~= le16(s[9]));
    lemma_u16_in(e, o + 18, s[9]);
    assert(bar_at(e, o) =~= s);
}

proof fn lemma_records_read(pre: Seq<u8>, rs: Seq<Record>)
    ensures
        records_at(pre + records_bytes(rs), pre.len() as int, rs.len()) == rs,
{
    let e = pre + records_bytes(rs);
    let o = pre.len() as int;
    lemma_records_len(rs);
    assert forall|k: int| 0 <= k < rs.len() implies #[trigger] records_at(e, o, rs.len())[k] == rs[k] by {
        lemma_records_bytes(rs, k);
        assert(e.subrange(o + 16 * k, o + 16 * k + 16) =~= records_bytes(rs).subrange(16 * k, 16 * k + 16));
        lemma_record_in(e, o + 16 * k, rs[k]);
    }
    assert(records_at(e, o, rs.len()) =~= rs);
}

/// The conditions under which a file decodes, and what it decodes to then.
proof fn lemma_decode_ok(b: Seq<u8>, seed: i32, sea_level: i32, player: Option<PlayerState>, bar: Option<Bar>, records: Seq<Record>)
    requires
        b.len() >= HEAD_BYTES,
        header_at(b).magic == MAGIC,
        1 <= header_at(b).version <= VERSION,
        header_at(b).seed == seed,
        header_at(b).sea_level == sea_level,
        b.len() == HEAD_BYTES + extras_spec(header_at(b).flags) + RECORD_BYTES * header_at(b).count,
        (header_at(b).flags & FLAG_PLAYER != 0) == player is Some,
        (header_at(b).flags & FLAG_BAR != 0) == bar is Some,
        player is Some ==> player_at(b, HEAD_BYTES as int) == player->0 && player->0.fault() is None,
        bar is Some ==> bar_at(b, HEAD_BYTES + if player is Some { PLAYER_BYTES as int } else { 0int }) == bar->0
            && (BarState { slots: bar->0 }).fault() is None,
        records_at(b, HEAD_BYTES + extras_spec(header_at(b).flags), header_at(b).count as nat) == records,
    ensures
        decode_spec(b, seed, sea_level) == Ok::<_, JournalError>((player, bar, records, 0nat, 0nat)),
{
    reveal(decode_spec);
    let h = header_at(b);
    let body = b.len() - HEAD_BYTES - extras_spec(h.flags);
    assert(body == h.count * RECORD_BYTES);
    assert(body / RECORD_BYTES as int == h.count) by (nonlinear_arith)
        requires
            body == h.count * 16,
    ;
}

proof fn lemma_encode_parts(seed: i32, sea_level: i32, player: Option<PlayerState>, bar: Option<Bar>, records: Seq<Record>)
    ensures
        encode_spec(seed, sea_level, player, bar, records) == header_bytes(
            Header { magic: MAGIC, version: VERSION, seed, sea_level, count: records.len() as u32, flags: flags_for(player, bar) },
        ) + (if player is Some { player_bytes(player->0) } else { Seq::empty() }) + (if bar is Some {
            bar_bytes(bar->0)
        } else {
            Seq::empty()
        }) + records_bytes(records),
{
    reveal(encode_spec);
}

proof fn lemma_lengths(h: Header, player: Option<PlayerState>, bar: Option<Bar>)
    ensures
        header_bytes(h).len() == HEAD_BYTES,
        (if player is Some { player_bytes(player->0) } else { Seq::<u8>::empty() }).len() == if player is Some { PLAYER_BYTES as int } else { 0int },
        (if bar is Some { bar_bytes(bar->0) } else { Seq::<u8>::empty() }).len() == if bar is Some { BAR_BYTES as int } else { 0int },
{
}

proof fn lemma_part_player(hb: Seq<u8>, pb: Seq<u8>, p: PlayerState, bb: Seq<u8>, rb: Seq<u8>)
    requires
        pb == player_bytes(p),
    ensures
        player_at(hb + pb + bb + rb, hb.len() as int) == p,
{
    assert(hb + pb + bb + rb =~= hb + player_bytes(p) + (bb + rb));
    lemma_player_read(hb, p, bb + rb);
}

proof fn lemma_part_header(hb: Seq<u8>, h: Header, pb: Seq<u8>, bb: Seq<u8>, rb: Seq<u8>)
    requires
        hb == header_bytes(h),
    ensures
        header_at(hb + pb + bb + rb) == h,
{
    assert(hb + pb + bb + rb =~= hb + (pb + bb + rb));
    lemma_header_read(h, pb + bb + rb);
}

/// Decoding what [`encode`] wrote gives back the player, the bar and every record, in
/// order, with nothing recovered and nothing torn -- for the world it was written for,
/// whenever the player and bar it was given would pass their own checks.
pub proof fn law_journal_roundtrip(seed: i32, sea_level: i32, player: Option<PlayerState>, bar: Option<Bar>, records: Seq<Record>)
    requires
        records.len() <= u32::MAX,
        player is Some ==> player->0.fault() is None,
        bar is Some ==> (BarState { slots: bar->0 }).fault() is None,
    ensures
        decode_spec(encode_spec(seed, sea_level, player, bar, records), seed, sea_level) == Ok::<_, JournalError>((player, bar, records, 0nat, 0nat)),
{
    let flags = flags_for(player, bar);
    let h = Header { magic: MAGIC, version: VERSION, seed, sea_level, count: records.len() as u32, flags };
    let hb = header_bytes(h);
    let pb = if player is Some { player_bytes(player->0) } else { Seq::empty() };
    let bb = if bar is Some { bar_bytes(bar->0) } else { Seq::empty() };
    lemma_flags(player, bar);
    lemma_encode_parts(seed, sea_level, player, bar, records);
    let rb = records_bytes(records);
    lemma_lengths(h, player, bar);
    lemma_records_len(records);
    lemma_part_header(hb, h, pb, bb, rb);
    if let Some(p) = player {
        lemma_part_player(hb, pb, p, bb, rb);
    }
    if let Some(s) = bar {
        lemma_bar_read(hb + pb, s, rb);
    }
    lemma_records_read(hb + pb + bb, records);
    lemma_decode_ok(encode_spec(seed, sea_level, player, bar, records), seed, sea_level, player, bar, records);
}


// ------------------------------------------------------------------ the --bar flag

/// The value of a run of decimal digits.
pub open spec fn digits_value(s: Seq<char>) -> nat
    decreases s.len(),
{
    if s.len() == 0 { 0 } else { digits_value(s.drop_last()) * 10 + ((s.last() as u32) - ('0' as u32)) as nat }
}

/// `s` read as a `u16` the way `str::parse` reads one: an optional `+`, then at least
/// one decimal digit and nothing else, with a value that fits.
pub open spec fn unsigned(s: Seq<char>) -> Seq<char> {
    if s.len() > 0 && s[0] == '+' { s.drop_first() } else { s }
}

pub open spec fn parse_u16(s: Seq<char>) -> Option<u16> {
    let d = unsigned(s);
    if d.len() > 0 && (forall|i: int| 0 <= i < d.len() ==> is_digit(#[trigger] d[i])) && digits_value(d) <= u16::MAX {
        Some(digits_value(d) as u16)
    } else {
        None
    }
}

/// `s` split at every comma, as `str::split(',')` does: an empty string is one empty field.
pub open spec fn split_commas(s: Seq<char>) -> Seq<Seq<char>> {
    split_on(s, ',')
}

/// The first slot from `i` on whose field is not a placeable block id.
pub open spec fn first_bad_slot(fields: Seq<Seq<char>>, i: int) -> Option<int>
    decreases fields.len() - i,
{
    if i >= fields.len() {
        None
    } else if parse_u16(trim(fields[i])) is None || !block::placeable(parse_u16(trim(fields[i]))->0) {
        Some(i)
    } else {
        first_bad_slot(fields, i + 1)
    }
}

/// Why a `--bar` argument was refused.
#[derive(Clone, Debug, PartialEq, Eq)]
pub enum BarError {
    /// It does not have one field per slot; the count it has.
    Count(usize),
    /// A field is not a block id.
    NotAnId { slot: usize, field: String },
    /// A field names a block that may not sit in a bar.
    Refused { slot: usize, id: BlockId },
}

/// Parse the characters `lo..hi` as a `u16`.
fn parse_range(c: &Vec<char>, lo: usize, hi: usize) -> (r: Option<u16>)
    requires
        lo <= hi <= c@.len(),
    ensures
        r == parse_u16(c@.subrange(lo as int, hi as int)),
{
    let ghost s = c@.subrange(lo as int, hi as int);
    let start = if lo < hi && c[lo] == '+' { lo + 1 } else { lo };
    let ghost d = c@.subrange(start as int, hi as int);
    assert(d =~= unsigned(s));
    if start >= hi {
        return None;
    }
    let mut v: u32 = 0;
    let mut i = start;
    while i < hi
        invariant
            start <= i <= hi <= c@.len(),
            lo <= start,
            d == c@.subrange(start as int, hi as int),
            s == c@.subrange(lo as int, hi as int),
            d == unsigned(s),
            forall|k: int| start <= k < i ==> is_digit(#[trigger] c@[k]),
            v == digits_value(c@.subrange(start as int, i as int)),
            v <= u16::MAX,
        decreases hi - i,
    {
        let ch = c[i];
        if !('0' <= ch && ch <= '9') {
            assert(d[i - start] == ch);
            assert(!is_digit(d[i - start]));
            assert(!(forall|k: int| 0 <= k < d.len() ==> is_digit(#[trigger] d[k])));
            return None;
        }
        let nv = v * 10 + (ch as u32 - '0' as u32);
        assert(c@.subrange(start as int, i + 1).drop_last() =~= c@.subrange(start as int, i as int));
        if nv > 65535 {
            proof {
                assert(d.take((i + 1 - start) as int) =~= c@.subrange(start as int, i + 1));
                lemma_digits_grow(d, (i + 1 - start) as int);
            }
            return None;
        }
        v = nv;
        i += 1;
    }
    assert(c@.subrange(start as int, hi as int) =~= d);
    assert forall|k: int| 0 <= k < d.len() implies is_digit(#[trigger] d[k]) by {
        assert(d[k] == c@[start + k]);
    }
    Some(v as u16)
}

/// A run of digits is worth at least any prefix of it.
pub(crate) proof fn lemma_digits_grow(d: Seq<char>, n: int)
    requires
        0 <= n <= d.len(),
    ensures
        (forall|i: int| 0 <= i < d.len() ==> is_digit(#[trigger] d[i])) ==> digits_value(d.take(n)) <= digits_value(d),
    decreases d.len() - n,
{
    if n < d.len() {
        lemma_digits_grow(d, n + 1);
        assert(d.take(n + 1).drop_last() =~= d.take(n));
    }
    assert(d.take(d.len() as int) =~= d);
}


/// What `--bar` makes of its argument: ten comma-separated block ids, each one that may
/// sit in a bar slot.
pub open spec fn bar_outcome(spec: Seq<char>, r: Result<Bar, BarError>) -> bool {
    let fields = split_commas(spec);
    match r {
        Err(BarError::Count(n)) => fields.len() != SLOTS && n == fields.len(),
        Err(BarError::NotAnId { slot, field }) => fields.len() == SLOTS && first_bad_slot(fields, 0) == Some(slot as int)
            && parse_u16(trim(fields[slot as int])) is None && field@ == fields[slot as int],
        Err(BarError::Refused { slot, id }) => fields.len() == SLOTS && first_bad_slot(fields, 0) == Some(slot as int)
            && parse_u16(trim(fields[slot as int])) == Some(id) && !block::placeable(id),
        Ok(b) => fields.len() == SLOTS && first_bad_slot(fields, 0) is None && forall|i: int|
            0 <= i < SLOTS ==> parse_u16(trim(fields[i])) == Some(#[trigger] b[i]),
    }
}

/// Parse a `--bar` argument.
pub fn parse_bar(spec: &str) -> (r: Result<Bar, BarError>)
    ensures
        bar_outcome(spec@, r),
{
    let c = chars_of(spec);
    let ranges = split_ranges(&c, ',');
    let ghost fields = split_commas(spec@);
    if ranges.len() != SLOTS {
        return Err(BarError::Count(ranges.len()));
    }
    let mut out: Bar = block::default_bar();
    let mut i: usize = 0;
    while i < SLOTS
        invariant
            i <= SLOTS,
            ranges@.len() == SLOTS,
            c@ == spec@,
            fields == split_commas(spec@),
            range_views(c@, ranges@) == fields,
            forall|k: int| 0 <= k < ranges@.len() ==> (#[trigger] ranges@[k]).0 <= ranges@[k].1 <= c@.len(),
            first_bad_slot(fields, 0) == first_bad_slot(fields, i as int),
            forall|k: int| 0 <= k < i ==> parse_u16(trim(fields[k])) == Some(#[trigger] out[k]),
        decreases SLOTS - i,
    {
        let (lo, hi) = ranges[i];
        assert(fields[i as int] == c@.subrange(lo as int, hi as int));
        let (a, b) = trim_range(&c, lo, hi);
        match parse_range(&c, a, b) {
            None => {
                let field = String::from_str(spec.substring_char(lo, hi));
                return Err(BarError::NotAnId { slot: i, field });
            },
            Some(id) => {
                if block::bar_slot_refusal(id).is_some() {
                    return Err(BarError::Refused { slot: i, id });
                }
                out[i] = id;
            },
        }
        i += 1;
    }
    Ok(out)
}

/// The names of the blocks in a bar, comma-separated.
pub open spec fn bar_names_spec(b: Bar, n: int) -> Seq<char>
    decreases n,
{
    if n <= 0 {
        Seq::empty()
    } else if n == 1 {
        block::block_def(b[0]).name@
    } else {
        bar_names_spec(b, n - 1) + ", "@ + block::block_def(b[n - 1]).name@
    }
}

pub fn bar_names(b: &Bar) -> (s: String)
    ensures
        s@ == bar_names_spec(*b, SLOTS as int),
{
    let mut s = String::from_str(block::def(b[0]).name);
    let mut i: usize = 1;
    while i < SLOTS
        invariant
            1 <= i <= SLOTS,
            s@ == bar_names_spec(*b, i as int),
        decreases SLOTS - i,
    {
        s.append(", ");
        s.append(block::def(b[i]).name);
        i += 1;
    }
    s
}

/// The chunk-local coordinates `(x, y, z)` of a dense voxel index.
pub fn unpack_index(i: u32) -> (r: (usize, usize, usize))
    ensures
        r.0 == crate::voxel::x_of((i as int) % (crate::voxel::VOL as int)),
        r.1 == crate::voxel::y_of((i as int) % (crate::voxel::VOL as int)),
        r.2 == crate::voxel::z_of((i as int) % (crate::voxel::VOL as int)),
{
    let x = (i & 63) as usize;
    let y = ((i >> 12) & 63) as usize;
    let z = ((i >> 6) & 63) as usize;
    assert(i & 63 == (i % 262144) % 64 && (i >> 12) & 63 == (i % 262144) / 4096 && (i >> 6) & 63 == ((i % 262144) / 64) % 64) by (bit_vector);
    (x, y, z)
}

} // verus!
