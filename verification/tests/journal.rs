use voxelcraft::journal::{
    bar_names, decode, encode, extras_bytes, log_extent, parse_bar, unpack_index, BarError, BarState,
    JournalError, PlayerState, Record, FLAG_APPEND, FLAG_BAR, FLAG_PLAYER, MAGIC,
};

fn le(v: u32) -> [u8; 4] {
    v.to_le_bytes()
}

fn header(magic: u32, version: u32, seed: i32, sea: i32, count: u32, flags: u32) -> Vec<u8> {
    let mut out = Vec::new();
    for w in [magic, version, seed as u32, sea as u32, count, flags] {
        out.extend_from_slice(&le(w));
    }
    out
}

fn record_bytes(x: i32, y: i32, z: i32, id: u16) -> Vec<u8> {
    let mut out = Vec::new();
    out.extend_from_slice(&x.to_le_bytes());
    out.extend_from_slice(&y.to_le_bytes());
    out.extend_from_slice(&z.to_le_bytes());
    out.extend_from_slice(&id.to_le_bytes());
    out.extend_from_slice(&[0, 0]);
    out
}

fn player(hotbar: u32) -> PlayerState {
    PlayerState {
        pos: [1.5f32.to_bits(), 70.0f32.to_bits(), (-3.25f32).to_bits()],
        yaw: 0.5f32.to_bits(),
        pitch: (-0.25f32).to_bits(),
        hotbar,
        fly: 1,
    }
}

#[test]
fn magic_reads_vxj1() {
    assert_eq!(MAGIC.to_le_bytes(), *b"VXJ1");
}

#[test]
fn encode_lays_out_header_and_records() {
    let recs = [Record { x: 1, y: 2, z: 3, id: 1 }];
    let bytes = encode(7, 62, None, None, &recs);
    let mut want = header(MAGIC, 3, 7, 62, 1, 0);
    want.extend(record_bytes(1, 2, 3, 1));
    assert_eq!(bytes, want);
}

#[test]
fn journal_roundtrip() {
    let recs = vec![
        Record { x: -5, y: 80, z: 12, id: 0 },
        Record { x: 100000, y: -2, z: 7, id: 11 },
    ];
    let bar = [1, 2, 3, 4, 5, 6, 7, 8, 9, 10];
    let bytes = encode(-42, 62, Some(player(3)), Some(bar), &recs);
    assert_eq!(bytes.len(), 24 + 32 + 24 + 32);
    let j = decode(&bytes, -42, 62).unwrap();
    assert_eq!(j.player, Some(player(3)));
    assert_eq!(j.bar, Some(bar));
    assert_eq!(j.records, recs);
    assert_eq!(j.recovered, 0);
    assert_eq!(j.torn, 0);
}

#[test]
fn decode_too_short() {
    assert_eq!(decode(&[0u8; 23], 0, 0).err(), Some(JournalError::TooShort));
}

#[test]
fn decode_not_a_journal() {
    let b = header(0x1234_5678, 3, 0, 0, 0, 0);
    assert_eq!(decode(&b, 0, 0).err(), Some(JournalError::NotAJournal));
}

#[test]
fn decode_version() {
    let b = header(MAGIC, 4, 0, 0, 0, 0);
    assert_eq!(decode(&b, 0, 0).err(), Some(JournalError::Version(4)));
    let b = header(MAGIC, 0, 0, 0, 0, 0);
    assert_eq!(decode(&b, 0, 0).err(), Some(JournalError::Version(0)));
    let b = header(MAGIC, 1, 0, 0, 0, 0);
    assert!(decode(&b, 0, 0).is_ok());
}

#[test]
fn decode_wrong_world() {
    let b = header(MAGIC, 3, 7, 62, 0, 0);
    assert_eq!(
        decode(&b, 8, 62).err(),
        Some(JournalError::WrongWorld { seed: 7, sea_level: 62 })
    );
    assert_eq!(
        decode(&b, 7, 63).err(),
        Some(JournalError::WrongWorld { seed: 7, sea_level: 62 })
    );
}

#[test]
fn decode_extras_truncated() {
    let b = header(MAGIC, 3, 0, 0, 0, FLAG_PLAYER);
    assert_eq!(decode(&b, 0, 0).err(), Some(JournalError::ExtrasTruncated));
}

#[test]
fn decode_player_not_finite() {
    let mut p = player(0);
    p.yaw = f32::NAN.to_bits();
    let b = encode(0, 0, Some(p), None, &[]);
    assert_eq!(decode(&b, 0, 0).err(), Some(JournalError::PlayerNotFinite));
    let mut p = player(0);
    p.pos[1] = f32::INFINITY.to_bits();
    let b = encode(0, 0, Some(p), None, &[]);
    assert_eq!(decode(&b, 0, 0).err(), Some(JournalError::PlayerNotFinite));
}

#[test]
fn decode_hotbar_slot() {
    let b = encode(0, 0, Some(player(10)), None, &[]);
    assert_eq!(decode(&b, 0, 0).err(), Some(JournalError::HotbarSlot(10)));
    let b = encode(0, 0, Some(player(9)), None, &[]);
    assert!(decode(&b, 0, 0).is_ok());
}

#[test]
fn decode_bar_slot() {
    let b = encode(0, 0, None, Some([1, 2, 3, 13, 5, 6, 7, 8, 9, 0]), &[]);
    assert_eq!(decode(&b, 0, 0).err(), Some(JournalError::BarSlot { slot: 3, id: 13 }));
}

#[test]
fn decode_count_mismatch() {
    let mut b = header(MAGIC, 3, 0, 0, 2, 0);
    b.extend(record_bytes(0, 0, 0, 1));
    assert_eq!(
        decode(&b, 0, 0).err(),
        Some(JournalError::CountMismatch { count: 2, carried: 16 })
    );
    let mut b = header(MAGIC, 3, 0, 0, 0, 0);
    b.extend(record_bytes(0, 0, 0, 1));
    assert_eq!(
        decode(&b, 0, 0).err(),
        Some(JournalError::CountMismatch { count: 0, carried: 16 })
    );
}

#[test]
fn decode_recovers_an_appended_log() {
    let mut b = header(MAGIC, 3, 5, 6, 1, FLAG_APPEND);
    b.extend(record_bytes(1, 1, 1, 2));
    b.extend(record_bytes(2, 2, 2, 3));
    b.extend(record_bytes(3, 3, 3, 4));
    b.extend([9u8; 5]);
    let j = decode(&b, 5, 6).unwrap();
    assert_eq!(j.records.len(), 3);
    assert_eq!(j.records[2], Record { x: 3, y: 3, z: 3, id: 4 });
    assert_eq!(j.recovered, 2);
    assert_eq!(j.torn, 5);
}

#[test]
fn extras_bytes_per_flag() {
    assert_eq!(extras_bytes(0), 0);
    assert_eq!(extras_bytes(FLAG_PLAYER), 32);
    assert_eq!(extras_bytes(FLAG_BAR), 24);
    assert_eq!(extras_bytes(FLAG_PLAYER | FLAG_BAR | FLAG_APPEND), 56);
}

#[test]
fn player_and_bar_checks() {
    assert_eq!(player(2).check(), Ok(()));
    assert_eq!(player(12).check(), Err(JournalError::HotbarSlot(12)));
    assert_eq!(BarState::new([1, 2, 3, 4, 5, 6, 7, 8, 9, 10]).check(), Ok(()));
    assert_eq!(
        BarState::new([1, 2, 3, 4, 5, 6, 7, 8, 25, 0]).check(),
        Err(JournalError::BarSlot { slot: 8, id: 25 })
    );
}

#[test]
fn parse_bar_accepts_ten_ids_with_spaces() {
    assert_eq!(
        parse_bar("1, 2,3 ,4,5,6,7,8,9, 11"),
        Ok([1, 2, 3, 4, 5, 6, 7, 8, 9, 11])
    );
}

#[test]
fn parse_bar_counts_fields() {
    assert_eq!(parse_bar("1,2,3"), Err(BarError::Count(3)));
    assert_eq!(parse_bar(""), Err(BarError::Count(1)));
    assert_eq!(parse_bar("1,2,3,4,5,6,7,8,9,10,11"), Err(BarError::Count(11)));
}

#[test]
fn parse_bar_names_the_bad_field() {
    assert_eq!(
        parse_bar("1,2,x3,4,5,6,7,8,9,10"),
        Err(BarError::NotAnId { slot: 2, field: "x3".to_string() })
    );
    assert_eq!(
        parse_bar("1,2,3,4,5,6,7,8,9,70000"),
        Err(BarError::NotAnId { slot: 9, field: "70000".to_string() })
    );
    assert_eq!(
        parse_bar("1,,3,4,5,6,7,8,9,10"),
        Err(BarError::NotAnId { slot: 1, field: "".to_string() })
    );
}

#[test]
fn parse_bar_refuses_unplaceable_blocks() {
    assert_eq!(
        parse_bar("1,2,3,4,0,6,7,8,9,10"),
        Err(BarError::Refused { slot: 4, id: 0 })
    );
    assert_eq!(
        parse_bar("1,2,3,4,5,6,7,8,9,13"),
        Err(BarError::Refused { slot: 9, id: 13 })
    );
}

#[test]
fn bar_names_joins_the_names() {
    assert_eq!(
        bar_names(&[1, 2, 3, 4, 8, 6, 7, 9, 10, 11]),
        "stone, dirt, grass, sand, planks, log, leaves, cobblestone, glass, glowstone"
    );
}

#[test]
fn unpack_index_inverts_dense_index() {
    let i = voxelcraft::voxel::dense_index(5, 17, 40) as u32;
    assert_eq!(unpack_index(i), (5, 17, 40));
    assert_eq!(unpack_index(63 + 63 * 64 + 63 * 4096), (63, 63, 63));
}

#[test]
fn log_extent_cuts_back_to_whole_records() {
    assert_eq!(log_extent(24 + 16 * 3 + 5, 0), (72, 3));
    assert_eq!(log_extent(24 + 16 * 3, 0), (72, 3));
    assert_eq!(log_extent(10, FLAG_PLAYER), (56, 0));
    assert_eq!(log_extent(80 + 17, FLAG_PLAYER | FLAG_BAR), (96, 1));
}
