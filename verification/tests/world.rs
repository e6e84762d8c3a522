use graphite::protocol::{
    CHUNK_SECTION_RECORD_SIZE, ENTITY_FLAG_ALIVE, ENTITY_KIND_ITEM, ENTITY_KIND_MOB,
    ENTITY_KIND_PLAYER, ENTITY_RECORD_SIZE, MAX_CHUNK_SECTIONS, MAX_ENTITIES, PROTOCOL_VERSION,
    SNAP_HEADER_SIZE,
};
use graphite::world::{ChunkSectionHeader, EntityRecord, WorldView};

fn header(entity_count: u32, chunk_count: u32, version: u32, timestamp: u64) -> Vec<u8> {
    let mut h = vec![0_u8; SNAP_HEADER_SIZE];
    h[0..4].copy_from_slice(&entity_count.to_le_bytes());
    h[4..8].copy_from_slice(&chunk_count.to_le_bytes());
    h[8..16].copy_from_slice(&timestamp.to_le_bytes());
    h[16..20].copy_from_slice(&version.to_le_bytes());
    h
}

fn entity_bytes(id: i32, kind: u16, flags: u16, pos: (f64, f64, f64), health: f32) -> Vec<u8> {
    let mut e = Vec::with_capacity(ENTITY_RECORD_SIZE);
    e.extend_from_slice(&id.to_le_bytes());
    e.extend_from_slice(&kind.to_le_bytes());
    e.extend_from_slice(&flags.to_le_bytes());
    e.extend_from_slice(&pos.0.to_le_bytes());
    e.extend_from_slice(&pos.1.to_le_bytes());
    e.extend_from_slice(&pos.2.to_le_bytes());
    e.extend_from_slice(&0.5_f32.to_le_bytes());
    e.extend_from_slice(&0.0_f32.to_le_bytes());
    e.extend_from_slice(&(-0.5_f32).to_le_bytes());
    e.extend_from_slice(&health.to_le_bytes());
    assert_eq!(e.len(), ENTITY_RECORD_SIZE);
    e
}

/// A chunk section whose block at local index i holds `base + i`.
fn section_bytes(cx: i32, sy: i32, cz: i32, base: u32) -> Vec<u8> {
    let mut s = Vec::with_capacity(CHUNK_SECTION_RECORD_SIZE);
    s.extend_from_slice(&cx.to_le_bytes());
    s.extend_from_slice(&sy.to_le_bytes());
    s.extend_from_slice(&cz.to_le_bytes());
    s.extend_from_slice(&0_u32.to_le_bytes());
    for i in 0..4096_u32 {
        s.extend_from_slice(&(base + i).to_le_bytes());
    }
    s
}

fn sample_snapshot() -> Vec<u8> {
    let mut snap = header(4, 2, PROTOCOL_VERSION, 5_000_000_000);
    snap.extend(entity_bytes(10, ENTITY_KIND_PLAYER, ENTITY_FLAG_ALIVE, (1.0, 64.0, -3.5), 20.0));
    snap.extend(entity_bytes(11, ENTITY_KIND_MOB, 0, (2.0, 65.0, 0.0), 0.0));
    snap.extend(entity_bytes(12, ENTITY_KIND_MOB, ENTITY_FLAG_ALIVE | 2, (3.0, 66.0, 1.0), 8.0));
    snap.extend(entity_bytes(-13, ENTITY_KIND_PLAYER, 0, (4.0, 67.0, 2.0), 0.0));
    snap.extend(section_bytes(0, 4, 0, 1000));
    snap.extend(section_bytes(-1, -1, 2, 100_000));
    snap
}

fn view_of(snap: &[u8]) -> WorldView<'_> {
    let need = WorldView::required_len(snap);
    assert!(snap.len() >= need);
    WorldView::from_raw(snap)
}

#[test]
fn counts_come_from_header() {
    let snap = sample_snapshot();
    let view = view_of(&snap);
    assert_eq!(view.entity_count(), 4);
    assert_eq!(view.chunk_count(), 2);
    assert_eq!(view.timestamp_ns(), 5_000_000_000);
    assert_eq!(WorldView::required_len(&snap), SNAP_HEADER_SIZE + 4 * 48 + 2 * 16400);
}

#[test]
fn version_mismatch_gives_empty_view() {
    let snap = header(4, 2, PROTOCOL_VERSION + 1, 7);
    assert_eq!(WorldView::required_len(&snap), SNAP_HEADER_SIZE);
    let view = WorldView::from_raw(&snap);
    assert_eq!(view.entity_count(), 0);
    assert_eq!(view.chunk_count(), 0);
    assert!(view.entities().is_empty());
    assert_eq!(view.get_block_state_id(0, 0, 0), None);
    assert_eq!(view.timestamp_ns(), 7);
}

#[test]
fn counts_are_capped() {
    let snap = header(u32::MAX, 1000, PROTOCOL_VERSION, 0);
    assert_eq!(
        WorldView::required_len(&snap),
        SNAP_HEADER_SIZE + MAX_ENTITIES * ENTITY_RECORD_SIZE + MAX_CHUNK_SECTIONS * CHUNK_SECTION_RECORD_SIZE
    );
    let mut full = snap.clone();
    full.resize(WorldView::required_len(&snap), 0);
    let view = WorldView::from_raw(&full);
    assert_eq!(view.entity_count(), MAX_ENTITIES);
    assert_eq!(view.chunk_count(), MAX_CHUNK_SECTIONS);
}

#[test]
fn entities_decode_fields() {
    let snap = sample_snapshot();
    let view = view_of(&snap);
    let all = view.entities();
    assert_eq!(all.len(), 4);
    let first: EntityRecord = all[0];
    assert_eq!(first.entity_id(), 10);
    assert_eq!(first.kind(), ENTITY_KIND_PLAYER);
    assert_eq!(first.flags(), ENTITY_FLAG_ALIVE);
    assert_eq!(f64::from_bits(first.x()), 1.0);
    assert_eq!(f64::from_bits(first.y()), 64.0);
    assert_eq!(f64::from_bits(first.z()), -3.5);
    assert_eq!(f32::from_bits(first.vx()), 0.5);
    assert_eq!(f32::from_bits(first.vy()), 0.0);
    assert_eq!(f32::from_bits(first.vz()), -0.5);
    assert_eq!(f32::from_bits(first.health()), 20.0);
    assert_eq!(all[3].entity_id(), -13);
}

#[test]
fn players_are_entities_of_player_kind_in_order() {
    let snap = sample_snapshot();
    let view = view_of(&snap);
    let ids: Vec<i32> = view.players().iter().map(|e| e.entity_id()).collect();
    assert_eq!(ids, vec![10, -13]);
}

#[test]
fn living_entities_are_alive_players_and_mobs() {
    let mut snap = header(3, 0, PROTOCOL_VERSION, 0);
    snap.extend(entity_bytes(1, ENTITY_KIND_ITEM, ENTITY_FLAG_ALIVE, (0.0, 0.0, 0.0), 1.0));
    snap.extend(entity_bytes(2, ENTITY_KIND_MOB, ENTITY_FLAG_ALIVE, (0.0, 0.0, 0.0), 1.0));
    snap.extend(entity_bytes(3, ENTITY_KIND_PLAYER, 0, (0.0, 0.0, 0.0), 1.0));
    let view = view_of(&snap);
    let ids: Vec<i32> = view.living_entities().iter().map(|e| e.entity_id()).collect();
    assert_eq!(ids, vec![2]);

    let snap = sample_snapshot();
    let view = view_of(&snap);
    let ids: Vec<i32> = view.living_entities().iter().map(|e| e.entity_id()).collect();
    assert_eq!(ids, vec![10, 12]);
}

#[test]
fn block_lookup_uses_local_coordinates() {
    let snap = sample_snapshot();
    let view = view_of(&snap);
    // section (0, 4, 0): y in 64..80; local index y*256 + z*16 + x
    assert_eq!(view.get_block_state_id(0, 64, 0), Some(1000));
    assert_eq!(view.get_block_state_id(3, 65, 2), Some(1000 + 256 + 2 * 16 + 3));
    assert_eq!(view.get_block_state_id(15, 79, 15), Some(1000 + 4095));
}

#[test]
fn block_lookup_rounds_negative_coordinates_down() {
    let snap = sample_snapshot();
    let view = view_of(&snap);
    // x = -1 is chunk -1, local 15; y = -16 is section -1, local 0; z = 33 is chunk 2, local 1
    assert_eq!(view.get_block_state_id(-1, -16, 33), Some(100_000 + 0 * 256 + 1 * 16 + 15));
    assert_eq!(view.get_block_state_id(-16, -1, 32), Some(100_000 + 15 * 256));
}

#[test]
fn block_lookup_without_section_is_none() {
    let snap = sample_snapshot();
    let view = view_of(&snap);
    assert_eq!(view.get_block_state_id(16, 64, 0), None);
    assert_eq!(view.get_block_state_id(0, 0, 0), None);
    assert_eq!(view.get_block_state_id(i32::MIN, i32::MAX, 0), None);
}

#[test]
fn block_lookup_takes_first_matching_section() {
    let mut snap = header(0, 2, PROTOCOL_VERSION, 0);
    snap.extend(section_bytes(1, 1, 1, 5));
    snap.extend(section_bytes(1, 1, 1, 900));
    let view = view_of(&snap);
    assert_eq!(view.get_block_state_id(16, 16, 16), Some(5));
}

#[test]
fn chunk_section_header_decodes() {
    let bytes = section_bytes(-7, 3, 9, 0);
    let h = ChunkSectionHeader::read_from(&bytes, 0);
    assert_eq!(h.chunk_x(), -7);
    assert_eq!(h.section_y(), 3);
    assert_eq!(h.chunk_z(), 9);
    assert_eq!(h.flags(), 0);
}

#[test]
fn header_only_view_shows_capped_counts() {
    let snap = header(5000, 30, PROTOCOL_VERSION, 11);
    let view = WorldView::from_raw(&snap);
    assert_eq!(view.entity_count(), 4096);
    assert_eq!(view.chunk_count(), 24);
    assert_eq!(view.timestamp_ns(), 11);
    let mut other = snap.clone();
    other[16] = 1;
    let view = WorldView::from_raw(&other);
    assert_eq!(view.entity_count(), 0);
    assert_eq!(view.chunk_count(), 0);
}

#[test]
fn entities_need_only_entity_records() {
    let mut snap = header(1, 3, PROTOCOL_VERSION, 0);
    snap.extend(entity_bytes(77, ENTITY_KIND_PLAYER, ENTITY_FLAG_ALIVE, (0.0, 0.0, 0.0), 1.0));
    let view = WorldView::from_raw(&snap);
    assert_eq!(view.chunk_count(), 3);
    assert_eq!(view.entities().len(), 1);
    assert_eq!(view.players()[0].entity_id(), 77);
    assert_eq!(view.living_entities().len(), 1);
}
