use graphite::commands::CommandQueue;
use graphite::diagnostic::{DiagnosticMod, LoadCheck, TickLog};
use graphite::protocol::{
    CMD_SEND_CHAT, CQ_CAPACITY, CQ_DATA_OFFSET, CQ_REGION_LEN, ENTITY_KIND_MOB, ENTITY_KIND_PLAYER,
    ENTITY_RECORD_SIZE, PROTOCOL_VERSION, SNAP_HEADER_SIZE,
};
use graphite::world::WorldView;

fn snapshot(kinds: &[u16], timestamp: u64) -> Vec<u8> {
    let mut s = vec![0_u8; SNAP_HEADER_SIZE];
    s[0..4].copy_from_slice(&(kinds.len() as u32).to_le_bytes());
    s[8..16].copy_from_slice(&timestamp.to_le_bytes());
    s[16..20].copy_from_slice(&PROTOCOL_VERSION.to_le_bytes());
    for (i, kind) in kinds.iter().enumerate() {
        let mut e = vec![0_u8; ENTITY_RECORD_SIZE];
        e[0..4].copy_from_slice(&(i as i32).to_le_bytes());
        e[4..6].copy_from_slice(&kind.to_le_bytes());
        s.extend(e);
    }
    s
}

fn pending(q: &CommandQueue) -> Vec<u8> {
    let head = q.head();
    let used = q.tail().wrapping_sub(head) as usize;
    let data = &q.region()[CQ_DATA_OFFSET..];
    (0..used).map(|i| data[(head as usize + i) % CQ_CAPACITY]).collect()
}

fn chat_record(text: &str) -> Vec<u8> {
    let mut r = vec![CMD_SEND_CHAT, (5 + text.len()) as u8];
    r.extend_from_slice(&u32::MAX.to_le_bytes());
    r.push(text.len() as u8);
    r.extend_from_slice(text.as_bytes());
    r
}

#[test]
fn load_checks_version_then_record_size() {
    let mut m = DiagnosticMod::new();
    assert_eq!(m.on_load(PROTOCOL_VERSION, 48), LoadCheck::Passed);
    assert_eq!(m.on_load(PROTOCOL_VERSION + 1, 47), LoadCheck::ProtocolMismatch);
    assert_eq!(m.on_load(PROTOCOL_VERSION, 47), LoadCheck::EntitySizeMismatch);
}

#[test]
fn greets_once_when_a_player_is_present() {
    let mut m = DiagnosticMod::new();
    let mut q = CommandQueue::from_region(&vec![0_u8; CQ_REGION_LEN]);
    let empty = snapshot(&[ENTITY_KIND_MOB], 0);
    let view = WorldView::from_raw(&empty);
    assert!(!m.on_tick_start(&view, &mut q, 1));
    assert!(pending(&q).is_empty());

    let with_player = snapshot(&[ENTITY_KIND_MOB, ENTITY_KIND_PLAYER], 0);
    let view = WorldView::from_raw(&with_player);
    assert!(!m.on_tick_start(&view, &mut q, 3));
    assert_eq!(pending(&q), chat_record("[Graphite] Rust mod active"));
    assert!(m.on_tick_start(&view, &mut q, 40));
    assert_eq!(pending(&q), chat_record("[Graphite] Rust mod active"));
    assert_eq!(m.on_unload(), 3);
}

#[test]
fn status_line_every_hundred_ticks() {
    let mut m = DiagnosticMod::new();
    let mut q = CommandQueue::from_region(&vec![0_u8; CQ_REGION_LEN]);
    let snap = snapshot(&[ENTITY_KIND_PLAYER, ENTITY_KIND_MOB, ENTITY_KIND_PLAYER], 3_500_000_000);
    let view = WorldView::from_raw(&snap);
    assert_eq!(m.on_tick_finish(&view, &mut q, 50), None);
    assert!(pending(&q).is_empty());
    m.on_tick_start(&view, &mut q, 200);
    let before = pending(&q);
    let log = m.on_tick_finish(&view, &mut q, 200);
    let mut expected = before.clone();
    expected.extend(chat_record("[Graphite] tick=200 players=2 entities=3"));
    assert_eq!(pending(&q), expected);
    assert_eq!(
        log,
        Some(TickLog { tick: 200, entity_count: 3, player_count: 2, snapshot_age_ms: 3500, processed: 1 })
    );
    // fewer than 100 ticks since the last log
    assert_eq!(m.on_tick_finish(&view, &mut q, 299), None);
    assert!(m.on_tick_finish(&view, &mut q, 300).is_some());
}

#[test]
fn first_log_waits_for_tick_one_hundred() {
    let mut m = DiagnosticMod::new();
    let mut q = CommandQueue::from_region(&vec![0_u8; CQ_REGION_LEN]);
    let snap = snapshot(&[], 0);
    let view = WorldView::from_raw(&snap);
    assert_eq!(m.on_tick_finish(&view, &mut q, 99), None);
    assert_eq!(m.on_tick_finish(&view, &mut q, 100).map(|l| l.tick), Some(100));
}
