use graphite::commands::CommandQueue;
use graphite::protocol::{
    CMD_KILL_ENTITY, CMD_SEND_CHAT, CMD_SET_BLOCK, CMD_SET_VELOCITY, CMD_SPAWN_PARTICLE,
    CQ_CAPACITY, CQ_CAPACITY_OFFSET, CQ_DATA_OFFSET, CQ_REGION_LEN,
};

fn alloc_queue_mem() -> Vec<u8> {
    let mut mem = vec![0_u8; CQ_DATA_OFFSET + CQ_CAPACITY + 64];
    mem[CQ_CAPACITY_OFFSET..CQ_CAPACITY_OFFSET + 4].copy_from_slice(&(CQ_CAPACITY as u32).to_le_bytes());
    mem
}

fn new_queue() -> CommandQueue {
    CommandQueue::from_region(&alloc_queue_mem())
}

/// The bytes from head to tail, in stream order, as the host reads them.
fn pending(q: &CommandQueue) -> Vec<u8> {
    let head = q.head();
    let used = q.tail().wrapping_sub(head) as usize;
    let data = &q.region()[CQ_DATA_OFFSET..];
    (0..used).map(|i| data[(head as usize + i) % CQ_CAPACITY]).collect()
}

#[test]
fn push_rejects_oversized_payload_without_panicking() {
    let mut q = new_queue();

    let payload = vec![0_u8; 255];
    assert!(!q.push(0xAA, &payload));
    assert_eq!(q.tail(), 0);
}

#[test]
fn push_writes_header_and_advances_tail() {
    let mut q = new_queue();

    let payload = [1_u8, 2, 3, 4];
    assert!(q.push(0x10, &payload));

    let mem = q.region();
    let data_base = CQ_DATA_OFFSET;
    assert_eq!(mem[data_base], 0x10);
    assert_eq!(mem[data_base + 1], payload.len() as u8);
    assert_eq!(&mem[data_base + 2..data_base + 6], &payload);
    assert_eq!(q.tail(), (2 + payload.len()) as u32);
}

#[test]
fn wraparound_payload_does_not_overflow() {
    let mut q = new_queue();

    // tail = CQ_CAPACITY - 1, head = CQ_CAPACITY - 10 -> used = 9, plenty free.
    q.set_head((CQ_CAPACITY - 10) as u32);
    q.set_tail((CQ_CAPACITY - 1) as u32);

    let payload = [9_u8; 3];
    assert!(q.push(0x22, &payload));

    let mem = q.region();
    let data_base = CQ_DATA_OFFSET;
    assert_eq!(mem[data_base + (CQ_CAPACITY - 1)], 0x22);
    assert_eq!(mem[data_base + 0], payload.len() as u8);
    assert_eq!(mem[data_base + 1], 9);
    assert_eq!(mem[data_base + 2], 9);
    assert_eq!(mem[data_base + 3], 9);
}

#[test]
fn region_copy_keeps_first_region_bytes() {
    let mem = alloc_queue_mem();
    let q = CommandQueue::from_region(&mem);
    assert_eq!(q.region().len(), CQ_REGION_LEN);
    assert_eq!(&q.region()[8..12], &(CQ_CAPACITY as u32).to_le_bytes());
    assert_eq!(q.head(), 0);
    assert_eq!(q.tail(), 0);
}

#[test]
fn push_accepts_largest_payload() {
    let mut q = new_queue();
    let payload = vec![7_u8; 254];
    assert!(q.push(0x01, &payload));
    assert_eq!(q.tail(), 256);
    assert_eq!(q.region()[CQ_DATA_OFFSET + 1], 254);
}

#[test]
fn push_refused_when_ring_would_fill() {
    let mut q = new_queue();
    // used + total must stay below the capacity: used = CQ_CAPACITY - 6.
    q.set_tail((CQ_CAPACITY - 6) as u32);
    let before = q.region().to_vec();
    assert!(!q.push(0x05, &[1, 2, 3, 4]));
    assert_eq!(q.region(), &before[..]);
    // total 5 leaves one byte free: accepted.
    assert!(q.push(0x05, &[1, 2, 3]));
    assert_eq!(q.tail(), (CQ_CAPACITY - 1) as u32);
}

#[test]
fn push_counts_used_bytes_across_u32_wrap() {
    let mut q = new_queue();
    // tail wrapped past 2^32 while head did not: used = 8.
    q.set_head(u32::MAX - 3);
    q.set_tail(4);
    assert!(q.push(0x01, &[0xAB]));
    assert_eq!(q.tail(), 7);
    // a payload that would leave no free byte is refused
    q.set_tail(((u32::MAX - 3) as u64 + CQ_CAPACITY as u64 - 3) as u32);
    assert!(!q.push(0x01, &[0xAB]));
}

#[test]
fn push_appends_record_to_pending_bytes() {
    let mut q = new_queue();
    assert!(q.push(0x10, &[1, 2]));
    let before = pending(&q);
    assert!(q.push(0x11, &[3, 4, 5]));
    let mut expected = before.clone();
    expected.extend_from_slice(&[0x11, 3, 3, 4, 5]);
    assert_eq!(pending(&q), expected);
    assert_eq!(pending(&q), vec![0x10, 2, 1, 2, 0x11, 3, 3, 4, 5]);
}

#[test]
fn push_appends_record_across_ring_end() {
    let mut q = new_queue();
    q.set_head((CQ_CAPACITY - 2) as u32);
    q.set_tail((CQ_CAPACITY - 2) as u32);
    assert!(q.push(0x21, &[1, 2, 3]));
    assert_eq!(pending(&q), vec![0x21, 3, 1, 2, 3]);
}

#[test]
fn reset_empties_queue_and_keeps_ring() {
    let mut q = new_queue();
    assert!(q.push(0x10, &[1, 2]));
    q.reset();
    assert_eq!(q.head(), 0);
    assert_eq!(q.tail(), 0);
    assert!(pending(&q).is_empty());
    assert_eq!(q.region()[CQ_DATA_OFFSET], 0x10);
}

#[test]
fn set_block_payload_layout() {
    let mut q = new_queue();
    assert!(q.set_block(-1, 64, 300, 0x0102_0304));
    let mut expected = vec![CMD_SET_BLOCK, 16];
    expected.extend_from_slice(&(-1_i32).to_le_bytes());
    expected.extend_from_slice(&64_i32.to_le_bytes());
    expected.extend_from_slice(&300_i32.to_le_bytes());
    expected.extend_from_slice(&0x0102_0304_u32.to_le_bytes());
    assert_eq!(pending(&q), expected);
    assert_eq!(&pending(&q)[2..6], &[0xFF, 0xFF, 0xFF, 0xFF]);
}

#[test]
fn send_chat_payload_layout() {
    let mut q = new_queue();
    assert!(q.send_chat(7, "hi"));
    assert_eq!(pending(&q), vec![CMD_SEND_CHAT, 7, 7, 0, 0, 0, 2, b'h', b'i']);
}

#[test]
fn send_chat_truncates_to_249_bytes() {
    let mut q = new_queue();
    let long = "x".repeat(300);
    assert!(q.send_chat(u32::MAX, &long));
    let p = pending(&q);
    assert_eq!(p[1], 254);
    assert_eq!(&p[2..6], &[0xFF; 4]);
    assert_eq!(p[6], 249);
    assert_eq!(p.len(), 2 + 5 + 249);
}

#[test]
fn send_chat_counts_utf8_bytes() {
    let mut q = new_queue();
    assert!(q.send_chat(1, "é"));
    assert_eq!(pending(&q), vec![CMD_SEND_CHAT, 7, 1, 0, 0, 0, 2, 0xC3, 0xA9]);
}

#[test]
fn spawn_particle_payload_layout() {
    let mut q = new_queue();
    assert!(q.spawn_particle(3, 1.5_f64.to_bits(), (-2.0_f64).to_bits(), 0.25_f64.to_bits(), 1.0_f32.to_bits()));
    let mut expected = vec![CMD_SPAWN_PARTICLE, 32];
    expected.extend_from_slice(&3_u32.to_le_bytes());
    expected.extend_from_slice(&1.5_f64.to_le_bytes());
    expected.extend_from_slice(&(-2.0_f64).to_le_bytes());
    expected.extend_from_slice(&0.25_f64.to_le_bytes());
    expected.extend_from_slice(&1.0_f32.to_le_bytes());
    assert_eq!(pending(&q), expected);
}

#[test]
fn set_velocity_payload_layout() {
    let mut q = new_queue();
    assert!(q.set_velocity(-5, 0.5_f32.to_bits(), 1.0_f32.to_bits(), (-1.0_f32).to_bits()));
    let mut expected = vec![CMD_SET_VELOCITY, 16];
    expected.extend_from_slice(&(-5_i32).to_le_bytes());
    expected.extend_from_slice(&0.5_f32.to_le_bytes());
    expected.extend_from_slice(&1.0_f32.to_le_bytes());
    expected.extend_from_slice(&(-1.0_f32).to_le_bytes());
    assert_eq!(pending(&q), expected);
}

#[test]
fn kill_entity_payload_layout() {
    let mut q = new_queue();
    assert!(q.kill_entity(i32::MIN));
    assert_eq!(pending(&q), vec![CMD_KILL_ENTITY, 4, 0, 0, 0, 0x80]);
}

/// The host's reading of the unread bytes: records of a type byte, a length
/// byte and the payload.
fn read_records(bytes: &[u8]) -> Vec<(u8, Vec<u8>)> {
    let mut out = Vec::new();
    let mut i = 0;
    while i < bytes.len() {
        let n = bytes[i + 1] as usize;
        out.push((bytes[i], bytes[i + 2..i + 2 + n].to_vec()));
        i += 2 + n;
    }
    out
}

#[test]
fn host_reads_back_commands_in_order() {
    let mut q = new_queue();
    q.set_head((CQ_CAPACITY - 5) as u32);
    q.set_tail((CQ_CAPACITY - 5) as u32);
    assert!(q.kill_entity(9));
    assert!(q.send_chat(2, "ok"));
    assert!(q.set_block(1, 2, 3, 4));
    let records = read_records(&pending(&q));
    assert_eq!(records.len(), 3);
    assert_eq!(records[0], (CMD_KILL_ENTITY, 9_i32.to_le_bytes().to_vec()));
    assert_eq!(records[1], (CMD_SEND_CHAT, vec![2, 0, 0, 0, 2, b'o', b'k']));
    assert_eq!(records[2].0, CMD_SET_BLOCK);
    assert_eq!(records[2].1.len(), 16);
}
