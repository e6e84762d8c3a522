use graphite::commands::CommandQueue;
use graphite::protocol::CQ_REGION_LEN;
use graphite::bridge::{debug_info, debug_info_line, reload_accepted};
use graphite::protocol::{
    CQ_TAIL_OFFSET, OFFSET_COMMAND_COUNT, OFFSET_COMMAND_QUEUE, OFFSET_SNAPSHOT_READY,
    OFFSET_WORLD_SNAPSHOT,
};
use graphite::shared_mem::{prepare_init, InitError, RegionError, SharedRegion};
use graphite::text::to_decimal;
use graphite::tick::{stats_line, TickCycle, TickStep};

#[test]
fn region_refuses_null_empty_and_misaligned() {
    assert_eq!(SharedRegion::try_from_raw(0, 64).err(), Some(RegionError::NullPointer));
    assert_eq!(SharedRegion::try_from_raw(0, 0).err(), Some(RegionError::NullPointer));
    assert_eq!(SharedRegion::try_from_raw(0x1000, 0).err(), Some(RegionError::TooSmall));
    assert_eq!(SharedRegion::try_from_raw(0x1004, 64).err(), Some(RegionError::Misaligned));
    let r = SharedRegion::try_from_raw(0x1008, 64).ok().unwrap();
    assert_eq!(r.addr(), 0x1008);
    assert_eq!(r.len(), 64);
}

#[test]
fn region_error_messages() {
    assert_eq!(RegionError::NullPointer.message(), "SharedRegion: null pointer");
    assert_eq!(RegionError::TooSmall.message(), "SharedRegion: buffer too small");
    assert_eq!(RegionError::Misaligned.message(), "SharedRegion: pointer must be 8-byte aligned");
    assert_eq!(InitError::StateTooSmall.message(), "state buffer too small");
    assert_eq!(InitError::EventRing(RegionError::TooSmall).message(), "SharedRegion: buffer too small");
}

#[test]
fn region_field_addresses() {
    let r = SharedRegion::try_from_raw(0x10_0000, 0x40000).ok().unwrap();
    assert_eq!(r.snapshot_ready_addr(), 0x10_0000 + OFFSET_SNAPSHOT_READY);
    assert_eq!(r.command_count_addr(), 0x10_0000 + OFFSET_COMMAND_COUNT);
    assert_eq!(r.world_snapshot_ptr(), 0x10_0000 + OFFSET_WORLD_SNAPSHOT);
    assert_eq!(r.command_queue_ptr(), 0x10_0000 + OFFSET_COMMAND_QUEUE);
    assert_eq!(r.command_queue_ptr_mut(), 0x10_0000 + OFFSET_COMMAND_QUEUE);
    assert_eq!(r.command_queue_tail_addr(), 0x10_0000 + OFFSET_COMMAND_QUEUE + CQ_TAIL_OFFSET);
}

#[test]
fn init_checks_state_size_first() {
    assert_eq!(prepare_init(0, 16, 0, 0).err(), Some(InitError::StateTooSmall));
    assert_eq!(
        prepare_init(0x1000, OFFSET_COMMAND_QUEUE + 31, 0x2000, 8).err(),
        Some(InitError::StateTooSmall)
    );
    assert_eq!(
        prepare_init(0, OFFSET_COMMAND_QUEUE + 32, 0x2000, 8).err(),
        Some(InitError::State(RegionError::NullPointer))
    );
    assert_eq!(
        prepare_init(0x1000, OFFSET_COMMAND_QUEUE + 32, 0x2003, 8).err(),
        Some(InitError::EventRing(RegionError::Misaligned))
    );
    let (state, ring) = prepare_init(0x1000, OFFSET_COMMAND_QUEUE + 32, 0x2000, 8).ok().unwrap();
    assert_eq!(state.addr(), 0x1000);
    assert_eq!(state.len(), OFFSET_COMMAND_QUEUE + 32);
    assert_eq!(ring.addr(), 0x2000);
    assert_eq!(ring.len(), 8);
}

#[test]
fn tick_cycle_waits_until_new_tick_or_ready_snapshot() {
    let c = TickCycle::new();
    assert!(c.must_wait(0, true, false));
    assert!(!c.must_wait(1, true, false));
    assert!(!c.must_wait(0, true, true));
    assert!(!c.must_wait(0, false, false));
}

#[test]
fn tick_cycle_runs_and_counts() {
    let mut c = TickCycle::new();
    assert_eq!(c.begin_tick(5, true), TickStep::Run(5));
    assert_eq!(c.last_tick(), 5);
    assert!(c.must_wait(5, true, false));
    assert_eq!(c.finish_tick(100, 130), 30);
    assert_eq!(c.tick_count(), 1);
    assert_eq!(c.begin_tick(6, false), TickStep::Stop);
    assert_eq!(c.last_tick(), 5);
}

#[test]
fn command_count_wraps() {
    let mut c = TickCycle::new();
    assert_eq!(c.finish_tick(u32::MAX - 1, 3), 5);
    assert_eq!(c.finish_tick(7, 7), 0);
    assert_eq!(c.tick_count(), 2);
}

#[test]
fn stats_line_format() {
    assert_eq!(stats_line(0, 0), "ticks=0 | mods=0");
    assert_eq!(stats_line(12345, 2), "ticks=12345 | mods=2");
}

#[test]
fn decimal_rendering() {
    assert_eq!(to_decimal(0), "0");
    assert_eq!(to_decimal(9), "9");
    assert_eq!(to_decimal(10), "10");
    assert_eq!(to_decimal(1_000_000), "1000000");
    assert_eq!(to_decimal(u64::MAX), u64::MAX.to_string());
}

#[test]
fn debug_info_format() {
    assert_eq!(
        debug_info_line("0.1.0", "1.80.0", "linux", Some("ticks=1 | mods=0")),
        "Graphite v0.1.0 | Rust 1.80.0 | platform: linux | runtime: ticks=1 | mods=0"
    );
    assert_eq!(
        debug_info_line("0.1.0", "1.80.0", "windows", None),
        "Graphite v0.1.0 | Rust 1.80.0 | platform: windows | runtime: not initialized"
    );
    let line = debug_info("0.1.0", "linux", None);
    assert!(line.starts_with("Graphite v0.1.0 | Rust "));
    assert!(line.ends_with(" | platform: linux | runtime: not initialized"));
    let rust = &line["Graphite v0.1.0 | Rust ".len()..line.len() - " | platform: linux | runtime: not initialized".len()];
    let core_end = rust.find(|c: char| c == '-' || c == '+').unwrap_or(rust.len());
    let numbers: Vec<&str> = rust[..core_end].split('.').collect();
    assert_eq!(numbers.len(), 3);
    for n in numbers {
        assert!(!n.is_empty() && n.chars().all(|c| c.is_ascii_digit()));
        assert!(n == "0" || !n.starts_with('0'));
    }
    assert!(rust[core_end..]
        .chars()
        .all(|c| c.is_ascii_alphanumeric() || c == '-' || c == '.' || c == '+'));
}

#[test]
fn reload_answer() {
    assert!(reload_accepted(&Some(Ok(()))));
    assert!(!reload_accepted(&Some(Err("reload queue error: full".to_string()))));
    assert!(!reload_accepted(&None));
}

#[test]
fn command_count_of_a_push_is_its_record_length() {
    let mut q = CommandQueue::from_region(&vec![0_u8; CQ_REGION_LEN]);
    q.set_head(u32::MAX - 1);
    q.set_tail(u32::MAX - 1);
    let mut c = TickCycle::new();
    let before = q.tail();
    assert!(q.send_chat(1, "abc"));
    assert_eq!(c.finish_tick(before, q.tail()), 2 + 5 + 3);
}
