//! The decisions of the runtime's tick thread: when to wait, when to stop,
//! which tick to run, and what to report after a tick.  The thread itself
//! (waiting, loading and calling mods) runs outside the library and asks these
//! functions at each step.
use crate::commands::{command_record, cq_tail, lemma_pushed_parts, pushed_region};
use crate::protocol::{CQ_MAX_PAYLOAD, CQ_REGION_LEN};
use crate::text::{decimal, push_decimal};
use vstd::arithmetic::div_mod::{
    lemma_add_mod_noop, lemma_fundamental_div_mod, lemma_fundamental_div_mod_converse_mod, lemma_mod_bound,
    lemma_small_mod,
};
use vstd::prelude::*;
use vstd::string::StringExecFns;

verus! {

/// The number of command bytes written between two readings of the queue's
/// producer position, modulo 2^32.
pub open spec fn command_count(tail_before: int, tail_after: int) -> int {
    (tail_after - tail_before) % 0x1_0000_0000
}

/// What the tick thread does next.
#[derive(Clone, Copy, Debug, PartialEq, Eq, Structural)]
pub enum TickStep {
    /// Leave the loop.
    Stop,
    /// Run the given tick.
    Run(u64),
}

/// The tick thread's own state: the last tick it ran and how many ticks it
/// has run.
pub struct TickCycle {
    last_tick: u64,
    tick_count: u64,
}

impl TickCycle {
    pub closed spec fn last(self) -> u64 {
        self.last_tick
    }

    pub closed spec fn count(self) -> u64 {
        self.tick_count
    }

    pub fn new() -> (c: TickCycle)
        ensures
            c.last() == 0,
            c.count() == 0,
    {
        TickCycle { last_tick: 0, tick_count: 0 }
    }

    pub fn last_tick(&self) -> (t: u64)
        ensures
            t == self.last(),
    {
        self.last_tick
    }

    pub fn tick_count(&self) -> (n: u64)
        ensures
            n == self.count(),
    {
        self.tick_count
    }

    /// The thread keeps waiting while no new tick was signalled, it is still
    /// running and the host has not marked a fresh snapshot.
    pub fn must_wait(&self, signalled: u64, running: bool, snapshot_ready: bool) -> (w: bool)
        ensures
            w == (signalled == self.last() && running && !snapshot_ready),
    {
        signalled == self.last_tick && running && !snapshot_ready
    }

    /// After waiting: stop when no longer running, else run the signalled
    /// tick and remember it.
    pub fn begin_tick(&mut self, signalled: u64, running: bool) -> (step: TickStep)
        ensures
            !running ==> step == TickStep::Stop && final(self).last() == old(self).last(),
            running ==> step == TickStep::Run(signalled) && final(self).last() == signalled,
            final(self).count() == old(self).count(),
    {
        if !running {
            return TickStep::Stop;
        }
        self.last_tick = signalled;
        TickStep::Run(signalled)
    }

    /// After the mods ran: count the tick (wrapping at 2^64) and give the
    /// number of command bytes that the tick wrote.
    pub fn finish_tick(&mut self, tail_before: u32, tail_after: u32) -> (written: u32)
        ensures
            written == command_count(tail_before as int, tail_after as int),
            final(self).count() == (old(self).count() + 1) % 0x1_0000_0000_0000_0000,
            final(self).last() == old(self).last(),
    {
        self.tick_count = self.tick_count.wrapping_add(1);
        tail_after.wrapping_sub(tail_before)
    }
}

/// The runtime's statistics line.
pub fn stats_line(ticks: u64, mods: u64) -> (s: String)
    ensures
        s@ == "ticks="@ + decimal(ticks as nat) + " | mods="@ + decimal(mods as nat),
{
    let mut s = String::new();
    s.append("ticks=");
    push_decimal(&mut s, ticks);
    s.append(" | mods=");
    push_decimal(&mut s, mods);
    assert(s@ =~= "ticks="@ + decimal(ticks as nat) + " | mods="@ + decimal(mods as nat));
    s
}

/// Law: the command count reported for a tick in which one command was
/// pushed is the length of that command's record.
pub proof fn lemma_command_count_of_push(r: Seq<u8>, cmd: u8, payload: Seq<u8>)
    requires
        r.len() == CQ_REGION_LEN,
        payload.len() <= CQ_MAX_PAYLOAD,
    ensures
        command_count(cq_tail(r), cq_tail(pushed_region(r, cmd, payload))) == command_record(cmd, payload).len(),
{
    lemma_pushed_parts(r, cmd, payload);
    let m: int = 0x1_0000_0000;
    let t = cq_tail(r);
    let total: int = 2 + payload.len() as int;
    crate::le::lemma_le_u32_bytes_roundtrip(r, 4);
    lemma_fundamental_div_mod(t + total, m);
    lemma_fundamental_div_mod_converse_mod((t + total) % m - t, m, -((t + total) / m), total);
}

/// Law: the command count of a tick is the number of bytes by which the
/// producer position advanced: the count is below 2^32, and adding it to the
/// position before the tick, wrapping at 2^32, gives the position after.
pub proof fn lemma_command_count_is_advance(tail_before: u32, tail_after: u32)
    ensures
        0 <= command_count(tail_before as int, tail_after as int) < 0x1_0000_0000,
        (tail_before + command_count(tail_before as int, tail_after as int)) % 0x1_0000_0000 == tail_after,
{
    let m: int = 0x1_0000_0000;
    let d = tail_after - tail_before;
    lemma_fundamental_div_mod(d, m);
    lemma_mod_bound(d, m);
    let c = d % m;
    if d >= 0 {
        lemma_fundamental_div_mod_converse_mod(d, m, 0, d);
        lemma_small_mod((tail_before + c) as nat, m as nat);
    } else {
        lemma_fundamental_div_mod_converse_mod(d, m, -1, d + m);
        lemma_fundamental_div_mod_converse_mod(tail_before + c, m, 1, tail_after as int);
    }
}

/// The region after pushing each command of `cmds` in turn, every push
/// accepted.
pub open spec fn pushed_in_turn(r: Seq<u8>, cmds: Seq<(u8, Seq<u8>)>) -> Seq<u8>
    decreases cmds.len(),
{
    if cmds.len() == 0 {
        r
    } else {
        pushed_region(pushed_in_turn(r, cmds.drop_last()), cmds.last().0, cmds.last().1)
    }
}

/// The bytes that the records of `cmds` take: a type byte, a length byte and
/// the payload for each.
pub open spec fn records_len(cmds: Seq<(u8, Seq<u8>)>) -> int
    decreases cmds.len(),
{
    if cmds.len() == 0 {
        0
    } else {
        records_len(cmds.drop_last()) + 2 + cmds.last().1.len()
    }
}

/// The producer position moves by `k` bytes from a position that lies `d`
/// bytes after `t0`.
proof fn lemma_advance_mod(t0: int, d: int, k: int)
    requires
        0 <= d,
        0 <= k < 0x1_0000_0000,
    ensures
        (((t0 + d) % 0x1_0000_0000) + k) % 0x1_0000_0000 == (t0 + d + k) % 0x1_0000_0000,
{
    let m: int = 0x1_0000_0000;
    lemma_add_mod_noop(t0 + d, k, m);
    lemma_small_mod(k as nat, m as nat);
    lemma_mod_bound(t0 + d, m);
    lemma_add_mod_noop((t0 + d) % m, k, m);
    lemma_small_mod(((t0 + d) % m) as nat, m as nat);
}

/// Pushing the commands of `cmds` in turn keeps the region's length and moves
/// the producer position by their records' total length, wrapping at 2^32.
proof fn lemma_tail_after_pushes(r: Seq<u8>, cmds: Seq<(u8, Seq<u8>)>)
    requires
        r.len() == CQ_REGION_LEN,
        forall|i: int| 0 <= i < cmds.len() ==> (#[trigger] cmds[i]).1.len() <= CQ_MAX_PAYLOAD,
    ensures
        pushed_in_turn(r, cmds).len() == CQ_REGION_LEN,
        cq_tail(pushed_in_turn(r, cmds)) == (cq_tail(r) + records_len(cmds)) % 0x1_0000_0000,
        records_len(cmds) >= 0,
    decreases cmds.len(),
{
    crate::le::lemma_le_u32_bytes_roundtrip(r, 4);
    if cmds.len() == 0 {
        lemma_small_mod(cq_tail(r) as nat, 0x1_0000_0000nat);
    } else {
        let rest = cmds.drop_last();
        assert forall|i: int| 0 <= i < rest.len() implies (#[trigger] rest[i]).1.len() <= CQ_MAX_PAYLOAD by {
            assert(rest[i] == cmds[i]);
        }
        lemma_tail_after_pushes(r, rest);
        let prev = pushed_in_turn(r, rest);
        let last = cmds.last();
        assert(last == cmds[cmds.len() - 1]);
        lemma_pushed_parts(prev, last.0, last.1);
        lemma_advance_mod(cq_tail(r), records_len(rest), 2 + last.1.len() as int);
    }
}

/// Law: the command count reported for a tick in which the mods pushed the
/// commands of `cmds`, all accepted, is the total length of their records,
/// as long as that total stays below 2^32.
pub proof fn lemma_command_count_of_pushes(r: Seq<u8>, cmds: Seq<(u8, Seq<u8>)>)
    requires
        r.len() == CQ_REGION_LEN,
        forall|i: int| 0 <= i < cmds.len() ==> (#[trigger] cmds[i]).1.len() <= CQ_MAX_PAYLOAD,
        records_len(cmds) < 0x1_0000_0000,
    ensures
        command_count(cq_tail(r), cq_tail(pushed_in_turn(r, cmds))) == records_len(cmds),
{
    let m: int = 0x1_0000_0000;
    lemma_tail_after_pushes(r, cmds);
    crate::le::lemma_le_u32_bytes_roundtrip(r, 4);
    let t0 = cq_tail(r);
    let n = records_len(cmds);
    lemma_fundamental_div_mod(t0 + n, m);
    lemma_fundamental_div_mod_converse_mod((t0 + n) % m - t0, m, -((t0 + n) / m), n);
}

} // verus!
