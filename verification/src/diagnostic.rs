//! The diagnostic mod: checks the protocol it was loaded with, greets the
//! world once a player is present, reports every 100 ticks in chat, asks for a
//! ring of particles around each player every 20 ticks, and hands back a log
//! record at most once per 100 ticks.  The rings themselves are computed with
//! floating point outside the library, between `on_tick_start` and
//! `on_tick_finish`.
use crate::commands::{chat_payload, push_result, CommandQueue};
use crate::protocol::{CMD_SEND_CHAT, CQ_REGION_LEN, ENTITY_RECORD_SIZE, PROTOCOL_VERSION};
use crate::text::{decimal, push_decimal};
use crate::world::{covers_entities, players_of, WorldView};
use crate::le::le_u64_at;
use crate::protocol::SNAP_TIMESTAMP_NS;
use vstd::prelude::*;
use vstd::string::{StringExecFns, StringSliceAdditionalSpecFns};
use vstd::utf8::encode_utf8;

verus! {

/// The region after a push whose answer is ignored.
pub open spec fn after_push(r: Seq<u8>, cmd: u8, payload: Seq<u8>) -> Seq<u8> {
    match push_result(r, cmd, payload) {
        Some(n) => n,
        None => r,
    }
}

/// The chat line sent every 100 ticks.
pub open spec fn status_text(tick: u64, players: nat, entities: nat) -> Seq<char> {
    "[Graphite] tick="@ + decimal(tick as nat) + " players="@ + decimal(players) + " entities="@
        + decimal(entities)
}

/// The outcome of the checks made when the mod is loaded.
#[derive(Clone, Copy, Debug, PartialEq, Eq, Structural)]
pub enum LoadCheck {
    Passed,
    ProtocolMismatch,
    EntitySizeMismatch,
}

/// What the mod reports when it logs a tick.
#[derive(Clone, Copy, Debug, PartialEq, Eq, Structural)]
pub struct TickLog {
    pub tick: u64,
    pub entity_count: usize,
    pub player_count: usize,
    pub snapshot_age_ms: u64,
    pub processed: u64,
}

/// The diagnostic mod's state.
pub struct DiagnosticMod {
    ticks_processed: u64,
    last_log_tick: u64,
    announced_world: bool,
}

impl DiagnosticMod {
    pub closed spec fn processed(self) -> u64 {
        self.ticks_processed
    }

    pub closed spec fn last_log(self) -> u64 {
        self.last_log_tick
    }

    pub closed spec fn announced(self) -> bool {
        self.announced_world
    }

    pub fn new() -> (m: DiagnosticMod)
        ensures
            m.processed() == 0,
            m.last_log() == 0,
            !m.announced(),
    {
        DiagnosticMod { ticks_processed: 0, last_log_tick: 0, announced_world: false }
    }

    /// The number of ticks processed so far.
    pub fn ticks_processed(&self) -> (n: u64)
        ensures
            n == self.processed(),
    {
        self.ticks_processed
    }

    /// The checks made at load: the protocol version first, then the size of
    /// an entity record.
    pub fn on_load(&mut self, protocol_version: u32, entity_record_size: u32) -> (c: LoadCheck)
        ensures
            c == (if protocol_version != PROTOCOL_VERSION {
                LoadCheck::ProtocolMismatch
            } else if entity_record_size != ENTITY_RECORD_SIZE {
                LoadCheck::EntitySizeMismatch
            } else {
                LoadCheck::Passed
            }),
            final(self).processed() == old(self).processed(),
            final(self).last_log() == old(self).last_log(),
            final(self).announced() == old(self).announced(),
    {
        if protocol_version != PROTOCOL_VERSION {
            return LoadCheck::ProtocolMismatch;
        }
        if entity_record_size != ENTITY_RECORD_SIZE as u32 {
            return LoadCheck::EntitySizeMismatch;
        }
        LoadCheck::Passed
    }

    /// First part of a tick: count it, greet the world once when a player is
    /// present, and say whether the particle rings are due (every 20 ticks).
    pub fn on_tick_start(&mut self, world: &WorldView, cmd: &mut CommandQueue, tick: u64) -> (rings_due: bool)
        requires
            old(self).processed() < u64::MAX,
            !old(self).announced() ==> covers_entities(world@),
        ensures
            rings_due == (tick % 20 == 0),
            final(self).processed() == old(self).processed() + 1,
            final(self).last_log() == old(self).last_log(),
            final(cmd)@.len() == CQ_REGION_LEN,
            ({
                let greet = !old(self).announced() && players_of(world@).len() > 0;
                &&& greet ==> final(self).announced() && final(cmd)@ == after_push(
                    old(cmd)@,
                    CMD_SEND_CHAT,
                    chat_payload(u32::MAX, "[Graphite] Rust mod active".spec_bytes()),
                )
                &&& !greet ==> final(self).announced() == old(self).announced() && final(cmd)@ == old(cmd)@
            }),
    {
        proof {
            use_type_invariant(&*cmd);
        }
        self.ticks_processed = self.ticks_processed + 1;
        if !self.announced_world {
            let players = world.players();
            if players.len() > 0 {
                let _ = cmd.send_chat(u32::MAX, "[Graphite] Rust mod active");
                self.announced_world = true;
            }
        }
        tick % 20 == 0
    }

    /// Second part of a tick: the status line in chat every 100 ticks, and a
    /// log record when at least 100 ticks passed since the last one (counted
    /// from 0, not going below 0).
    pub fn on_tick_finish(&mut self, world: &WorldView, cmd: &mut CommandQueue, tick: u64) -> (log: Option<TickLog>)
        requires
            (tick % 100 == 0 || !(tick < old(self).last_log() || tick - old(self).last_log() < 100))
                ==> covers_entities(world@),
        ensures
            final(cmd)@.len() == CQ_REGION_LEN,
            final(self).processed() == old(self).processed(),
            final(self).announced() == old(self).announced(),
            tick % 100 == 0 ==> final(cmd)@ == after_push(
                old(cmd)@,
                CMD_SEND_CHAT,
                chat_payload(
                    u32::MAX,
                    encode_utf8(
                        status_text(
                            tick,
                            players_of(world@).len(),
                            world@.entity_count,
                        ),
                    ),
                ),
            ),
            tick % 100 != 0 ==> final(cmd)@ == old(cmd)@,
            (tick < old(self).last_log() || tick - old(self).last_log() < 100) ==> log is None
                && final(self).last_log() == old(self).last_log(),
            !(tick < old(self).last_log() || tick - old(self).last_log() < 100) ==> final(self).last_log() == tick
                && log == Some(
                TickLog {
                    tick,
                    entity_count: world@.entity_count as usize,
                    player_count: players_of(world@).len() as usize,
                    snapshot_age_ms: (le_u64_at(world@.bytes, SNAP_TIMESTAMP_NS as int) / 1_000_000) as u64,
                    processed: old(self).processed(),
                },
            ),
    {
        proof {
            use_type_invariant(&*cmd);
        }
        if tick % 100 == 0 {
            let players = world.players();
            let mut msg = String::new();
            msg.append("[Graphite] tick=");
            push_decimal(&mut msg, tick);
            msg.append(" players=");
            push_decimal(&mut msg, players.len() as u64);
            msg.append(" entities=");
            push_decimal(&mut msg, world.entity_count() as u64);
            assert(msg@ =~= status_text(tick, players@.len(), world@.entity_count));
            let _ = cmd.send_chat(u32::MAX, msg.as_str());
        }
        if tick.saturating_sub(self.last_log_tick) < 100 {
            return None;
        }
        self.last_log_tick = tick;
        let entity_count = world.entity_count();
        let player_count = world.players().len();
        let timestamp_ms = world.timestamp_ns() / 1_000_000;
        Some(TickLog { tick, entity_count, player_count, snapshot_age_ms: timestamp_ms, processed: self.ticks_processed })
    }

    /// Called when the mod is unloaded: the number of ticks it processed.
    pub fn on_unload(&mut self) -> (processed: u64)
        ensures
            processed == old(self).processed(),
            final(self).processed() == old(self).processed(),
            final(self).last_log() == old(self).last_log(),
            final(self).announced() == old(self).announced(),
    {
        self.ticks_processed
    }
}

} // verus!
