//! The command queue: a ring of bytes in shared memory into which the runtime
//! writes commands (a type byte, a length byte and the payload) and from which
//! the host consumes them.
//!
//! Region layout: bytes 0..4 hold the consumer's position `head`, bytes 4..8 the
//! producer's position `tail` (both little-endian `u32` that only grow, wrapping
//! at 2^32), bytes 8..16 the host's capacity field, and the ring of
//! `CQ_CAPACITY` bytes follows.  Stream position `p` lives at ring index
//! `p % CQ_CAPACITY`.
use crate::le::{
    extend_u32_le, extend_u64_le, i32_bits, i32_to_bits, le_u32_at, lemma_le_u32_bytes_roundtrip,
    lemma_u32_le_roundtrip, read_u32_le, u32_le, u32_to_le, u64_le,
};
use crate::protocol::{
    CQ_CAPACITY, CQ_CAPACITY_OFFSET, CQ_DATA_OFFSET, CQ_HEAD_OFFSET, CQ_MAX_PAYLOAD, CQ_REGION_LEN,
    CQ_TAIL_OFFSET, CMD_KILL_ENTITY, CMD_SEND_CHAT, CMD_SET_BLOCK, CMD_SET_VELOCITY, CMD_SPAWN_PARTICLE,
};
use vstd::arithmetic::div_mod::*;
use vstd::prelude::*;
use vstd::string::StringSliceAdditionalSpecFns;

verus! {

/// The consumer position stored in a command-queue region.
pub open spec fn cq_head(r: Seq<u8>) -> int {
    le_u32_at(r, CQ_HEAD_OFFSET as int)
}

/// The producer position stored in a command-queue region.
pub open spec fn cq_tail(r: Seq<u8>) -> int {
    le_u32_at(r, CQ_TAIL_OFFSET as int)
}

/// The ring bytes of a command-queue region.
pub open spec fn cq_data(r: Seq<u8>) -> Seq<u8> {
    r.subrange(CQ_DATA_OFFSET as int, r.len() as int)
}

/// Bytes written but not yet consumed: `tail - head`, modulo 2^32.
pub open spec fn cq_used(r: Seq<u8>) -> int {
    (cq_tail(r) - cq_head(r)) % 0x1_0000_0000
}

/// The bytes that one command occupies in the ring.
pub open spec fn command_record(cmd: u8, payload: Seq<u8>) -> Seq<u8> {
    seq![cmd, payload.len() as u8] + payload
}

/// Whether a push of a payload of `payload_len` bytes is accepted: the payload
/// fits its length byte's limit and the ring keeps at least one byte free.
pub open spec fn push_accepted(r: Seq<u8>, payload_len: int) -> bool {
    &&& payload_len <= CQ_MAX_PAYLOAD
    &&& cq_used(r) + 2 + payload_len < CQ_CAPACITY
}

/// The ring after writing `rec` starting at stream position `start`: ring index
/// `j` gets `rec[k]` where `k` is the distance from `start` to `j` around the
/// ring, if `k` falls inside `rec`.
pub open spec fn ring_write(data: Seq<u8>, start: int, rec: Seq<u8>) -> Seq<u8> {
    Seq::new(
        data.len(),
        |j: int|
            if (j - start) % (CQ_CAPACITY as int) < rec.len() {
                rec[(j - start) % (CQ_CAPACITY as int)]
            } else {
                data[j]
            },
    )
}

/// The region after an accepted push: the record is written at the tail and
/// the tail advances by the record's length, wrapping at 2^32.
#[verifier::opaque]
pub open spec fn pushed_region(r: Seq<u8>, cmd: u8, payload: Seq<u8>) -> Seq<u8> {
    let rec = command_record(cmd, payload);
    r.subrange(0, CQ_TAIL_OFFSET as int) + u32_le((cq_tail(r) + rec.len()) % 0x1_0000_0000)
        + r.subrange(CQ_CAPACITY_OFFSET as int, CQ_DATA_OFFSET as int) + ring_write(
        cq_data(r),
        cq_tail(r),
        rec,
    )
}

/// What a push does to a region: `None` when it is refused.
pub open spec fn push_result(r: Seq<u8>, cmd: u8, payload: Seq<u8>) -> Option<Seq<u8>> {
    if push_accepted(r, payload.len() as int) {
        Some(pushed_region(r, cmd, payload))
    } else {
        None
    }
}

/// The bytes that the consumer has still to read, in stream order.
pub open spec fn pending(r: Seq<u8>) -> Seq<u8> {
    Seq::new(cq_used(r) as nat, |i: int| cq_data(r)[(cq_head(r) + i) % (CQ_CAPACITY as int)])
}

/// A push of `cmd` with `payload` took region `old` to region `new` and
/// answered `accepted`.
pub open spec fn push_outcome(old: Seq<u8>, new: Seq<u8>, accepted: bool, cmd: u8, payload: Seq<u8>) -> bool {
    match push_result(old, cmd, payload) {
        Some(r) => accepted && new == r,
        None => !accepted && new == old,
    }
}

/// Payload of a block change: x, y, z and the block state, each as four
/// little-endian bytes.
pub open spec fn set_block_payload(x: i32, y: i32, z: i32, state_id: u32) -> Seq<u8> {
    u32_le(i32_bits(x as int)) + u32_le(i32_bits(y as int)) + u32_le(i32_bits(z as int)) + u32_le(
        state_id as int,
    )
}

/// How many bytes of a chat message are sent: at most 249.
pub open spec fn chat_len(msg: Seq<u8>) -> int {
    if msg.len() < 249 {
        msg.len() as int
    } else {
        249
    }
}

/// Payload of a chat message: the player, the length byte and the first
/// `chat_len` bytes of the message.
pub open spec fn chat_payload(player_id: u32, msg: Seq<u8>) -> Seq<u8> {
    u32_le(player_id as int) + seq![chat_len(msg) as u8] + msg.take(chat_len(msg))
}

/// Law: a chat payload is the player as four little-endian bytes, then the
/// number `n` of message bytes sent, then the message's first `n` bytes,
/// where `n` is the message's length when it is under 249 bytes and 249
/// otherwise.
pub proof fn lemma_chat_payload_is_prefix(player_id: u32, msg: Seq<u8>)
    ensures
        ({
            let n: int = if msg.len() < 249 { msg.len() as int } else { 249 };
            let p = chat_payload(player_id, msg);
            &&& p.len() == 5 + n
            &&& p.subrange(0, 4) == u32_le(player_id as int)
            &&& p[4] == n
            &&& p.subrange(5, 5 + n) == msg.subrange(0, n)
        }),
{
    let n: int = if msg.len() < 249 { msg.len() as int } else { 249 };
    let p = chat_payload(player_id, msg);
    assert(p.subrange(0, 4) =~= u32_le(player_id as int));
    assert(p.subrange(5, 5 + n) =~= msg.subrange(0, n));
}

/// Payload of a particle spawn: the particle, the bit patterns of the three
/// `f64` coordinates and of the `f32` count.
pub open spec fn particle_payload(particle_id: u32, x: u64, y: u64, z: u64, count: u32) -> Seq<u8> {
    u32_le(particle_id as int) + u64_le(x as int) + u64_le(y as int) + u64_le(z as int) + u32_le(
        count as int,
    )
}

/// Payload of a velocity change: the entity and the bit patterns of the three
/// `f32` components.
pub open spec fn velocity_payload(entity_id: i32, vx: u32, vy: u32, vz: u32) -> Seq<u8> {
    u32_le(i32_bits(entity_id as int)) + u32_le(vx as int) + u32_le(vy as int) + u32_le(vz as int)
}

/// Payload of a kill: the entity as four little-endian bytes.
pub open spec fn kill_payload(entity_id: i32) -> Seq<u8> {
    u32_le(i32_bits(entity_id as int))
}

/// The commands that a reader gets from a byte stream, record by record: a
/// type byte, a length byte `n`, then `n` payload bytes.  `None` when the
/// stream ends inside a record.
pub open spec fn decode_records(bytes: Seq<u8>) -> Option<Seq<(u8, Seq<u8>)>>
    decreases bytes.len(),
{
    if bytes.len() == 0 {
        Some(Seq::empty())
    } else if bytes.len() < 2 + bytes[1] {
        None
    } else {
        match decode_records(bytes.subrange(2 + bytes[1], bytes.len() as int)) {
            Some(rest) => Some(seq![(bytes[0], bytes.subrange(2, 2 + bytes[1]))] + rest),
            None => None,
        }
    }
}

/// Reading a stream of whole records followed by one more record gives the
/// commands of the stream followed by that command.
pub proof fn lemma_decode_append(a: Seq<u8>, cmd: u8, payload: Seq<u8>)
    requires
        decode_records(a) is Some,
        payload.len() <= CQ_MAX_PAYLOAD,
    ensures
        decode_records(a + command_record(cmd, payload)) == Some(decode_records(a)->Some_0.push((cmd, payload))),
    decreases a.len(),
{
    let rec = command_record(cmd, payload);
    let n = payload.len() as int;
    assert(rec[1] == n);
    assert(rec.subrange(2, 2 + n) =~= payload);
    assert(rec.subrange(2 + n, rec.len() as int) =~= Seq::<u8>::empty());
    assert(decode_records(Seq::<u8>::empty()) == Some(Seq::<(u8, Seq<u8>)>::empty()));
    if a.len() == 0 {
        assert(a + rec =~= rec);
        assert(seq![(cmd, payload)] + Seq::<(u8, Seq<u8>)>::empty() =~= Seq::<(u8, Seq<u8>)>::empty().push((cmd, payload)));
    } else {
        let m = a[1] as int;
        let rest = a.subrange(2 + m, a.len() as int);
        lemma_decode_append(rest, cmd, payload);
        let ab = a + rec;
        assert(ab[0] == a[0] && ab[1] == a[1]);
        assert(ab.subrange(2 + m, ab.len() as int) =~= rest + rec);
        assert(ab.subrange(2, 2 + m) =~= a.subrange(2, 2 + m));
        let head = seq![(a[0], a.subrange(2, 2 + m))];
        let cs = decode_records(rest)->Some_0;
        assert(head + cs.push((cmd, payload)) =~= (head + cs).push((cmd, payload)));
    }
}

/// Law: while the unread bytes are whole records, an accepted push keeps
/// them so, and the reader gets the pushed command after those it had still
/// to read.  (For regions where the head is not ahead of the tail, as for
/// `lemma_push_appends_record`.)
pub proof fn lemma_push_then_read(r: Seq<u8>, cmd: u8, payload: Seq<u8>)
    requires
        r.len() == CQ_REGION_LEN,
        cq_head(r) <= cq_tail(r),
        push_accepted(r, payload.len() as int),
        decode_records(pending(r)) is Some,
    ensures
        decode_records(pending(pushed_region(r, cmd, payload))) == Some(
            decode_records(pending(r))->Some_0.push((cmd, payload)),
        ),
{
    lemma_push_appends_record(r, cmd, payload);
    lemma_decode_append(pending(r), cmd, payload);
}

/// Index `j` of the ring is `m` steps after stream position `start` exactly
/// when the distance from `start` to `j` is `m`.
proof fn lemma_ring_offset(j: int, start: int, m: int)
    requires
        0 <= j < CQ_CAPACITY,
        0 <= m < CQ_CAPACITY,
    ensures
        (j == (start + m) % (CQ_CAPACITY as int)) <==> ((j - start) % (CQ_CAPACITY as int) == m),
{
    let c = CQ_CAPACITY as int;
    lemma_fundamental_div_mod(start + m, c);
    lemma_fundamental_div_mod(j - start, c);
    if j == (start + m) % c {
        lemma_fundamental_div_mod_converse_mod(j - start, c, -((start + m) / c), m);
    }
    if (j - start) % c == m {
        lemma_fundamental_div_mod_converse_mod(start + m, c, -((j - start) / c), j);
    }
}

/// Writing one more byte of the record updates one index of the ring.
proof fn lemma_ring_write_step(data: Seq<u8>, start: int, rec: Seq<u8>, m: int)
    requires
        data.len() == CQ_CAPACITY,
        0 <= m < rec.len(),
        rec.len() <= CQ_CAPACITY,
    ensures
        ring_write(data, start, rec.take(m + 1)) == ring_write(data, start, rec.take(m)).update(
            (start + m) % (CQ_CAPACITY as int),
            rec[m],
        ),
{
    let c = CQ_CAPACITY as int;
    let p = (start + m) % c;
    lemma_mod_bound(start + m, c);
    assert forall|j: int| 0 <= j < c implies ring_write(data, start, rec.take(m + 1))[j]
        == ring_write(data, start, rec.take(m)).update(p, rec[m])[j] by {
        lemma_ring_offset(j, start, m);
        lemma_mod_bound(j - start, c);
    }
    assert(ring_write(data, start, rec.take(m + 1)) =~= ring_write(data, start, rec.take(m)).update(
        p,
        rec[m],
    ));
}

/// The region of a command queue.  Its length is `CQ_REGION_LEN`.
pub struct CommandQueue {
    region: Vec<u8>,
}

impl CommandQueue {
    /// Every queue holds a whole region.
    #[verifier::type_invariant]
    pub open spec fn whole_region(self) -> bool {
        self@.len() == CQ_REGION_LEN
    }
}

impl View for CommandQueue {
    type V = Seq<u8>;

    closed spec fn view(&self) -> Seq<u8> {
        self.region@
    }
}

impl CommandQueue {
    /// A queue over a copy of the first `CQ_REGION_LEN` bytes of a
    /// command-queue region.
    pub fn from_region(region: &[u8]) -> (q: Self)
        requires
            region@.len() >= CQ_REGION_LEN,
        ensures
            q@ == region@.subrange(0, CQ_REGION_LEN as int),
            q@.len() == CQ_REGION_LEN,
    {
        let mut bytes: Vec<u8> = Vec::new();
        let mut i: usize = 0;
        while i < CQ_REGION_LEN
            invariant
                i <= CQ_REGION_LEN,
                region@.len() >= CQ_REGION_LEN,
                bytes@ == region@.subrange(0, i as int),
            decreases CQ_REGION_LEN - i,
        {
            bytes.push(region[i]);
            i += 1;
            assert(bytes@ =~= region@.subrange(0, i as int));
        }
        CommandQueue { region: bytes }
    }

    /// The bytes of the region, as they are to be stored back into shared
    /// memory.
    pub fn region(&self) -> (r: &[u8])
        ensures
            r@ == self@,
    {
        self.region.as_slice()
    }

    /// The consumer position.
    pub fn head(&self) -> (h: u32)
        ensures
            h == cq_head(self@),
    {
        proof {
            use_type_invariant(self);
        }
        read_u32_le(self.region.as_slice(), CQ_HEAD_OFFSET)
    }

    /// The producer position.
    pub fn tail(&self) -> (t: u32)
        ensures
            t == cq_tail(self@),
    {
        proof {
            use_type_invariant(self);
        }
        read_u32_le(self.region.as_slice(), CQ_TAIL_OFFSET)
    }

    /// Stores the consumer position, as the host does when it has consumed
    /// commands.
    pub fn set_head(&mut self, head: u32)
        ensures
            final(self)@ == u32_le(head as int) + old(self)@.subrange(CQ_TAIL_OFFSET as int, CQ_REGION_LEN as int),
            final(self)@.len() == CQ_REGION_LEN,
            cq_head(final(self)@) == head,
            cq_tail(final(self)@) == cq_tail(old(self)@),
    {
        proof {
            use_type_invariant(&*self);
        }
        proof { lemma_u32_le_roundtrip(head as int); }
        self.store_u32(CQ_HEAD_OFFSET, head);
        assert(old(self)@.subrange(0, 0) =~= Seq::<u8>::empty());
        assert(self.region@ =~= u32_le(head as int) + old(self)@.subrange(CQ_TAIL_OFFSET as int, CQ_REGION_LEN as int));
    }

    /// Stores the producer position.
    pub fn set_tail(&mut self, tail: u32)
        ensures
            final(self)@ == old(self)@.subrange(0, CQ_TAIL_OFFSET as int) + u32_le(tail as int) + old(
                self,
            )@.subrange(CQ_CAPACITY_OFFSET as int, CQ_REGION_LEN as int),
            final(self)@.len() == CQ_REGION_LEN,
            cq_tail(final(self)@) == tail,
            cq_head(final(self)@) == cq_head(old(self)@),
    {
        proof {
            use_type_invariant(&*self);
        }
        proof { lemma_u32_le_roundtrip(tail as int); }
        self.store_u32(CQ_TAIL_OFFSET, tail);
    }

    /// Empties the queue: both positions become 0; the ring bytes stay.
    pub fn reset(&mut self)
        ensures
            final(self)@ == u32_le(0) + u32_le(0) + old(self)@.subrange(CQ_CAPACITY_OFFSET as int, CQ_REGION_LEN as int),
            final(self)@.len() == CQ_REGION_LEN,
            pending(final(self)@).len() == 0,
    {
        proof {
            use_type_invariant(&*self);
        }
        self.store_u32(CQ_HEAD_OFFSET, 0);
        self.store_u32(CQ_TAIL_OFFSET, 0);
        assert(self.region@ =~= u32_le(0) + u32_le(0) + old(self)@.subrange(CQ_CAPACITY_OFFSET as int, CQ_REGION_LEN as int));
        proof { lemma_reset_empties(old(self)@); }
    }

    /// Sets ring index `pos`.
    fn set_ring_byte(&mut self, pos: usize, b: u8)
        requires
            pos < CQ_CAPACITY,
        ensures
            final(self)@ == old(self)@.update(CQ_DATA_OFFSET + pos, b),
    {
        proof {
            use_type_invariant(&*self);
        }
        self.region[CQ_DATA_OFFSET + pos] = b;
    }

    /// Stores `v` little-endian at header offset `off`.
    fn store_u32(&mut self, off: usize, v: u32)
        requires
            off + 4 <= CQ_DATA_OFFSET,
        ensures
            final(self)@ == old(self)@.subrange(0, off as int) + u32_le(v as int) + old(self)@.subrange(
                off + 4,
                CQ_REGION_LEN as int,
            ),
    {
        proof {
            use_type_invariant(&*self);
        }
        let bytes = u32_to_le(v);
        self.region[off] = bytes[0];
        self.region[off + 1] = bytes[1];
        self.region[off + 2] = bytes[2];
        self.region[off + 3] = bytes[3];
        assert(self.region@ =~= old(self)@.subrange(0, off as int) + u32_le(v as int) + old(
            self,
        )@.subrange(off + 4, CQ_REGION_LEN as int));
    }

    /// Writes the record of a command into the ring from stream position
    /// `start` on, leaving the header alone.
    fn write_record(&mut self, start: u32, cmd_type: u8, payload: &[u8])
        requires
            payload@.len() <= CQ_MAX_PAYLOAD,
        ensures
            final(self)@.len() == CQ_REGION_LEN,
            final(self)@.subrange(0, CQ_DATA_OFFSET as int) == old(self)@.subrange(0, CQ_DATA_OFFSET as int),
            cq_data(final(self)@) == ring_write(cq_data(old(self)@), start as int, command_record(cmd_type, payload@)),
    {
        proof {
            use_type_invariant(&*self);
        }
        let ghost old_region = self.region@;
        let ghost rec = command_record(cmd_type, payload@);
        let cap = CQ_CAPACITY as u64;
        let base = start as u64;
        proof {
            assert(rec.take(0) =~= Seq::<u8>::empty());
            assert(ring_write(cq_data(old_region), start as int, rec.take(0)) =~= cq_data(old_region));
            lemma_ring_write_step(cq_data(old_region), start as int, rec, 0);
        }
        self.set_ring_byte((base % cap) as usize, cmd_type);
        assert(cq_data(self.region@) =~= cq_data(old_region).update((start as int) % (CQ_CAPACITY as int), cmd_type));
        proof { lemma_ring_write_step(cq_data(old_region), start as int, rec, 1); }
        let ghost mid = self.region@;
        self.set_ring_byte(((base + 1) % cap) as usize, payload.len() as u8);
        assert(cq_data(self.region@) =~= cq_data(mid).update((start + 1) % (CQ_CAPACITY as int), rec[1]));
        let mut index: usize = 0;
        while index < payload.len()
            invariant
                0 <= index <= payload@.len(),
                payload@.len() <= CQ_MAX_PAYLOAD,
                rec == command_record(cmd_type, payload@),
                base == start,
                cap == CQ_CAPACITY,
                old_region.len() == CQ_REGION_LEN,
                self.region@.len() == CQ_REGION_LEN,
                self.region@.subrange(0, CQ_DATA_OFFSET as int) == old_region.subrange(0, CQ_DATA_OFFSET as int),
                cq_data(self.region@) == ring_write(cq_data(old_region), start as int, rec.take(2 + index)),
            decreases payload@.len() - index,
        {
            proof { lemma_ring_write_step(cq_data(old_region), start as int, rec, 2 + index); }
            let ghost before = self.region@;
            self.set_ring_byte(((base + 2 + index as u64) % cap) as usize, payload[index]);
            assert(cq_data(self.region@) =~= cq_data(before).update((start + 2 + index) % (CQ_CAPACITY as int), rec[2 + index]));
            assert(self.region@.subrange(0, CQ_DATA_OFFSET as int) =~= before.subrange(0, CQ_DATA_OFFSET as int));
            index += 1;
        }
        assert(rec.take(2 + index as int) =~= rec);
    }

    /// Appends one command to the ring.  The command is refused, and the
    /// region left unchanged, when the payload is longer than 254 bytes or
    /// when the ring would be left without a free byte.
    pub fn push(&mut self, cmd_type: u8, payload: &[u8]) -> (accepted: bool)
        ensures
            push_outcome(old(self)@, final(self)@, accepted, cmd_type, payload@),
            final(self)@.len() == CQ_REGION_LEN,
    {
        proof {
            use_type_invariant(&*self);
        }
        match self.accepted_tail(payload.len()) {
            None => false,
            Some(tail) => {
                let ghost old_region = self.region@;
                self.write_record(tail, cmd_type, payload);
                let ghost mid = self.region@;
                let new_tail = tail.wrapping_add(2 + payload.len() as u32);
                self.store_u32(CQ_TAIL_OFFSET, new_tail);
                proof { lemma_pushed_region(old_region, mid, self.region@, cmd_type, payload@); }
                true
            },
        }
    }

    /// The producer position, when a payload of `payload_len` bytes is
    /// accepted.
    fn accepted_tail(&self, payload_len: usize) -> (r: Option<u32>)
        ensures
            r is Some <==> push_accepted(self@, payload_len as int),
            r is Some ==> r->Some_0 == cq_tail(self@),
    {
        proof {
            use_type_invariant(self);
        }
        if payload_len > CQ_MAX_PAYLOAD {
            return None;
        }
        let total: u32 = 2 + payload_len as u32;
        let tail = read_u32_le(self.region.as_slice(), CQ_TAIL_OFFSET);
        let head = read_u32_le(self.region.as_slice(), CQ_HEAD_OFFSET);
        let used = tail.wrapping_sub(head);
        assert(used == cq_used(self@));
        if used as u64 + total as u64 >= CQ_CAPACITY as u64 {
            return None;
        }
        Some(tail)
    }

    /// Queues a block change at (x, y, z) to `state_id`.
    pub fn set_block(&mut self, x: i32, y: i32, z: i32, state_id: u32) -> (accepted: bool)
        ensures
            push_outcome(old(self)@, final(self)@, accepted, CMD_SET_BLOCK, set_block_payload(x, y, z, state_id)),
            final(self)@.len() == CQ_REGION_LEN,
    {
        let mut payload: Vec<u8> = Vec::new();
        extend_u32_le(&mut payload, i32_to_bits(x));
        extend_u32_le(&mut payload, i32_to_bits(y));
        extend_u32_le(&mut payload, i32_to_bits(z));
        extend_u32_le(&mut payload, state_id);
        assert(payload@ =~= set_block_payload(x, y, z, state_id));
        self.push(CMD_SET_BLOCK, payload.as_slice())
    }

    /// Queues a chat message to `player_id`; messages longer than 249 bytes are
    /// cut to their first 249 bytes.
    pub fn send_chat(&mut self, player_id: u32, message: &str) -> (accepted: bool)
        ensures
            push_outcome(old(self)@, final(self)@, accepted, CMD_SEND_CHAT, chat_payload(player_id, message.spec_bytes())),
            final(self)@.len() == CQ_REGION_LEN,
    {
        let msg = message.as_bytes();
        let msg_len: usize = if msg.len() < 249 { msg.len() } else { 249 };
        let mut payload: Vec<u8> = Vec::new();
        extend_u32_le(&mut payload, player_id);
        payload.push(msg_len as u8);
        let mut i: usize = 0;
        while i < msg_len
            invariant
                msg_len == chat_len(msg@),
                msg_len <= msg@.len(),
                i <= msg_len,
                payload@ == u32_le(player_id as int) + seq![msg_len as u8] + msg@.take(i as int),
            decreases msg_len - i,
        {
            payload.push(msg[i]);
            i += 1;
            assert(payload@ =~= u32_le(player_id as int) + seq![msg_len as u8] + msg@.take(i as int));
        }
        assert(payload@ =~= chat_payload(player_id, message.spec_bytes()));
        self.push(CMD_SEND_CHAT, payload.as_slice())
    }

    /// Queues a particle spawn.  The coordinates are the bit patterns of `f64`
    /// values and `count` that of an `f32` value (`to_bits`).
    pub fn spawn_particle(&mut self, particle_id: u32, x: u64, y: u64, z: u64, count: u32) -> (accepted: bool)
        ensures
            push_outcome(old(self)@, final(self)@, accepted, CMD_SPAWN_PARTICLE, particle_payload(particle_id, x, y, z, count)),
            final(self)@.len() == CQ_REGION_LEN,
    {
        let mut payload: Vec<u8> = Vec::new();
        extend_u32_le(&mut payload, particle_id);
        extend_u64_le(&mut payload, x);
        extend_u64_le(&mut payload, y);
        extend_u64_le(&mut payload, z);
        extend_u32_le(&mut payload, count);
        assert(payload@ =~= particle_payload(particle_id, x, y, z, count));
        self.push(CMD_SPAWN_PARTICLE, payload.as_slice())
    }

    /// Queues a velocity change.  The components are the bit patterns of `f32`
    /// values (`to_bits`).
    pub fn set_velocity(&mut self, entity_id: i32, vx: u32, vy: u32, vz: u32) -> (accepted: bool)
        ensures
            push_outcome(old(self)@, final(self)@, accepted, CMD_SET_VELOCITY, velocity_payload(entity_id, vx, vy, vz)),
            final(self)@.len() == CQ_REGION_LEN,
    {
        let mut payload: Vec<u8> = Vec::new();
        extend_u32_le(&mut payload, i32_to_bits(entity_id));
        extend_u32_le(&mut payload, vx);
        extend_u32_le(&mut payload, vy);
        extend_u32_le(&mut payload, vz);
        assert(payload@ =~= velocity_payload(entity_id, vx, vy, vz));
        self.push(CMD_SET_VELOCITY, payload.as_slice())
    }

    /// Queues the removal of an entity.
    pub fn kill_entity(&mut self, entity_id: i32) -> (accepted: bool)
        ensures
            push_outcome(old(self)@, final(self)@, accepted, CMD_KILL_ENTITY, kill_payload(entity_id)),
            final(self)@.len() == CQ_REGION_LEN,
    {
        let bytes = u32_to_le(i32_to_bits(entity_id));
        self.push(CMD_KILL_ENTITY, &bytes)
    }
}

/// Law: a push leaves the consumer position in place, advances the producer
/// position by the record's length (wrapping at 2^32) and writes the record
/// into the ring from the old producer position on.
pub proof fn lemma_pushed_parts(r: Seq<u8>, cmd: u8, payload: Seq<u8>)
    requires
        r.len() == CQ_REGION_LEN,
        payload.len() <= CQ_MAX_PAYLOAD,
    ensures
        pushed_region(r, cmd, payload).len() == CQ_REGION_LEN,
        cq_head(pushed_region(r, cmd, payload)) == cq_head(r),
        cq_tail(pushed_region(r, cmd, payload)) == (cq_tail(r) + 2 + payload.len()) % 0x1_0000_0000,
        cq_data(pushed_region(r, cmd, payload)) == ring_write(cq_data(r), cq_tail(r), command_record(cmd, payload)),
{
    reveal(pushed_region);
    let n = pushed_region(r, cmd, payload);
    let v = (cq_tail(r) + 2 + payload.len()) % 0x1_0000_0000;
    lemma_mod_bound(cq_tail(r) + 2 + payload.len(), 0x1_0000_0000);
    lemma_u32_le_roundtrip(v);
    let b = u32_le(v);
    assert(n[4] == b[0] && n[5] == b[1] && n[6] == b[2] && n[7] == b[3]);
    assert(n[0] == r[0] && n[1] == r[1] && n[2] == r[2] && n[3] == r[3]);
    assert(cq_data(n) =~= ring_write(cq_data(r), cq_tail(r), command_record(cmd, payload)));
}

/// Law: an accepted push appends the command's record to the bytes that the
/// consumer has still to read, and leaves those bytes in place.  (Stated for
/// regions whose tail has not wrapped past 2^32 while the head has not: there
/// ring index and stream position disagree.)
pub proof fn lemma_push_appends_record(r: Seq<u8>, cmd: u8, payload: Seq<u8>)
    requires
        r.len() == CQ_REGION_LEN,
        cq_head(r) <= cq_tail(r),
        push_accepted(r, payload.len() as int),
    ensures
        pending(pushed_region(r, cmd, payload)) == pending(r) + command_record(cmd, payload),
        pending(pushed_region(r, cmd, payload)).len() < CQ_CAPACITY,
{
    let n = pushed_region(r, cmd, payload);
    lemma_pushed_parts(r, cmd, payload);
    let c = CQ_CAPACITY as int;
    let m: int = 0x1_0000_0000;
    let head = cq_head(r);
    let tail = cq_tail(r);
    let rec = command_record(cmd, payload);
    let total = rec.len() as int;
    lemma_le_u32_bytes_roundtrip(r, 0);
    lemma_le_u32_bytes_roundtrip(r, 4);
    lemma_fundamental_div_mod_converse_mod(tail - head, m, 0, tail - head);
    let used = tail - head;
    assert(cq_used(r) == used);
    lemma_fundamental_div_mod(tail + total, m);
    lemma_fundamental_div_mod_converse_mod((tail + total) % m - head, m, -((tail + total) / m), used + total);
    assert(cq_used(n) == used + total);
    assert forall|i: int| 0 <= i < used + total implies #[trigger] pending(n)[i] == (pending(r) + rec)[i] by {
        if i < used {
            let p = (head + i) % c;
            lemma_fundamental_div_mod(head + i, c);
            lemma_fundamental_div_mod_converse_mod(p - tail, c, -((head + i) / c) - 1, c + i - used);
            lemma_mod_bound(head + i, c);
            assert(cq_data(n)[p] == cq_data(r)[p]);
        } else {
            let k = i - used;
            lemma_mod_bound(tail + k, c);
            lemma_ring_offset((tail + k) % c, tail, k);
            assert(cq_data(n)[(tail + k) % c] == rec[k]);
        }
    }
    assert(pending(n) =~= pending(r) + rec);
}

/// Law: after a reset nothing is left to read, and the (empty) unread bytes
/// are whole records.
pub proof fn lemma_reset_empties(r: Seq<u8>)
    requires
        r.len() == CQ_REGION_LEN,
    ensures
        pending(u32_le(0) + u32_le(0) + r.subrange(CQ_CAPACITY_OFFSET as int, CQ_REGION_LEN as int)).len() == 0,
        decode_records(pending(u32_le(0) + u32_le(0) + r.subrange(CQ_CAPACITY_OFFSET as int, CQ_REGION_LEN as int)))
            == Some(Seq::<(u8, Seq<u8>)>::empty()),
{
    let n = u32_le(0) + u32_le(0) + r.subrange(CQ_CAPACITY_OFFSET as int, CQ_REGION_LEN as int);
    assert(cq_head(n) == 0);
    assert(cq_tail(n) == 0);
    assert(pending(n) =~= Seq::<u8>::empty());
}

/// Law: a refused push leaves the region unchanged, and a push is refused
/// exactly when the payload exceeds 254 bytes or the ring would be left
/// without a free byte.
pub proof fn lemma_refused_push_keeps_region(r: Seq<u8>, new_region: Seq<u8>, accepted: bool, cmd: u8, payload: Seq<u8>)
    requires
        push_outcome(r, new_region, accepted, cmd, payload),
    ensures
        !accepted <==> (payload.len() > CQ_MAX_PAYLOAD || cq_used(r) + 2 + payload.len() >= CQ_CAPACITY),
        !accepted ==> new_region == r,
{
}

/// Assembling the header and the written ring gives `pushed_region`.
proof fn lemma_pushed_region(old_region: Seq<u8>, mid: Seq<u8>, new_region: Seq<u8>, cmd: u8, payload: Seq<u8>)
    requires
        old_region.len() == CQ_REGION_LEN,
        mid.len() == CQ_REGION_LEN,
        mid.subrange(0, CQ_DATA_OFFSET as int) == old_region.subrange(0, CQ_DATA_OFFSET as int),
        cq_data(mid) == ring_write(cq_data(old_region), cq_tail(old_region), command_record(cmd, payload)),
        new_region == mid.subrange(0, CQ_TAIL_OFFSET as int) + u32_le((cq_tail(old_region) + 2 + payload.len()) % 0x1_0000_0000) + mid.subrange(CQ_CAPACITY_OFFSET as int, CQ_REGION_LEN as int),
    ensures
        new_region == pushed_region(old_region, cmd, payload),
{
    reveal(pushed_region);
    assert forall|i: int| 0 <= i < CQ_DATA_OFFSET implies mid[i] == old_region[i] by {
        assert(mid.subrange(0, CQ_DATA_OFFSET as int)[i] == mid[i]);
        assert(old_region.subrange(0, CQ_DATA_OFFSET as int)[i] == old_region[i]);
    }
    assert(mid.subrange(0, CQ_TAIL_OFFSET as int) =~= old_region.subrange(0, CQ_TAIL_OFFSET as int));
    assert(mid.subrange(CQ_CAPACITY_OFFSET as int, CQ_REGION_LEN as int) =~= old_region.subrange(CQ_CAPACITY_OFFSET as int, CQ_DATA_OFFSET as int) + cq_data(mid));
    assert(new_region =~= pushed_region(old_region, cmd, payload));
}

} // verus!
