//! Read-only view of the world snapshot that the host writes into shared
//! memory: a header, then `entity_count` entity records of 48 bytes, then
//! `chunk_count` chunk sections of 16400 bytes (a 16-byte header and 4096
//! block states of 4 bytes, indexed `y * 256 + z * 16 + x`).
use crate::le::{
    i32_of_bits, le_u16_at, le_u32_at, le_u64_at, read_i32_le, read_u16_le,
    read_u32_le, read_u64_le,
};
use crate::protocol::{
    CHUNK_SECTION_HEADER_SIZE, CHUNK_SECTION_RECORD_SIZE, ENTITY_FLAG_ALIVE, ENTITY_KIND_MOB,
    ENTITY_KIND_PLAYER, ENTITY_RECORD_SIZE, MAX_CHUNK_SECTIONS, MAX_ENTITIES, PROTOCOL_VERSION,
    SNAP_CHUNK_SECTION_COUNT, SNAP_ENTITY_COUNT, SNAP_HEADER_SIZE, SNAP_TIMESTAMP_NS, SNAP_VERSION,
};
use vstd::arithmetic::div_mod::{lemma_fundamental_div_mod, lemma_fundamental_div_mod_converse};
use vstd::prelude::*;

verus! {

/// One entity of the snapshot.  The `f64` coordinates and the `f32`
/// velocity and health are held as their bit patterns (`to_bits`).
#[derive(Clone, Copy, Debug, PartialEq, Eq, Structural)]
pub struct EntityRecord {
    pub entity_id: i32,
    pub kind: u16,
    pub flags: u16,
    pub x: u64,
    pub y: u64,
    pub z: u64,
    pub vx: u32,
    pub vy: u32,
    pub vz: u32,
    pub health: u32,
}

/// The header of one chunk section of the snapshot.
#[derive(Clone, Copy, Debug, PartialEq, Eq, Structural)]
pub struct ChunkSectionHeader {
    pub chunk_x: i32,
    pub section_y: i32,
    pub chunk_z: i32,
    pub flags: u32,
}

/// The entity record stored at `off`.
pub open spec fn entity_at(s: Seq<u8>, off: int) -> EntityRecord {
    EntityRecord {
        entity_id: i32_of_bits(le_u32_at(s, off)) as i32,
        kind: le_u16_at(s, off + 4) as u16,
        flags: le_u16_at(s, off + 6) as u16,
        x: le_u64_at(s, off + 8) as u64,
        y: le_u64_at(s, off + 16) as u64,
        z: le_u64_at(s, off + 24) as u64,
        vx: le_u32_at(s, off + 32) as u32,
        vy: le_u32_at(s, off + 36) as u32,
        vz: le_u32_at(s, off + 40) as u32,
        health: le_u32_at(s, off + 44) as u32,
    }
}

/// The chunk-section header stored at `off`.
pub open spec fn section_header_at(s: Seq<u8>, off: int) -> ChunkSectionHeader {
    ChunkSectionHeader {
        chunk_x: i32_of_bits(le_u32_at(s, off)) as i32,
        section_y: i32_of_bits(le_u32_at(s, off + 4)) as i32,
        chunk_z: i32_of_bits(le_u32_at(s, off + 8)) as i32,
        flags: le_u32_at(s, off + 12) as u32,
    }
}

/// Whether an entity counts as a player.
pub open spec fn is_player(e: EntityRecord) -> bool {
    e.kind == ENTITY_KIND_PLAYER
}

/// Whether an entity counts as living: its alive flag is set and it is a
/// player or a mob.
pub open spec fn is_living(e: EntityRecord) -> bool {
    e.flags & ENTITY_FLAG_ALIVE != 0 && (e.kind == ENTITY_KIND_PLAYER || e.kind == ENTITY_KIND_MOB)
}

/// The protocol version that a snapshot header carries.
pub open spec fn snapshot_version(s: Seq<u8>) -> int {
    le_u32_at(s, SNAP_VERSION as int)
}

/// How many entities a view over snapshot `s` shows: none when the version
/// differs from `PROTOCOL_VERSION`, else the header's count capped at
/// `MAX_ENTITIES`.
pub open spec fn shown_entities(s: Seq<u8>) -> nat {
    if snapshot_version(s) != PROTOCOL_VERSION {
        0
    } else if le_u32_at(s, SNAP_ENTITY_COUNT as int) < MAX_ENTITIES {
        le_u32_at(s, SNAP_ENTITY_COUNT as int) as nat
    } else {
        MAX_ENTITIES as nat
    }
}

/// How many chunk sections a view over snapshot `s` shows: none when the
/// version differs, else the header's count capped at `MAX_CHUNK_SECTIONS`.
pub open spec fn shown_sections(s: Seq<u8>) -> nat {
    if snapshot_version(s) != PROTOCOL_VERSION {
        0
    } else if le_u32_at(s, SNAP_CHUNK_SECTION_COUNT as int) < MAX_CHUNK_SECTIONS {
        le_u32_at(s, SNAP_CHUNK_SECTION_COUNT as int) as nat
    } else {
        MAX_CHUNK_SECTIONS as nat
    }
}

/// The number of bytes that a view over snapshot `s` reads.
pub open spec fn snapshot_extent(s: Seq<u8>) -> int {
    SNAP_HEADER_SIZE + shown_entities(s) * ENTITY_RECORD_SIZE + shown_sections(s)
        * CHUNK_SECTION_RECORD_SIZE
}

/// What a world view shows: the snapshot bytes and how many entities and
/// chunk sections of them it reads.
pub struct WorldModel {
    pub bytes: Seq<u8>,
    pub entity_count: nat,
    pub chunk_count: nat,
}

/// The view's bytes hold its header and every entity record it shows.
pub open spec fn covers_entities(m: WorldModel) -> bool {
    m.bytes.len() >= SNAP_HEADER_SIZE + m.entity_count * ENTITY_RECORD_SIZE
}

/// The view's bytes hold its header, its entity records and every chunk
/// section it shows.
pub open spec fn covers_sections(m: WorldModel) -> bool {
    m.bytes.len() >= SNAP_HEADER_SIZE + m.entity_count * ENTITY_RECORD_SIZE + m.chunk_count
        * CHUNK_SECTION_RECORD_SIZE
}

/// The entities of a view, in snapshot order.
pub open spec fn entities_of(m: WorldModel) -> Seq<EntityRecord> {
    Seq::new(m.entity_count, |i: int| entity_at(m.bytes, SNAP_HEADER_SIZE + i * ENTITY_RECORD_SIZE))
}

/// The players of a view, in snapshot order.
pub open spec fn players_of(m: WorldModel) -> Seq<EntityRecord> {
    entities_of(m).filter(|e: EntityRecord| is_player(e))
}

/// The living entities of a view, in snapshot order.
pub open spec fn living_of(m: WorldModel) -> Seq<EntityRecord> {
    entities_of(m).filter(|e: EntityRecord| is_living(e))
}

/// Where chunk section `i` of a view begins.
pub open spec fn section_offset(m: WorldModel, i: int) -> int {
    SNAP_HEADER_SIZE + m.entity_count * ENTITY_RECORD_SIZE + i * CHUNK_SECTION_RECORD_SIZE
}

/// Whether chunk section `i` of a view has the given coordinates.
pub open spec fn section_matches(m: WorldModel, i: int, cx: int, sy: int, cz: int) -> bool {
    let h = section_header_at(m.bytes, section_offset(m, i));
    h.chunk_x == cx && h.section_y == sy && h.chunk_z == cz
}

/// The first chunk section from `i` on with the given coordinates.
pub open spec fn find_section_from(m: WorldModel, cx: int, sy: int, cz: int, i: int) -> Option<int>
    decreases m.chunk_count - i,
{
    if i < 0 || i >= m.chunk_count {
        None
    } else if section_matches(m, i, cx, sy, cz) {
        Some(i)
    } else {
        find_section_from(m, cx, sy, cz, i + 1)
    }
}

/// Index of block (x, y, z) inside its chunk section.
pub open spec fn block_index(x: int, y: int, z: int) -> int {
    (y % 16) * 256 + (z % 16) * 16 + (x % 16)
}

/// The block state at (x, y, z): found in the first chunk section whose
/// coordinates are those of the block divided by 16, rounding down.
pub open spec fn block_state(m: WorldModel, x: int, y: int, z: int) -> Option<u32> {
    match find_section_from(m, x / 16, y / 16, z / 16, 0) {
        Some(i) => Some(
            le_u32_at(
                m.bytes,
                section_offset(m, i) + CHUNK_SECTION_HEADER_SIZE + 4 * block_index(x, y, z),
            ) as u32,
        ),
        None => None,
    }
}

/// Law: a view never shows more than `MAX_ENTITIES` entities or
/// `MAX_CHUNK_SECTIONS` chunk sections, and a snapshot of another protocol
/// version shows none.
pub proof fn lemma_view_counts_capped(s: Seq<u8>)
    ensures
        shown_entities(s) <= MAX_ENTITIES,
        shown_sections(s) <= MAX_CHUNK_SECTIONS,
        snapshot_version(s) != PROTOCOL_VERSION ==> shown_entities(s) == 0 && shown_sections(s) == 0,
        snapshot_extent(s) <= SNAP_HEADER_SIZE + MAX_ENTITIES * ENTITY_RECORD_SIZE + MAX_CHUNK_SECTIONS
            * CHUNK_SECTION_RECORD_SIZE,
{
}

/// Law: a view over a snapshot holding `snapshot_extent` bytes can read all
/// its entities and chunk sections.
pub proof fn lemma_extent_covers(s: Seq<u8>)
    requires
        s.len() >= snapshot_extent(s),
    ensures
        covers_entities(WorldModel { bytes: s, entity_count: shown_entities(s), chunk_count: shown_sections(s) }),
        covers_sections(WorldModel { bytes: s, entity_count: shown_entities(s), chunk_count: shown_sections(s) }),
{
}

/// The search from `i` finds the first matching section at or after `i`.
pub proof fn lemma_find_section_from(m: WorldModel, cx: int, sy: int, cz: int, i: int)
    requires
        0 <= i,
    ensures
        match find_section_from(m, cx, sy, cz, i) {
            Some(j) => i <= j < m.chunk_count && section_matches(m, j, cx, sy, cz) && forall|k: int|
                i <= k < j ==> !#[trigger] section_matches(m, k, cx, sy, cz),
            None => forall|k: int| i <= k < m.chunk_count ==> !#[trigger] section_matches(m, k, cx, sy, cz),
        },
    decreases m.chunk_count - i,
{
    if i < m.chunk_count && !section_matches(m, i, cx, sy, cz) {
        lemma_find_section_from(m, cx, sy, cz, i + 1);
    }
}

/// Law: a block's state is found exactly when some chunk section of the view
/// has the block's coordinates divided by 16 (rounding down), and it is then
/// read from the first such section, at an index inside the section.
pub proof fn lemma_block_found_iff_section(m: WorldModel, x: int, y: int, z: int)
    ensures
        block_state(m, x, y, z) is Some <==> exists|i: int|
            0 <= i < m.chunk_count && #[trigger] section_matches(m, i, x / 16, y / 16, z / 16),
        0 <= block_index(x, y, z) < 4096,
{
    lemma_find_section_from(m, x / 16, y / 16, z / 16, 0);
    if let Some(j) = find_section_from(m, x / 16, y / 16, z / 16, 0) {
        assert(section_matches(m, j, x / 16, y / 16, z / 16));
    }
}

/// Law: when a block's state is found, it is read from a chunk section whose
/// header carries all three of the block's chunk coordinates (x, y and z
/// divided by 16, rounding down), at block index
/// `(y mod 16) * 256 + (z mod 16) * 16 + (x mod 16)`, and no earlier section's
/// header carries them; it is not found exactly when no section's header
/// carries all three.
pub proof fn lemma_block_state_from_matching_header(m: WorldModel, x: int, y: int, z: int)
    ensures
        match block_state(m, x, y, z) {
            Some(v) => exists|i: int|
                #![trigger section_header_at(m.bytes, section_offset(m, i))]
                {
                    &&& 0 <= i < m.chunk_count
                    &&& section_header_at(m.bytes, section_offset(m, i)).chunk_x == x / 16
                    &&& section_header_at(m.bytes, section_offset(m, i)).section_y == y / 16
                    &&& section_header_at(m.bytes, section_offset(m, i)).chunk_z == z / 16
                    &&& v == le_u32_at(
                        m.bytes,
                        section_offset(m, i) + CHUNK_SECTION_HEADER_SIZE + 4 * ((y % 16) * 256 + (z % 16)
                            * 16 + (x % 16)),
                    ) as u32
                    &&& forall|k: int|
                        #![trigger section_header_at(m.bytes, section_offset(m, k))]
                        0 <= k < i ==> !(section_header_at(m.bytes, section_offset(m, k)).chunk_x == x / 16
                            && section_header_at(m.bytes, section_offset(m, k)).section_y == y / 16
                            && section_header_at(m.bytes, section_offset(m, k)).chunk_z == z / 16)
                },
            None => forall|i: int|
                #![trigger section_header_at(m.bytes, section_offset(m, i))]
                0 <= i < m.chunk_count ==> !(section_header_at(m.bytes, section_offset(m, i)).chunk_x == x / 16
                    && section_header_at(m.bytes, section_offset(m, i)).section_y == y / 16
                    && section_header_at(m.bytes, section_offset(m, i)).chunk_z == z / 16),
        },
{
    lemma_find_section_from(m, x / 16, y / 16, z / 16, 0);
    match find_section_from(m, x / 16, y / 16, z / 16, 0) {
        Some(j) => {
            assert(section_matches(m, j, x / 16, y / 16, z / 16));
            assert forall|k: int| 0 <= k < j implies !(section_header_at(m.bytes, section_offset(m, k)).chunk_x
                == x / 16 && section_header_at(m.bytes, section_offset(m, k)).section_y == y / 16
                && section_header_at(m.bytes, section_offset(m, k)).chunk_z == z / 16) by {
                assert(!section_matches(m, k, x / 16, y / 16, z / 16));
            }
        },
        None => {
            assert forall|i: int| 0 <= i < m.chunk_count implies !(section_header_at(m.bytes, section_offset(m, i)).chunk_x
                == x / 16 && section_header_at(m.bytes, section_offset(m, i)).section_y == y / 16
                && section_header_at(m.bytes, section_offset(m, i)).chunk_z == z / 16) by {
                assert(!section_matches(m, i, x / 16, y / 16, z / 16));
            }
        },
    }
}

/// Law: the players of a view are exactly its entities of kind
/// `ENTITY_KIND_PLAYER`, in snapshot order; no entity of another kind is
/// among them.
pub proof fn lemma_players_are_player_kind(m: WorldModel)
    ensures
        players_of(m) == entities_of(m).filter(|e: EntityRecord| e.kind == ENTITY_KIND_PLAYER),
        forall|i: int| 0 <= i < players_of(m).len() ==> (#[trigger] players_of(m)[i]).kind == ENTITY_KIND_PLAYER,
{
    let f = |e: EntityRecord| e.kind == ENTITY_KIND_PLAYER;
    assert((|e: EntityRecord| is_player(e)) =~= f);
    assert forall|i: int| 0 <= i < players_of(m).len() implies (#[trigger] players_of(m)[i]).kind
        == ENTITY_KIND_PLAYER by {
        entities_of(m).lemma_filter_pred(f, i);
    }
}

/// Law: the living entities of a view are exactly its entities whose alive
/// flag is set and whose kind is `ENTITY_KIND_PLAYER` or `ENTITY_KIND_MOB`,
/// in snapshot order.
pub proof fn lemma_living_are_alive_players_and_mobs(m: WorldModel)
    ensures
        living_of(m) == entities_of(m).filter(
            |e: EntityRecord|
                e.flags & ENTITY_FLAG_ALIVE != 0 && (e.kind == ENTITY_KIND_PLAYER || e.kind == ENTITY_KIND_MOB),
        ),
        forall|i: int|
            0 <= i < living_of(m).len() ==> (#[trigger] living_of(m)[i]).flags & ENTITY_FLAG_ALIVE != 0 && (
            living_of(m)[i].kind == ENTITY_KIND_PLAYER || living_of(m)[i].kind == ENTITY_KIND_MOB),
{
    let f = |e: EntityRecord|
        e.flags & ENTITY_FLAG_ALIVE != 0 && (e.kind == ENTITY_KIND_PLAYER || e.kind == ENTITY_KIND_MOB);
    assert((|e: EntityRecord| is_living(e)) =~= f);
    assert forall|i: int| 0 <= i < living_of(m).len() implies (#[trigger] living_of(m)[i]).flags
        & ENTITY_FLAG_ALIVE != 0 && (living_of(m)[i].kind == ENTITY_KIND_PLAYER || living_of(m)[i].kind
        == ENTITY_KIND_MOB) by {
        entities_of(m).lemma_filter_pred(f, i);
    }
}

/// Law: the players and the living entities of a view are entities of the
/// view, the players all of player kind and the living ones all alive
/// players or mobs, and neither list is longer than the entities.
pub proof fn lemma_selections_are_entities(m: WorldModel)
    ensures
        forall|i: int|
            0 <= i < players_of(m).len() ==> is_player(#[trigger] players_of(m)[i]) && entities_of(m).contains(
                players_of(m)[i],
            ),
        forall|i: int|
            0 <= i < living_of(m).len() ==> is_living(#[trigger] living_of(m)[i]) && entities_of(m).contains(
                living_of(m)[i],
            ),
        players_of(m).len() <= m.entity_count,
        living_of(m).len() <= m.entity_count,
{
    let all = entities_of(m);
    let p = |e: EntityRecord| is_player(e);
    let l = |e: EntityRecord| is_living(e);
    all.lemma_filter_len(p);
    all.lemma_filter_len(l);
    assert forall|i: int| 0 <= i < players_of(m).len() implies is_player(#[trigger] players_of(m)[i])
        && all.contains(players_of(m)[i]) by {
        all.lemma_filter_pred(p, i);
        assert(all.filter(p).contains(all.filter(p)[i]));
        all.lemma_filter_contains_rev(p, all.filter(p)[i]);
    }
    assert forall|i: int| 0 <= i < living_of(m).len() implies is_living(#[trigger] living_of(m)[i])
        && all.contains(living_of(m)[i]) by {
        all.lemma_filter_pred(l, i);
        assert(all.filter(l).contains(all.filter(l)[i]));
        all.lemma_filter_contains_rev(l, all.filter(l)[i]);
    }
}

impl EntityRecord {
    pub fn entity_id(&self) -> (r: i32)
        ensures
            r == self.entity_id,
    {
        self.entity_id
    }

    pub fn kind(&self) -> (r: u16)
        ensures
            r == self.kind,
    {
        self.kind
    }

    pub fn flags(&self) -> (r: u16)
        ensures
            r == self.flags,
    {
        self.flags
    }

    /// Bit pattern of the `f64` x coordinate.
    pub fn x(&self) -> (r: u64)
        ensures
            r == self.x,
    {
        self.x
    }

    /// Bit pattern of the `f64` y coordinate.
    pub fn y(&self) -> (r: u64)
        ensures
            r == self.y,
    {
        self.y
    }

    /// Bit pattern of the `f64` z coordinate.
    pub fn z(&self) -> (r: u64)
        ensures
            r == self.z,
    {
        self.z
    }

    /// Bit pattern of the `f32` x velocity.
    pub fn vx(&self) -> (r: u32)
        ensures
            r == self.vx,
    {
        self.vx
    }

    /// Bit pattern of the `f32` y velocity.
    pub fn vy(&self) -> (r: u32)
        ensures
            r == self.vy,
    {
        self.vy
    }

    /// Bit pattern of the `f32` z velocity.
    pub fn vz(&self) -> (r: u32)
        ensures
            r == self.vz,
    {
        self.vz
    }

    /// Bit pattern of the `f32` health.
    pub fn health(&self) -> (r: u32)
        ensures
            r == self.health,
    {
        self.health
    }

    /// Decodes the 48-byte record at `off`.
    pub fn read_from(bytes: &[u8], off: usize) -> (e: EntityRecord)
        requires
            off + ENTITY_RECORD_SIZE <= bytes@.len(),
        ensures
            e == entity_at(bytes@, off as int),
    {
        assert(bytes@.len() == bytes.len());
        EntityRecord {
            entity_id: read_i32_le(bytes, off),
            kind: read_u16_le(bytes, off + 4),
            flags: read_u16_le(bytes, off + 6),
            x: read_u64_le(bytes, off + 8),
            y: read_u64_le(bytes, off + 16),
            z: read_u64_le(bytes, off + 24),
            vx: read_u32_le(bytes, off + 32),
            vy: read_u32_le(bytes, off + 36),
            vz: read_u32_le(bytes, off + 40),
            health: read_u32_le(bytes, off + 44),
        }
    }
}

impl ChunkSectionHeader {
    pub fn chunk_x(&self) -> (r: i32)
        ensures
            r == self.chunk_x,
    {
        self.chunk_x
    }

    pub fn section_y(&self) -> (r: i32)
        ensures
            r == self.section_y,
    {
        self.section_y
    }

    pub fn chunk_z(&self) -> (r: i32)
        ensures
            r == self.chunk_z,
    {
        self.chunk_z
    }

    pub fn flags(&self) -> (r: u32)
        ensures
            r == self.flags,
    {
        self.flags
    }

    /// Decodes the 16-byte header at `off`.
    pub fn read_from(bytes: &[u8], off: usize) -> (h: ChunkSectionHeader)
        requires
            off + CHUNK_SECTION_HEADER_SIZE <= bytes@.len(),
        ensures
            h == section_header_at(bytes@, off as int),
    {
        assert(bytes@.len() == bytes.len());
        ChunkSectionHeader {
            chunk_x: read_i32_le(bytes, off),
            section_y: read_i32_le(bytes, off + 4),
            chunk_z: read_i32_le(bytes, off + 8),
            flags: read_u32_le(bytes, off + 12),
        }
    }
}

/// Divides by 16 rounding down, with the remainder.
fn div_floor_16(v: i32) -> (r: (i32, usize))
    ensures
        r.0 == (v as int) / 16,
        r.1 == (v as int) % 16,
        r.1 < 16,
{
    let shifted: u64 = (v as i64 + 2147483648i64) as u64;
    let q: u64 = shifted / 16;
    let rem: u64 = shifted % 16;
    proof {
        lemma_fundamental_div_mod(shifted as int, 16);
        lemma_fundamental_div_mod_converse(v as int, 16, q - 134217728, rem as int);
    }
    ((q as i64 - 134217728i64) as i32, rem as usize)
}

/// A view over one world snapshot.
pub struct WorldView<'a> {
    snapshot: &'a [u8],
    entity_count: u32,
    chunk_count: u32,
}

impl<'a> View for WorldView<'a> {
    type V = WorldModel;

    closed spec fn view(&self) -> WorldModel {
        WorldModel {
            bytes: self.snapshot@,
            entity_count: self.entity_count as nat,
            chunk_count: self.chunk_count as nat,
        }
    }
}

impl<'a> WorldView<'a> {
    #[verifier::type_invariant]
    spec fn capped(self) -> bool {
        &&& self.entity_count <= MAX_ENTITIES
        &&& self.chunk_count <= MAX_CHUNK_SECTIONS
        &&& self.snapshot@.len() >= SNAP_HEADER_SIZE
    }

    /// How many bytes a view over `snapshot` reads, from its header alone.
    pub fn required_len(snapshot: &[u8]) -> (n: usize)
        requires
            snapshot@.len() >= SNAP_HEADER_SIZE,
        ensures
            n == snapshot_extent(snapshot@),
    {
        let (entities, sections) = Self::shown_counts(snapshot);
        SNAP_HEADER_SIZE + entities as usize * ENTITY_RECORD_SIZE + sections as usize * CHUNK_SECTION_RECORD_SIZE
    }

    fn shown_counts(snapshot: &[u8]) -> (r: (u32, u32))
        requires
            snapshot@.len() >= SNAP_HEADER_SIZE,
        ensures
            r.0 == shown_entities(snapshot@),
            r.1 == shown_sections(snapshot@),
    {
        let entity_count = read_u32_le(snapshot, SNAP_ENTITY_COUNT);
        let chunk_count = read_u32_le(snapshot, SNAP_CHUNK_SECTION_COUNT);
        let version = read_u32_le(snapshot, SNAP_VERSION);
        if version != PROTOCOL_VERSION {
            return (0, 0);
        }
        let entities = if entity_count < MAX_ENTITIES as u32 { entity_count } else { MAX_ENTITIES as u32 };
        let sections = if chunk_count < MAX_CHUNK_SECTIONS as u32 { chunk_count } else { MAX_CHUNK_SECTIONS as u32 };
        (entities, sections)
    }

    /// A view over `snapshot`, of which only the header is read here.  A
    /// snapshot of another protocol version shows no entities and no chunk
    /// sections; otherwise the header's counts are capped at `MAX_ENTITIES`
    /// and `MAX_CHUNK_SECTIONS`.
    pub fn from_raw(snapshot: &'a [u8]) -> (v: WorldView<'a>)
        requires
            snapshot@.len() >= SNAP_HEADER_SIZE,
        ensures
            v@ == (WorldModel {
                bytes: snapshot@,
                entity_count: shown_entities(snapshot@),
                chunk_count: shown_sections(snapshot@),
            }),
    {
        let (entities, sections) = Self::shown_counts(snapshot);
        WorldView { snapshot, entity_count: entities, chunk_count: sections }
    }

    #[inline]
    pub fn entity_count(&self) -> (n: usize)
        ensures
            n == self@.entity_count,
            n <= MAX_ENTITIES,
    {
        proof { use_type_invariant(self); }
        self.entity_count as usize
    }

    #[inline]
    pub fn chunk_count(&self) -> (n: usize)
        ensures
            n == self@.chunk_count,
            n <= MAX_CHUNK_SECTIONS,
    {
        proof { use_type_invariant(self); }
        self.chunk_count as usize
    }

    /// The entities of the snapshot, in order.
    pub fn entities(&self) -> (r: Vec<EntityRecord>)
        requires
            covers_entities(self@),
        ensures
            r@ == entities_of(self@),
    {
        proof { use_type_invariant(self); }
        let mut out: Vec<EntityRecord> = Vec::new();
        let mut index: usize = 0;
        while index < self.entity_count as usize
            invariant
                index <= self.entity_count,
                self.entity_count <= MAX_ENTITIES,
                self.snapshot@.len() >= SNAP_HEADER_SIZE + self.entity_count * ENTITY_RECORD_SIZE,
                out@ == entities_of(self@).take(index as int),
            decreases self.entity_count - index,
        {
            let off = SNAP_HEADER_SIZE + index * ENTITY_RECORD_SIZE;
            let e = EntityRecord::read_from(self.snapshot, off);
            out.push(e);
            index += 1;
            assert(out@ =~= entities_of(self@).take(index as int));
        }
        assert(out@ =~= entities_of(self@));
        out
    }

    /// The entities whose kind is `ENTITY_KIND_PLAYER`, in order.
    pub fn players(&self) -> (r: Vec<EntityRecord>)
        requires
            covers_entities(self@),
        ensures
            r@ == players_of(self@),
    {
        let all = self.entities();
        let mut out: Vec<EntityRecord> = Vec::new();
        let mut index: usize = 0;
        while index < all.len()
            invariant
                index <= all@.len(),
                out@ == all@.take(index as int).filter(|e: EntityRecord| is_player(e)),
            decreases all@.len() - index,
        {
            let e = all[index];
            proof {
                all@.take(index as int).lemma_filter_push(e, |e: EntityRecord| is_player(e));
                assert(all@.take(index as int).push(e) =~= all@.take(index + 1));
            }
            if e.kind == ENTITY_KIND_PLAYER {
                out.push(e);
            }
            index += 1;
        }
        assert(all@.take(index as int) =~= all@);
        out
    }

    /// The living entities, in order: alive flag set, and a player or a mob.
    pub fn living_entities(&self) -> (r: Vec<EntityRecord>)
        requires
            covers_entities(self@),
        ensures
            r@ == living_of(self@),
    {
        let all = self.entities();
        let mut out: Vec<EntityRecord> = Vec::new();
        let mut index: usize = 0;
        while index < all.len()
            invariant
                index <= all@.len(),
                out@ == all@.take(index as int).filter(|e: EntityRecord| is_living(e)),
            decreases all@.len() - index,
        {
            let e = all[index];
            proof {
                all@.take(index as int).lemma_filter_push(e, |e: EntityRecord| is_living(e));
                assert(all@.take(index as int).push(e) =~= all@.take(index + 1));
            }
            if e.flags & ENTITY_FLAG_ALIVE != 0 && (e.kind == ENTITY_KIND_PLAYER || e.kind == ENTITY_KIND_MOB) {
                out.push(e);
            }
            index += 1;
        }
        assert(all@.take(index as int) =~= all@);
        out
    }

    /// The block state at (x, y, z), or `None` when the snapshot holds no chunk
    /// section for it.
    pub fn get_block_state_id(&self, x: i32, y: i32, z: i32) -> (r: Option<u32>)
        requires
            covers_sections(self@),
        ensures
            r == block_state(self@, x as int, y as int, z as int),
    {
        proof { use_type_invariant(self); }
        let (chunk_x, lx) = div_floor_16(x);
        let (section_y, ly) = div_floor_16(y);
        let (chunk_z, lz) = div_floor_16(z);
        let section = match self.find_chunk_section(chunk_x, section_y, chunk_z) {
            Some(s) => s,
            None => return None,
        };
        let idx = ly * 256 + lz * 16 + lx;
        let block_data_offset = SNAP_HEADER_SIZE + self.entity_count as usize * ENTITY_RECORD_SIZE
            + section * CHUNK_SECTION_RECORD_SIZE + CHUNK_SECTION_HEADER_SIZE;
        Some(read_u32_le(self.snapshot, block_data_offset + idx * 4))
    }

    /// The snapshot's timestamp in nanoseconds.
    pub fn timestamp_ns(&self) -> (t: u64)
        ensures
            t == le_u64_at(self@.bytes, SNAP_TIMESTAMP_NS as int),
    {
        proof { use_type_invariant(self); }
        read_u64_le(self.snapshot, SNAP_TIMESTAMP_NS)
    }

    /// The first chunk section with the given coordinates.
    fn find_chunk_section(&self, cx: i32, sy: i32, cz: i32) -> (r: Option<usize>)
        requires
            covers_sections(self@),
        ensures
            match r {
                Some(i) => find_section_from(self@, cx as int, sy as int, cz as int, 0) == Some(i as int)
                    && i < self@.chunk_count,
                None => find_section_from(self@, cx as int, sy as int, cz as int, 0) is None,
            },
    {
        proof { use_type_invariant(self); }
        let sections_start = SNAP_HEADER_SIZE + self.entity_count as usize * ENTITY_RECORD_SIZE;
        let mut index: usize = 0;
        while index < self.chunk_count as usize
            invariant
                index <= self.chunk_count,
                self.entity_count <= MAX_ENTITIES,
                self.chunk_count <= MAX_CHUNK_SECTIONS,
                sections_start == SNAP_HEADER_SIZE + self.entity_count * ENTITY_RECORD_SIZE,
                self.snapshot@.len() >= sections_start + self.chunk_count * CHUNK_SECTION_RECORD_SIZE,
                find_section_from(self@, cx as int, sy as int, cz as int, 0) == find_section_from(
                    self@,
                    cx as int,
                    sy as int,
                    cz as int,
                    index as int,
                ),
            decreases self.chunk_count - index,
        {
            let offset = sections_start + index * CHUNK_SECTION_RECORD_SIZE;
            let header = ChunkSectionHeader::read_from(self.snapshot, offset);
            if header.chunk_x == cx && header.section_y == sy && header.chunk_z == cz {
                return Some(index);
            }
            index += 1;
        }
        None
    }
}

} // verus!
