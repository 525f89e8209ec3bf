//! The fixed-layout records of a map's geometry lumps, and their decoding from lump bytes.
use vstd::prelude::*;

use crate::archive::WAD;
use crate::bytes::{le_i16, name_text, read_i16, read_name};
use crate::error::WadError;

verus! {

/// A record of fixed byte size, stored field by field in little-endian order.
pub trait Record: Sized {
    /// The number of bytes one record takes.
    spec fn spec_size() -> nat;

    /// `self` is what the record layout reads from the bytes `b` (of length `spec_size()`).
    spec fn decoded_from(&self, b: Seq<u8>) -> bool;

    fn size() -> (r: usize)
        ensures
            r == Self::spec_size(),
            r > 0,
    ;

    /// Decodes the record stored at `b[start..start + size]`.
    fn decode(b: &[u8], start: usize) -> (r: Self)
        requires
            start + Self::spec_size() <= b.len(),
        ensures
            r.decoded_from(b@.subrange(start as int, start + Self::spec_size())),
    ;
}

/// `v` is the array of records that the bytes `b` store one after the other.
pub open spec fn records_decoded<T: Record>(v: Seq<T>, b: Seq<u8>) -> bool {
    &&& v.len() * T::spec_size() == b.len()
    &&& forall|i: int|
        0 <= i < v.len() ==> #[trigger] v[i].decoded_from(
            b.subrange(i * T::spec_size(), i * T::spec_size() + T::spec_size()),
        )
}

/// Decodes a lump's bytes as an array of records. A byte length that is not a whole number of
/// records is an error: trailing bytes are never dropped.
pub fn decode_records<T: Record>(b: &[u8]) -> (r: Result<Vec<T>, WadError>)
    ensures
        r is Ok <==> b@.len() % T::spec_size() == 0,
        r matches Ok(v) ==> records_decoded(v@, b@),
        r matches Err(e) ==> e == WadError::BadLumpSize,
{
    let size = T::size();
    if b.len() % size != 0 {
        return Err(WadError::BadLumpSize);
    }
    let mut v: Vec<T> = Vec::new();
    let mut pos: usize = 0;
    assert(v@.len() * size == 0);
    while pos < b.len()
        invariant
            size == T::spec_size(),
            size > 0,
            b@.len() % (size as nat) == 0,
            pos == v@.len() * size,
            pos <= b@.len(),
            forall|i: int|
                0 <= i < v.len() ==> #[trigger] v@[i].decoded_from(
                    b@.subrange(i * size, i * size + size),
                ),
        decreases b@.len() - pos,
    {
        proof {
            lemma_next_record_fits(v@.len() as int, size as int, b@.len() as int);
        }
        let rec = T::decode(b, pos);
        v.push(rec);
        pos = pos + size;
        assert(pos == v@.len() * size) by (nonlinear_arith)
            requires
                pos == (v@.len() - 1) * size + size,
        ;
    }
    Ok(v)
}

proof fn lemma_next_record_fits(n: int, size: int, len: int)
    requires
        size > 0,
        n >= 0,
        len % size == 0,
        n * size < len,
    ensures
        n * size + size <= len,
{
    assert(len == (len / size) * size) by (nonlinear_arith)
        requires
            len % size == 0,
            size > 0,
    ;
    assert(n < len / size) by (nonlinear_arith)
        requires
            n * size < len,
            len == (len / size) * size,
            size > 0,
    ;
    assert(n * size + size <= len) by (nonlinear_arith)
        requires
            n + 1 <= len / size,
            len == (len / size) * size,
            size > 0,
    ;
}

/// A placed object: position, facing angle, type code and spawn flags.
#[derive(Clone, Copy, Debug, PartialEq, Eq)]
pub struct Thing {
    pub x: i16,
    pub y: i16,
    pub angle: i16,
    pub t_type: i16,
    pub flags: i16,
}

impl Record for Thing {
    open spec fn spec_size() -> nat {
        10
    }

    open spec fn decoded_from(&self, b: Seq<u8>) -> bool {
        &&& self.x == le_i16(b, 0)
        &&& self.y == le_i16(b, 2)
        &&& self.angle == le_i16(b, 4)
        &&& self.t_type == le_i16(b, 6)
        &&& self.flags == le_i16(b, 8)
    }

    fn size() -> (r: usize) {
        10
    }

    fn decode(b: &[u8], start: usize) -> (r: Self) {
        Thing {
            x: read_i16(b, start),
            y: read_i16(b, start + 2),
            angle: read_i16(b, start + 4),
            t_type: read_i16(b, start + 6),
            flags: read_i16(b, start + 8),
        }
    }
}

/// A wall line between two vertexes. A sidedef index of -1 means that side has no sidedef.
#[derive(Clone, Copy, Debug, PartialEq, Eq)]
pub struct LineDef {
    pub start_vertex: i16,
    pub end_vertex: i16,
    pub flags: i16,
    pub special_type: i16,
    pub sector_tag: i16,
    pub right_sidedef: i16,
    pub left_sidedef: i16,
}

impl Record for LineDef {
    open spec fn spec_size() -> nat {
        14
    }

    open spec fn decoded_from(&self, b: Seq<u8>) -> bool {
        &&& self.start_vertex == le_i16(b, 0)
        &&& self.end_vertex == le_i16(b, 2)
        &&& self.flags == le_i16(b, 4)
        &&& self.special_type == le_i16(b, 6)
        &&& self.sector_tag == le_i16(b, 8)
        &&& self.right_sidedef == le_i16(b, 10)
        &&& self.left_sidedef == le_i16(b, 12)
    }

    fn size() -> (r: usize) {
        14
    }

    fn decode(b: &[u8], start: usize) -> (r: Self) {
        LineDef {
            start_vertex: read_i16(b, start),
            end_vertex: read_i16(b, start + 2),
            flags: read_i16(b, start + 4),
            special_type: read_i16(b, start + 6),
            sector_tag: read_i16(b, start + 8),
            right_sidedef: read_i16(b, start + 10),
            left_sidedef: read_i16(b, start + 12),
        }
    }
}

/// The texturing of one side of a line, and the sector that side faces.
#[derive(Clone, Copy, Debug, PartialEq, Eq)]
pub struct SideDef {
    pub x_offset: i16,
    pub y_offset: i16,
    pub upper_texture: [u8; 8],
    pub lower_texture: [u8; 8],
    pub middle_texture: [u8; 8],
    pub sector: i16,
}

impl Record for SideDef {
    open spec fn spec_size() -> nat {
        30
    }

    open spec fn decoded_from(&self, b: Seq<u8>) -> bool {
        &&& self.x_offset == le_i16(b, 0)
        &&& self.y_offset == le_i16(b, 2)
        &&& self.upper_texture@ == b.subrange(4, 12)
        &&& self.lower_texture@ == b.subrange(12, 20)
        &&& self.middle_texture@ == b.subrange(20, 28)
        &&& self.sector == le_i16(b, 28)
    }

    fn size() -> (r: usize) {
        30
    }

    fn decode(b: &[u8], start: usize) -> (r: Self) {
        let r = SideDef {
            x_offset: read_i16(b, start),
            y_offset: read_i16(b, start + 2),
            upper_texture: read_name(b, start + 4),
            lower_texture: read_name(b, start + 12),
            middle_texture: read_name(b, start + 20),
            sector: read_i16(b, start + 28),
        };
        let ghost s = b@.subrange(start as int, start + 30);
        assert(r.upper_texture@ =~= s.subrange(4, 12));
        assert(r.lower_texture@ =~= s.subrange(12, 20));
        assert(r.middle_texture@ =~= s.subrange(20, 28));
        r
    }
}

impl SideDef {
    /// The upper texture's name; empty for none.
    pub fn upper_texture(&self) -> (r: String)
        ensures
            r@ == name_text(self.upper_texture@),
    {
        WAD::slice_to_string(self.upper_texture.as_slice())
    }

    /// The lower texture's name; empty for none.
    pub fn lower_texture(&self) -> (r: String)
        ensures
            r@ == name_text(self.lower_texture@),
    {
        WAD::slice_to_string(self.lower_texture.as_slice())
    }

    /// The middle texture's name; empty for none.
    pub fn middle_texture(&self) -> (r: String)
        ensures
            r@ == name_text(self.middle_texture@),
    {
        WAD::slice_to_string(self.middle_texture.as_slice())
    }
}

/// A map point.
#[derive(Clone, Copy, Debug, PartialEq, Eq)]
pub struct Vertex {
    pub x: i16,
    pub y: i16,
}

impl Record for Vertex {
    open spec fn spec_size() -> nat {
        4
    }

    open spec fn decoded_from(&self, b: Seq<u8>) -> bool {
        &&& self.x == le_i16(b, 0)
        &&& self.y == le_i16(b, 2)
    }

    fn size() -> (r: usize) {
        4
    }

    fn decode(b: &[u8], start: usize) -> (r: Self) {
        Vertex { x: read_i16(b, start), y: read_i16(b, start + 2) }
    }
}

/// A directed piece of a linedef that bounds a subsector. `direction` is 0 when the seg runs
/// the same way as its linedef and 1 when it runs the opposite way.
#[derive(Clone, Copy, Debug, PartialEq, Eq)]
pub struct Seg {
    pub start_vertex: i16,
    pub end_vertex: i16,
    pub angle: i16,
    pub linedef: i16,
    pub direction: i16,
    pub offset: i16,
}

impl Record for Seg {
    open spec fn spec_size() -> nat {
        12
    }

    open spec fn decoded_from(&self, b: Seq<u8>) -> bool {
        &&& self.start_vertex == le_i16(b, 0)
        &&& self.end_vertex == le_i16(b, 2)
        &&& self.angle == le_i16(b, 4)
        &&& self.linedef == le_i16(b, 6)
        &&& self.direction == le_i16(b, 8)
        &&& self.offset == le_i16(b, 10)
    }

    fn size() -> (r: usize) {
        12
    }

    fn decode(b: &[u8], start: usize) -> (r: Self) {
        Seg {
            start_vertex: read_i16(b, start),
            end_vertex: read_i16(b, start + 2),
            angle: read_i16(b, start + 4),
            linedef: read_i16(b, start + 6),
            direction: read_i16(b, start + 8),
            offset: read_i16(b, start + 10),
        }
    }
}

/// A convex leaf region of the partition tree: `num_segs` segs from index `first_seg` on.
#[derive(Clone, Copy, Debug, PartialEq, Eq)]
pub struct SubSector {
    pub num_segs: i16,
    pub first_seg: i16,
}

impl Record for SubSector {
    open spec fn spec_size() -> nat {
        4
    }

    open spec fn decoded_from(&self, b: Seq<u8>) -> bool {
        &&& self.num_segs == le_i16(b, 0)
        &&& self.first_seg == le_i16(b, 2)
    }

    fn size() -> (r: usize) {
        4
    }

    fn decode(b: &[u8], start: usize) -> (r: Self) {
        SubSector { num_segs: read_i16(b, start), first_seg: read_i16(b, start + 2) }
    }
}

/// An inner node of the partition tree: the splitting line through
/// (`x_partition`, `y_partition`) with direction (`dx_partition`, `dy_partition`), the bounding
/// boxes (top, bottom, left, right) of its two halves, and its two child references.
#[derive(Clone, Copy, Debug, PartialEq, Eq)]
pub struct Node {
    pub x_partition: i16,
    pub y_partition: i16,
    pub dx_partition: i16,
    pub dy_partition: i16,
    pub front_bbox: [i16; 4],
    pub back_bbox: [i16; 4],
    pub front_child: i16,
    pub back_child: i16,
}

impl Record for Node {
    open spec fn spec_size() -> nat {
        28
    }

    open spec fn decoded_from(&self, b: Seq<u8>) -> bool {
        &&& self.x_partition == le_i16(b, 0)
        &&& self.y_partition == le_i16(b, 2)
        &&& self.dx_partition == le_i16(b, 4)
        &&& self.dy_partition == le_i16(b, 6)
        &&& self.front_bbox@ == seq![le_i16(b, 8), le_i16(b, 10), le_i16(b, 12), le_i16(b, 14)]
        &&& self.back_bbox@ == seq![le_i16(b, 16), le_i16(b, 18), le_i16(b, 20), le_i16(b, 22)]
        &&& self.front_child == le_i16(b, 24)
        &&& self.back_child == le_i16(b, 26)
    }

    fn size() -> (r: usize) {
        28
    }

    fn decode(b: &[u8], start: usize) -> (r: Self) {
        let front_bbox = [
            read_i16(b, start + 8),
            read_i16(b, start + 10),
            read_i16(b, start + 12),
            read_i16(b, start + 14),
        ];
        let back_bbox = [
            read_i16(b, start + 16),
            read_i16(b, start + 18),
            read_i16(b, start + 20),
            read_i16(b, start + 22),
        ];
        let ghost s = b@.subrange(start as int, start + 28);
        assert(front_bbox@ =~= seq![le_i16(s, 8), le_i16(s, 10), le_i16(s, 12), le_i16(s, 14)]);
        assert(back_bbox@ =~= seq![le_i16(s, 16), le_i16(s, 18), le_i16(s, 20), le_i16(s, 22)]);
        Node {
            x_partition: read_i16(b, start),
            y_partition: read_i16(b, start + 2),
            dx_partition: read_i16(b, start + 4),
            dy_partition: read_i16(b, start + 6),
            front_bbox,
            back_bbox,
            front_child: read_i16(b, start + 24),
            back_child: read_i16(b, start + 26),
        }
    }
}

/// A region of floor and ceiling: heights, flat names, light level, effect and trigger tag.
#[derive(Clone, Copy, Debug, PartialEq, Eq)]
pub struct Sector {
    pub floor_height: i16,
    pub ceiling_height: i16,
    pub floor_texture: [u8; 8],
    pub ceiling_texture: [u8; 8],
    pub light_level: i16,
    pub special_type: i16,
    pub tag: i16,
}

impl Sector {
    /// The floor flat's name.
    pub fn floor_texture(&self) -> (r: String)
        ensures
            r@ == name_text(self.floor_texture@),
    {
        WAD::slice_to_string(self.floor_texture.as_slice())
    }

    /// The ceiling flat's name.
    pub fn ceiling_texture(&self) -> (r: String)
        ensures
            r@ == name_text(self.ceiling_texture@),
    {
        WAD::slice_to_string(self.ceiling_texture.as_slice())
    }
}

impl Record for Sector {
    open spec fn spec_size() -> nat {
        26
    }

    open spec fn decoded_from(&self, b: Seq<u8>) -> bool {
        &&& self.floor_height == le_i16(b, 0)
        &&& self.ceiling_height == le_i16(b, 2)
        &&& self.floor_texture@ == b.subrange(4, 12)
        &&& self.ceiling_texture@ == b.subrange(12, 20)
        &&& self.light_level == le_i16(b, 20)
        &&& self.special_type == le_i16(b, 22)
        &&& self.tag == le_i16(b, 24)
    }

    fn size() -> (r: usize) {
        26
    }

    fn decode(b: &[u8], start: usize) -> (r: Self) {
        let r = Sector {
            floor_height: read_i16(b, start),
            ceiling_height: read_i16(b, start + 2),
            floor_texture: read_name(b, start + 4),
            ceiling_texture: read_name(b, start + 12),
            light_level: read_i16(b, start + 20),
            special_type: read_i16(b, start + 22),
            tag: read_i16(b, start + 24),
        };
        let ghost s = b@.subrange(start as int, start + 26);
        assert(r.floor_texture@ =~= s.subrange(4, 12));
        assert(r.ceiling_texture@ =~= s.subrange(12, 20));
        r
    }
}


/// The reject table's record, as the archive layout names it.
#[derive(Clone, Copy, Debug, PartialEq, Eq)]
pub struct Reject {
    pub num_rejects: i16,
    pub first_reject: i16,
}

impl Record for Reject {
    open spec fn spec_size() -> nat {
        4
    }

    open spec fn decoded_from(&self, b: Seq<u8>) -> bool {
        &&& self.num_rejects == le_i16(b, 0)
        &&& self.first_reject == le_i16(b, 2)
    }

    fn size() -> (r: usize) {
        4
    }

    fn decode(b: &[u8], start: usize) -> (r: Self) {
        Reject { num_rejects: read_i16(b, start), first_reject: read_i16(b, start + 2) }
    }
}

/// The head of the block map: grid origin, grid size and the first block's offset.
#[derive(Clone, Copy, Debug, PartialEq, Eq)]
pub struct BlockMap {
    pub x_origin: i16,
    pub y_origin: i16,
    pub columns: i16,
    pub rows: i16,
    pub offsets: [i16; 1],
}

impl Record for BlockMap {
    open spec fn spec_size() -> nat {
        10
    }

    open spec fn decoded_from(&self, b: Seq<u8>) -> bool {
        &&& self.x_origin == le_i16(b, 0)
        &&& self.y_origin == le_i16(b, 2)
        &&& self.columns == le_i16(b, 4)
        &&& self.rows == le_i16(b, 6)
        &&& self.offsets@ == seq![le_i16(b, 8)]
    }

    fn size() -> (r: usize) {
        10
    }

    fn decode(b: &[u8], start: usize) -> (r: Self) {
        let offsets = [read_i16(b, start + 8)];
        let ghost s = b@.subrange(start as int, start + 10);
        assert(offsets@ =~= seq![le_i16(s, 8)]);
        BlockMap {
            x_origin: read_i16(b, start),
            y_origin: read_i16(b, start + 2),
            columns: read_i16(b, start + 4),
            rows: read_i16(b, start + 6),
            offsets,
        }
    }
}

/// The lumps of a map block, by their place after the map's marker lump.
#[derive(Clone, Copy, Debug, PartialEq, Eq, Structural)]
pub enum MapLumpIndex {
    Things,
    LineDefs,
    SideDefs,
    Vertexes,
    Segs,
    SSectors,
    Nodes,
    Sectors,
    Reject,
    BlockMap,
}

impl MapLumpIndex {
    pub open spec fn spec_offset(self) -> nat {
        match self {
            MapLumpIndex::Things => 1,
            MapLumpIndex::LineDefs => 2,
            MapLumpIndex::SideDefs => 3,
            MapLumpIndex::Vertexes => 4,
            MapLumpIndex::Segs => 5,
            MapLumpIndex::SSectors => 6,
            MapLumpIndex::Nodes => 7,
            MapLumpIndex::Sectors => 8,
            MapLumpIndex::Reject => 9,
            MapLumpIndex::BlockMap => 10,
        }
    }

    /// How many directory entries after the marker this lump stands.
    pub fn offset(self) -> (r: usize)
        ensures
            r == self.spec_offset(),
    {
        match self {
            MapLumpIndex::Things => 1,
            MapLumpIndex::LineDefs => 2,
            MapLumpIndex::SideDefs => 3,
            MapLumpIndex::Vertexes => 4,
            MapLumpIndex::Segs => 5,
            MapLumpIndex::SSectors => 6,
            MapLumpIndex::Nodes => 7,
            MapLumpIndex::Sectors => 8,
            MapLumpIndex::Reject => 9,
            MapLumpIndex::BlockMap => 10,
        }
    }
}

/// The bits of a linedef's `flags`.
#[derive(Clone, Copy, Debug, PartialEq, Eq, Structural)]
pub enum LineDefFlags {
    Blocking,
    BlockMonsters,
    TwoSided,
    DontPegTop,
    DontPegBottom,
    Secret,
    SoundBlock,
    DontDraw,
    Draw,
}

impl LineDefFlags {
    pub open spec fn spec_mask(self) -> u16 {
        match self {
            LineDefFlags::Blocking => 0x1,
            LineDefFlags::BlockMonsters => 0x2,
            LineDefFlags::TwoSided => 0x4,
            LineDefFlags::DontPegTop => 0x8,
            LineDefFlags::DontPegBottom => 0x10,
            LineDefFlags::Secret => 0x20,
            LineDefFlags::SoundBlock => 0x40,
            LineDefFlags::DontDraw => 0x80,
            LineDefFlags::Draw => 0x100,
        }
    }

    /// The bit of `LineDef::flags` that holds this flag.
    pub fn mask(self) -> (r: u16)
        ensures
            r == self.spec_mask(),
    {
        match self {
            LineDefFlags::Blocking => 0x1,
            LineDefFlags::BlockMonsters => 0x2,
            LineDefFlags::TwoSided => 0x4,
            LineDefFlags::DontPegTop => 0x8,
            LineDefFlags::DontPegBottom => 0x10,
            LineDefFlags::Secret => 0x20,
            LineDefFlags::SoundBlock => 0x40,
            LineDefFlags::DontDraw => 0x80,
            LineDefFlags::Draw => 0x100,
        }
    }
}


/// The smallest and largest coordinates of a set of vertexes.
#[derive(Clone, Copy, Debug, PartialEq, Eq, Structural)]
pub struct MapBounds {
    pub min_x: i16,
    pub max_x: i16,
    pub min_y: i16,
    pub max_y: i16,
}

/// `b` bounds the vertexes `vs` tightly: every vertex lies inside, and each bound is met.
pub open spec fn tight_bounds(vs: Seq<Vertex>, b: MapBounds) -> bool {
    &&& forall|i: int|
        0 <= i < vs.len() ==> b.min_x <= #[trigger] vs[i].x <= b.max_x && b.min_y <= vs[i].y
            <= b.max_y
    &&& exists|i: int| 0 <= i < vs.len() && #[trigger] vs[i].x == b.min_x
    &&& exists|i: int| 0 <= i < vs.len() && #[trigger] vs[i].x == b.max_x
    &&& exists|i: int| 0 <= i < vs.len() && #[trigger] vs[i].y == b.min_y
    &&& exists|i: int| 0 <= i < vs.len() && #[trigger] vs[i].y == b.max_y
}

/// The extent of the map's vertexes; none for a map without vertexes.
pub fn calc_map_bounds(vertexes: &Vec<Vertex>) -> (r: Option<MapBounds>)
    ensures
        r is None <==> vertexes@.len() == 0,
        r matches Some(b) ==> tight_bounds(vertexes@, b),
{
    if vertexes.len() == 0 {
        return None;
    }
    let v0 = vertexes[0];
    let mut b = MapBounds { min_x: v0.x, max_x: v0.x, min_y: v0.y, max_y: v0.y };
    let mut i: usize = 1;
    proof {
        let first = vertexes@.subrange(0, 1);
        assert(first[0] == v0);
    }
    while i < vertexes.len()
        invariant
            1 <= i <= vertexes@.len(),
            tight_bounds(vertexes@.subrange(0, i as int), b),
        decreases vertexes@.len() - i,
    {
        let v = vertexes[i];
        let ghost old_b = b;
        let ghost pre = vertexes@.subrange(0, i as int);
        let ghost post = vertexes@.subrange(0, i + 1);
        if v.x < b.min_x {
            b.min_x = v.x;
        }
        if v.x > b.max_x {
            b.max_x = v.x;
        }
        if v.y < b.min_y {
            b.min_y = v.y;
        }
        if v.y > b.max_y {
            b.max_y = v.y;
        }
        proof {
            assert(post[i as int] == v);
            assert forall|k: int| 0 <= k < pre.len() implies #[trigger] post[k] == pre[k] by {}
            let k1 = choose|k: int| 0 <= k < pre.len() && #[trigger] pre[k].x == old_b.min_x;
            let k2 = choose|k: int| 0 <= k < pre.len() && #[trigger] pre[k].x == old_b.max_x;
            let k3 = choose|k: int| 0 <= k < pre.len() && #[trigger] pre[k].y == old_b.min_y;
            let k4 = choose|k: int| 0 <= k < pre.len() && #[trigger] pre[k].y == old_b.max_y;
            assert(post[k1] == pre[k1] && post[k2] == pre[k2] && post[k3] == pre[k3] && post[k4]
                == pre[k4]);
            assert(forall|k: int| 0 <= k < pre.len() ==> #[trigger] post[k] == pre[k]);
        }
        i = i + 1;
    }
    assert(vertexes@.subrange(0, i as int) =~= vertexes@);
    Some(b)
}

} // verus!
