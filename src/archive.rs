//! The lump archive: its header, its directory, the bytes of each lump, and the map whose
//! geometry is currently loaded from it.
use vstd::prelude::*;

use crate::bytes::{
    le_u32, lemma_u32_round_trip, name_text, read_name, read_u32, trim_nul, u32_le_bytes, write_u32,
};
use crate::error::WadError;
use crate::records::{
    decode_records, records_decoded, LineDef, MapLumpIndex, Node, Record, Sector, Seg, SideDef,
    SubSector, Thing, Vertex,
};

verus! {

/// Relies on String::push: appends the character `c` to the end of `s`.
#[verifier::external_body]
fn push_char(s: &mut String, c: char)
    ensures
        final(s)@ == old(s)@.push(c),
{
    s.push(c);
}

/// Whether two strings hold the same characters.
fn same_text(a: &str, b: &str) -> (r: bool)
    ensures
        r == (a@ == b@),
{
    let n = a.unicode_len();
    if n != b.unicode_len() {
        return false;
    }
    let mut i: usize = 0;
    while i < n
        invariant
            n == a@.len(),
            n == b@.len(),
            i <= n,
            forall|j: int| 0 <= j < i ==> a@[j] == b@[j],
        decreases n - i,
    {
        if a.get_char(i) != b.get_char(i) {
            return false;
        }
        i = i + 1;
    }
    assert(a@ =~= b@);
    true
}

/// The identification tag `IWAD` (a complete game).
pub open spec fn iwad_tag() -> Seq<u8> {
    seq![0x49u8, 0x57u8, 0x41u8, 0x44u8]
}

/// The identification tag `PWAD` (an add-on).
pub open spec fn pwad_tag() -> Seq<u8> {
    seq![0x50u8, 0x57u8, 0x41u8, 0x44u8]
}

pub open spec fn known_tag(t: Seq<u8>) -> bool {
    t == iwad_tag() || t == pwad_tag()
}

/// The fixed header at the start of an archive.
#[derive(Clone, Copy, Debug, PartialEq, Eq)]
pub struct Header {
    pub identifier: [u8; 4],
    /// The number of lumps, and of directory entries.
    pub count: u32,
    /// The byte offset of the directory.
    pub offset: u32,
}

impl Default for Header {
    fn default() -> (r: Self)
        ensures
            r.identifier@ == seq![0u8, 0u8, 0u8, 0u8],
            r.count == 0,
            r.offset == 0,
    {
        let r = Header { identifier: [0u8; 4], count: 0, offset: 0 };
        assert(r.identifier@ =~= seq![0u8, 0u8, 0u8, 0u8]);
        r
    }
}

impl Header {
    /// `self` is what the header layout reads from the bytes `b`.
    pub open spec fn decoded_from(&self, b: Seq<u8>) -> bool {
        &&& self.identifier@ == b.subrange(0, 4)
        &&& self.count == le_u32(b, 4)
        &&& self.offset == le_u32(b, 8)
    }

    /// The twelve bytes that store `self`.
    pub open spec fn spec_to_bytes(&self) -> Seq<u8> {
        self.identifier@ + u32_le_bytes(self.count) + u32_le_bytes(self.offset)
    }

    /// Why the bytes `b` hold no valid header, if they do not.
    pub open spec fn spec_error(b: Seq<u8>) -> Option<WadError> {
        if b.len() < 12 {
            Some(WadError::ShortRead)
        } else if !known_tag(b.subrange(0, 4)) {
            Some(WadError::UnknownTag)
        } else {
            None
        }
    }

    /// Decodes the header at the start of `b`, whose tag must be `IWAD` or `PWAD`.
    pub fn from_bytes(b: &[u8]) -> (r: Result<Header, WadError>)
        ensures
            r is Ok <==> Header::spec_error(b@) is None,
            r matches Err(e) ==> Header::spec_error(b@) == Some(e),
            r matches Ok(h) ==> h.decoded_from(b@),
    {
        if b.len() < 12 {
            return Err(WadError::ShortRead);
        }
        let id = [b[0], b[1], b[2], b[3]];
        assert(id@ =~= b@.subrange(0, 4));
        let is_iwad = id[0] == 0x49 && id[1] == 0x57 && id[2] == 0x41 && id[3] == 0x44;
        let is_pwad = id[0] == 0x50 && id[1] == 0x57 && id[2] == 0x41 && id[3] == 0x44;
        assert(is_iwad <==> id@ =~= iwad_tag());
        assert(is_pwad <==> id@ =~= pwad_tag());
        if !is_iwad && !is_pwad {
            return Err(WadError::UnknownTag);
        }
        Ok(Header { identifier: id, count: read_u32(b, 4), offset: read_u32(b, 8) })
    }

    /// The twelve bytes that store this header.
    pub fn to_bytes(&self) -> (r: Vec<u8>)
        ensures
            r@ == self.spec_to_bytes(),
    {
        let mut r: Vec<u8> = Vec::new();
        r.push(self.identifier[0]);
        r.push(self.identifier[1]);
        r.push(self.identifier[2]);
        r.push(self.identifier[3]);
        assert(r@ =~= self.identifier@);
        write_u32(&mut r, self.count);
        write_u32(&mut r, self.offset);
        r
    }

    /// The identification tag as text.
    pub fn identification(&self) -> (r: String)
        ensures
            r@ == name_text(self.identifier@),
    {
        WAD::slice_to_string(self.identifier.as_slice())
    }
}

/// A directory entry: where a lump lies in the archive, and its name.
#[derive(Clone, Copy, Debug, PartialEq, Eq)]
pub struct Directory {
    pub offset: u32,
    pub size: u32,
    pub name: [u8; 8],
}

impl Record for Directory {
    open spec fn spec_size() -> nat {
        16
    }

    open spec fn decoded_from(&self, b: Seq<u8>) -> bool {
        &&& self.offset == le_u32(b, 0)
        &&& self.size == le_u32(b, 4)
        &&& self.name@ == b.subrange(8, 16)
    }

    fn size() -> (r: usize) {
        16
    }

    fn decode(b: &[u8], start: usize) -> (r: Self) {
        let r = Directory {
            offset: read_u32(b, start),
            size: read_u32(b, start + 4),
            name: read_name(b, start + 8),
        };
        assert(r.name@ =~= b@.subrange(start as int, start + 16).subrange(8, 16));
        r
    }
}

impl Directory {
    /// The lump's name, without its NUL padding.
    pub fn name(&self) -> (r: String)
        ensures
            r@ == name_text(self.name@),
    {
        WAD::slice_to_string(self.name.as_slice())
    }

    /// Whether the lump's name, without its NUL padding, is `name` (case counts).
    pub fn is_named(&self, name: &str) -> (r: bool)
        ensures
            r == (name_text(self.name@) == name@),
    {
        let own = self.name();
        same_text(own.as_str(), name)
    }
}

/// Why the archive `b` does not hold a directory of `count` entries at byte `offset`, if it
/// does not.
pub open spec fn directory_error(b: Seq<u8>, offset: u32, count: u32) -> Option<WadError> {
    if offset + 16 * count > b.len() {
        Some(WadError::ShortRead)
    } else {
        None
    }
}

/// `dir` is the directory that `h` points to in the archive `b`: `h.count` entries read from
/// `16 * h.count` bytes starting at `h.offset`.
pub open spec fn directory_decoded(dir: Seq<Directory>, b: Seq<u8>, h: Header) -> bool {
    &&& dir.len() == h.count
    &&& records_decoded(dir, b.subrange(h.offset as int, h.offset + 16 * h.count))
}

/// Reads the directory that `h` points to. Its size is checked against the archive before
/// anything is allocated.
pub fn read_directory(b: &[u8], h: &Header) -> (r: Result<Vec<Directory>, WadError>)
    ensures
        r is Ok <==> directory_error(b@, h.offset, h.count) is None,
        r matches Err(e) ==> directory_error(b@, h.offset, h.count) == Some(e),
        r matches Ok(dir) ==> directory_decoded(dir@, b@, *h),
{
    let start = h.offset as u64;
    let end = start + 16 * (h.count as u64);
    if end > b.len() as u64 {
        return Err(WadError::ShortRead);
    }
    let bytes = vstd::slice::slice_subrange(b, start as usize, end as usize);
    match decode_records::<Directory>(bytes) {
        Ok(dir) => {
            assert(dir@.len() == h.count) by (nonlinear_arith)
                requires
                    dir@.len() * 16 == 16 * h.count,
            ;
            Ok(dir)
        },
        Err(e) => Err(e),
    }
}

/// Why the archive `b` cannot be opened, if it cannot.
pub open spec fn open_error(b: Seq<u8>) -> Option<WadError> {
    match Header::spec_error(b) {
        Some(e) => Some(e),
        None => directory_error(b, le_u32(b, 8), le_u32(b, 4)),
    }
}


/// Why the directory entry `i` does not locate a lump inside the archive `b`, if it does not.
pub open spec fn lump_range_error(b: Seq<u8>, dir: Seq<Directory>, i: int) -> Option<WadError> {
    if !(0 <= i < dir.len()) {
        Some(WadError::LumpIndexOutOfRange)
    } else if dir[i].offset + dir[i].size > b.len() {
        Some(WadError::ShortRead)
    } else {
        None
    }
}

/// The bytes of the lump that directory entry `i` locates.
pub open spec fn lump_bytes(b: Seq<u8>, dir: Seq<Directory>, i: int) -> Seq<u8> {
    b.subrange(dir[i].offset as int, dir[i].offset + dir[i].size)
}

/// Why lump `i` cannot be read as an array of records of `size` bytes, if it cannot.
pub open spec fn lump_error(b: Seq<u8>, dir: Seq<Directory>, i: int, size: nat) -> Option<
    WadError,
> {
    match lump_range_error(b, dir, i) {
        Some(e) => Some(e),
        None => if (dir[i].size as nat) % size != 0 {
            Some(WadError::BadLumpSize)
        } else {
            None
        },
    }
}

/// The first of two possible failures.
pub open spec fn first_error(a: Option<WadError>, b: Option<WadError>) -> Option<WadError> {
    if a is Some {
        a
    } else {
        b
    }
}

/// Why the map whose marker is directory entry `m` cannot be loaded, if it cannot: the first
/// failure among its eight geometry lumps, in their order.
pub open spec fn map_load_error(b: Seq<u8>, dir: Seq<Directory>, m: int) -> Option<WadError> {
    first_error(
        lump_error(b, dir, m + 1, 10),
        first_error(
            lump_error(b, dir, m + 2, 14),
            first_error(
                lump_error(b, dir, m + 3, 30),
                first_error(
                    lump_error(b, dir, m + 4, 4),
                    first_error(
                        lump_error(b, dir, m + 5, 12),
                        first_error(
                            lump_error(b, dir, m + 6, 4),
                            first_error(
                                lump_error(b, dir, m + 7, 28),
                                lump_error(b, dir, m + 8, 26),
                            ),
                        ),
                    ),
                ),
            ),
        ),
    )
}

/// `dir[i]` is the first directory entry whose name, without NUL padding, is `name`.
pub open spec fn is_first_marker(dir: Seq<Directory>, name: Seq<char>, i: int) -> bool {
    &&& 0 <= i < dir.len()
    &&& name_text(dir[i].name@) == name
    &&& forall|j: int| 0 <= j < i ==> name_text(#[trigger] dir[j].name@) != name
}

pub open spec fn has_marker(dir: Seq<Directory>, name: Seq<char>) -> bool {
    exists|i: int| 0 <= i < dir.len() && name_text(#[trigger] dir[i].name@) == name
}

/// The geometry arrays of one map.
#[derive(Debug)]
pub struct MapData {
    pub things: Vec<Thing>,
    pub line_defs: Vec<LineDef>,
    pub side_defs: Vec<SideDef>,
    pub vertexes: Vec<Vertex>,
    pub segs: Vec<Seg>,
    pub ssectors: Vec<SubSector>,
    pub nodes: Vec<Node>,
    pub sectors: Vec<Sector>,
}

/// `md` holds the eight geometry lumps that follow the marker `m` in the archive `b`.
pub open spec fn map_decoded(md: MapData, b: Seq<u8>, dir: Seq<Directory>, m: int) -> bool {
    &&& records_decoded(md.things@, lump_bytes(b, dir, m + 1))
    &&& records_decoded(md.line_defs@, lump_bytes(b, dir, m + 2))
    &&& records_decoded(md.side_defs@, lump_bytes(b, dir, m + 3))
    &&& records_decoded(md.vertexes@, lump_bytes(b, dir, m + 4))
    &&& records_decoded(md.segs@, lump_bytes(b, dir, m + 5))
    &&& records_decoded(md.ssectors@, lump_bytes(b, dir, m + 6))
    &&& records_decoded(md.nodes@, lump_bytes(b, dir, m + 7))
    &&& records_decoded(md.sectors@, lump_bytes(b, dir, m + 8))
}

/// An archive held in memory, with the map that was last loaded from it.
#[derive(Debug)]
pub struct WAD {
    pub header: Header,
    pub directory: Vec<Directory>,
    /// The archive's bytes.
    pub data: Vec<u8>,
    /// The published geometry of the map last loaded, if any.
    pub map: Option<MapData>,
}

impl WAD {
    /// The text of a fixed-width, NUL-padded name.
    pub fn slice_to_string(slice: &[u8]) -> (r: String)
        ensures
            r@ == name_text(slice@),
    {
        let mut end: usize = slice.len();
        assert(slice@.subrange(0, end as int) =~= slice@);
        while end > 0 && slice[end - 1] == 0
            invariant
                end <= slice@.len(),
                trim_nul(slice@) == trim_nul(slice@.subrange(0, end as int)),
            decreases end,
        {
            assert(slice@.subrange(0, end as int).drop_last() =~= slice@.subrange(
                0,
                end - 1,
            ));
            end = end - 1;
        }
        let ghost kept = slice@.subrange(0, end as int);
        assert(trim_nul(kept) == kept);
        let mut r = String::new();
        let mut i: usize = 0;
        while i < end
            invariant
                end <= slice@.len(),
                i <= end,
                kept == slice@.subrange(0, end as int),
                r@ == kept.subrange(0, i as int).map_values(|c: u8| c as char),
            decreases end - i,
        {
            push_char(&mut r, slice[i] as char);
            i = i + 1;
            assert(r@ =~= kept.subrange(0, i as int).map_values(|c: u8| c as char));
        }
        assert(kept.subrange(0, end as int) =~= kept);
        r
    }

    /// Opens the archive whose bytes are `data`: decodes its header and its directory. No map is
    /// loaded yet.
    pub fn new(data: Vec<u8>) -> (r: Result<WAD, WadError>)
        ensures
            r is Ok <==> open_error(data@) is None,
            r matches Err(e) ==> open_error(data@) == Some(e),
            r matches Ok(w) ==> {
                &&& w.data@ == data@
                &&& w.header.decoded_from(data@)
                &&& directory_decoded(w.directory@, data@, w.header)
                &&& w.map is None
            },
    {
        let header = match Header::from_bytes(data.as_slice()) {
            Ok(h) => h,
            Err(e) => return Err(e),
        };
        let directory = match read_directory(data.as_slice(), &header) {
            Ok(d) => d,
            Err(e) => return Err(e),
        };
        Ok(WAD { header, directory, data, map: None })
    }

    /// Replaces the archive by the one whose bytes are `data`. On failure nothing changes.
    pub fn open(&mut self, data: Vec<u8>) -> (r: Result<(), WadError>)
        ensures
            r is Ok <==> open_error(data@) is None,
            r matches Err(e) ==> open_error(data@) == Some(e) && *final(self) == *old(self),
            r is Ok ==> {
                &&& final(self).data@ == data@
                &&& final(self).header.decoded_from(data@)
                &&& directory_decoded(final(self).directory@, data@, final(self).header)
                &&& final(self).map is None
            },
    {
        match WAD::new(data) {
            Ok(w) => {
                *self = w;
                Ok(())
            },
            Err(e) => Err(e),
        }
    }

    /// Decodes the header and the directory again from the archive's bytes. On failure nothing
    /// changes.
    pub fn setup(&mut self) -> (r: Result<(), WadError>)
        ensures
            r is Ok <==> open_error(old(self).data@) is None,
            r matches Err(e) ==> open_error(old(self).data@) == Some(e) && *final(self) == *old(
                self,
            ),
            r is Ok ==> {
                &&& final(self).data@ == old(self).data@
                &&& final(self).map == old(self).map
                &&& final(self).header.decoded_from(old(self).data@)
                &&& directory_decoded(final(self).directory@, old(self).data@, final(self).header)
            },
    {
        let header = match Header::from_bytes(self.data.as_slice()) {
            Ok(h) => h,
            Err(e) => return Err(e),
        };
        let directory = match read_directory(self.data.as_slice(), &header) {
            Ok(d) => d,
            Err(e) => return Err(e),
        };
        self.header = header;
        self.directory = directory;
        Ok(())
    }

    /// The bytes of lump `index`.
    fn lump_slice(&self, index: usize) -> (r: Result<&[u8], WadError>)
        ensures
            r is Ok <==> lump_range_error(self.data@, self.directory@, index as int) is None,
            r matches Err(e) ==> lump_range_error(self.data@, self.directory@, index as int)
                == Some(e),
            r matches Ok(s) ==> s@ == lump_bytes(self.data@, self.directory@, index as int),
    {
        if index >= self.directory.len() {
            return Err(WadError::LumpIndexOutOfRange);
        }
        let entry = self.directory[index];
        let start = entry.offset as u64;
        let end = start + entry.size as u64;
        if end > self.data.len() as u64 {
            return Err(WadError::ShortRead);
        }
        Ok(vstd::slice::slice_subrange(self.data.as_slice(), start as usize, end as usize))
    }

    /// The bytes of lump `index`, exactly as many as its directory entry gives.
    pub fn read_map_lump(&self, index: usize) -> (r: Result<Vec<u8>, WadError>)
        ensures
            r is Ok <==> lump_range_error(self.data@, self.directory@, index as int) is None,
            r matches Err(e) ==> lump_range_error(self.data@, self.directory@, index as int)
                == Some(e),
            r matches Ok(v) ==> v@ == lump_bytes(self.data@, self.directory@, index as int),
    {
        match self.lump_slice(index) {
            Ok(s) => Ok(vstd::slice::slice_to_vec(s)),
            Err(e) => Err(e),
        }
    }

    /// Lump `index` decoded as an array of records of type `T`.
    pub fn read_map_lump_as<T: Record>(&self, index: usize) -> (r: Result<Vec<T>, WadError>)
        ensures
            r is Ok <==> lump_error(self.data@, self.directory@, index as int, T::spec_size())
                is None,
            r matches Err(e) ==> lump_error(
                self.data@,
                self.directory@,
                index as int,
                T::spec_size(),
            ) == Some(e),
            r matches Ok(v) ==> records_decoded(
                v@,
                lump_bytes(self.data@, self.directory@, index as int),
            ),
    {
        match self.lump_slice(index) {
            Ok(s) => decode_records::<T>(s),
            Err(e) => Err(e),
        }
    }

    /// The lump `lump` of the map whose marker is directory entry `marker`, decoded.
    fn load_lump<T: Record>(&self, marker: usize, lump: MapLumpIndex) -> (r: Result<
        Vec<T>,
        WadError,
    >)
        requires
            marker < self.directory@.len(),
        ensures
            r is Ok <==> lump_error(
                self.data@,
                self.directory@,
                marker + lump.spec_offset(),
                T::spec_size(),
            ) is None,
            r matches Err(e) ==> lump_error(
                self.data@,
                self.directory@,
                marker + lump.spec_offset(),
                T::spec_size(),
            ) == Some(e),
            r matches Ok(v) ==> records_decoded(
                v@,
                lump_bytes(self.data@, self.directory@, marker + lump.spec_offset()),
            ),
    {
        let off = lump.offset();
        if off >= self.directory.len() - marker {
            return Err(WadError::LumpIndexOutOfRange);
        }
        self.read_map_lump_as::<T>(marker + off)
    }

    /// Loads the map whose marker lump is named `name`: the first directory entry of that name
    /// marks it, and the eight geometry lumps that follow it are decoded into a staging set.
    /// Only when all eight decode is the staging set published in place of the previous map;
    /// otherwise the first failure is returned and nothing changes. Returns `Ok(false)`, with
    /// nothing changed, when no entry has that name.
    pub fn change_map(&mut self, name: &str) -> (r: Result<bool, WadError>)
        ensures
            !has_marker(old(self).directory@, name@) ==> r == Ok::<bool, WadError>(false)
                && *final(self) == *old(self),
            has_marker(old(self).directory@, name@) ==> {
                &&& r != Ok::<bool, WadError>(false)
                &&& exists|m: int| is_first_marker(old(self).directory@, name@, m)
            },
            forall|m: int|
                #[trigger] is_first_marker(old(self).directory@, name@, m) ==> match map_load_error(
                    old(self).data@,
                    old(self).directory@,
                    m,
                ) {
                    Some(e) => r == Err::<bool, WadError>(e) && *final(self) == *old(self),
                    None => {
                        &&& r == Ok::<bool, WadError>(true)
                        &&& final(self).header == old(self).header
                        &&& final(self).directory == old(self).directory
                        &&& final(self).data == old(self).data
                        &&& final(self).map matches Some(md) && map_decoded(
                            md,
                            old(self).data@,
                            old(self).directory@,
                            m,
                        )
                    },
                },
    {
        let mut i: usize = 0;
        while i < self.directory.len()
            invariant
                *self == *old(self),
                i <= self.directory@.len(),
                forall|j: int|
                    0 <= j < i ==> name_text(#[trigger] self.directory@[j].name@) != name@,
            decreases self.directory@.len() - i,
        {
            if self.directory[i].is_named(name) {
                assert(is_first_marker(self.directory@, name@, i as int));
                let things = match self.load_lump::<Thing>(i, MapLumpIndex::Things) {
                    Ok(v) => v,
                    Err(e) => return Err(e),
                };
                let line_defs = match self.load_lump::<LineDef>(i, MapLumpIndex::LineDefs) {
                    Ok(v) => v,
                    Err(e) => return Err(e),
                };
                let side_defs = match self.load_lump::<SideDef>(i, MapLumpIndex::SideDefs) {
                    Ok(v) => v,
                    Err(e) => return Err(e),
                };
                let vertexes = match self.load_lump::<Vertex>(i, MapLumpIndex::Vertexes) {
                    Ok(v) => v,
                    Err(e) => return Err(e),
                };
                let segs = match self.load_lump::<Seg>(i, MapLumpIndex::Segs) {
                    Ok(v) => v,
                    Err(e) => return Err(e),
                };
                let ssectors = match self.load_lump::<SubSector>(i, MapLumpIndex::SSectors) {
                    Ok(v) => v,
                    Err(e) => return Err(e),
                };
                let nodes = match self.load_lump::<Node>(i, MapLumpIndex::Nodes) {
                    Ok(v) => v,
                    Err(e) => return Err(e),
                };
                let sectors = match self.load_lump::<Sector>(i, MapLumpIndex::Sectors) {
                    Ok(v) => v,
                    Err(e) => return Err(e),
                };
                let staged = MapData {
                    things,
                    line_defs,
                    side_defs,
                    vertexes,
                    segs,
                    ssectors,
                    nodes,
                    sectors,
                };
                self.map = Some(staged);
                return Ok(true);
            }
            i = i + 1;
        }
        Ok(false)
    }

    /// The published geometry arrays; an error before any map was loaded.
    pub fn map(&self) -> (r: Result<&MapData, WadError>)
        ensures
            r is Ok <==> self.map is Some,
            r matches Ok(md) ==> self.map == Some(*md),
            r matches Err(e) ==> e == WadError::NoMapLoaded,
    {
        match &self.map {
            Some(md) => Ok(md),
            None => Err(WadError::NoMapLoaded),
        }
    }
}

/// An array of records decoded from some bytes holds as many records as fit whole in them.
pub proof fn lemma_record_count<T: Record>(v: Seq<T>, b: Seq<u8>)
    requires
        records_decoded(v, b),
        T::spec_size() > 0,
    ensures
        v.len() == b.len() / T::spec_size(),
{
    let size = T::spec_size() as int;
    assert((v.len() * size) / size == v.len()) by (nonlinear_arith)
        requires
            size > 0,
    ;
}

/// After a successful load of the map marked by entry `m`, each published array holds as many
/// records as its lump's declared byte size divided by the record's size.
pub proof fn lemma_published_lengths(md: MapData, b: Seq<u8>, dir: Seq<Directory>, m: int)
    requires
        map_load_error(b, dir, m) is None,
        map_decoded(md, b, dir, m),
    ensures
        md.things@.len() == dir[m + 1].size / 10,
        md.line_defs@.len() == dir[m + 2].size / 14,
        md.side_defs@.len() == dir[m + 3].size / 30,
        md.vertexes@.len() == dir[m + 4].size / 4,
        md.segs@.len() == dir[m + 5].size / 12,
        md.ssectors@.len() == dir[m + 6].size / 4,
        md.nodes@.len() == dir[m + 7].size / 28,
        md.sectors@.len() == dir[m + 8].size / 26,
{
    lemma_record_count(md.things@, lump_bytes(b, dir, m + 1));
    lemma_record_count(md.line_defs@, lump_bytes(b, dir, m + 2));
    lemma_record_count(md.side_defs@, lump_bytes(b, dir, m + 3));
    lemma_record_count(md.vertexes@, lump_bytes(b, dir, m + 4));
    lemma_record_count(md.segs@, lump_bytes(b, dir, m + 5));
    lemma_record_count(md.ssectors@, lump_bytes(b, dir, m + 6));
    lemma_record_count(md.nodes@, lump_bytes(b, dir, m + 7));
    lemma_record_count(md.sectors@, lump_bytes(b, dir, m + 8));
}

/// Decoding the twelve bytes that store a header gives back that header, field for field, and
/// a header with a known tag is accepted.
pub proof fn lemma_header_round_trip(h: Header)
    ensures
        h.spec_to_bytes().len() == 12,
        h.decoded_from(h.spec_to_bytes()),
        forall|g: Header| #[trigger] g.decoded_from(h.spec_to_bytes()) ==> g == h,
        known_tag(h.identifier@) ==> Header::spec_error(h.spec_to_bytes()) is None,
{
    let b = h.spec_to_bytes();
    lemma_u32_round_trip(h.count);
    lemma_u32_round_trip(h.offset);
    assert(b.subrange(0, 4) =~= h.identifier@);
    assert(b.subrange(4, 8) =~= u32_le_bytes(h.count));
    assert(b.subrange(8, 12) =~= u32_le_bytes(h.offset));
    assert(le_u32(b, 4) == le_u32(u32_le_bytes(h.count), 0));
    assert(le_u32(b, 8) == le_u32(u32_le_bytes(h.offset), 0));
    assert forall|g: Header| #[trigger] g.decoded_from(b) implies g == h by {
        assert(g.identifier@ =~= h.identifier@);
        assert(g.identifier == h.identifier);
    }
}

/// The directory read for a header holds exactly `count` entries, and entry `i` is read from
/// the sixteen bytes at `offset + 16 * i`: its lump offset, its lump size, then its name. The
/// bytes read are exactly the `16 * count` from `offset` on.
pub proof fn lemma_directory_entries(dir: Seq<Directory>, b: Seq<u8>, h: Header)
    requires
        directory_error(b, h.offset, h.count) is None,
        directory_decoded(dir, b, h),
    ensures
        dir.len() == h.count,
        h.offset + 16 * h.count <= b.len(),
        forall|i: int|
            0 <= i < dir.len() ==> {
                let at = h.offset + 16 * i;
                &&& #[trigger] dir[i].offset == le_u32(b, at)
                &&& dir[i].size == le_u32(b, at + 4)
                &&& dir[i].name@ == b.subrange(at + 8, at + 16)
            },
{
    let area = b.subrange(h.offset as int, h.offset + 16 * h.count);
    assert forall|i: int| 0 <= i < dir.len() implies {
        let at = h.offset + 16 * i;
        &&& #[trigger] dir[i].offset == le_u32(b, at)
        &&& dir[i].size == le_u32(b, at + 4)
        &&& dir[i].name@ == b.subrange(at + 8, at + 16)
    } by {
        let at = h.offset + 16 * i;
        let rec = area.subrange(i * 16, i * 16 + 16);
        assert(dir[i].decoded_from(rec));
        assert(rec =~= b.subrange(at, at + 16));
        assert(rec.subrange(8, 16) =~= b.subrange(at + 8, at + 16));
        assert(le_u32(rec, 0) == le_u32(b, at));
        assert(le_u32(rec, 4) == le_u32(b, at + 4));
    }
}

} // verus!
