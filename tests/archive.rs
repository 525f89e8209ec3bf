use wad_bsp::{
    decode_records, read_directory, BlockMap, Directory, ErrorKind, Header, LineDef, LineDefFlags,
    MapLumpIndex, Node, Reject, Sector, Seg, SideDef, SubSector, Thing, Vertex, WadError, WAD,
};

fn name8(s: &str) -> [u8; 8] {
    let mut n = [0u8; 8];
    for (i, b) in s.bytes().enumerate() {
        n[i] = b;
    }
    n
}

/// An archive with the given lumps stored one after the other, then the directory.
fn archive(tag: &[u8; 4], lumps: &[(&str, Vec<u8>)]) -> Vec<u8> {
    let mut body: Vec<u8> = Vec::new();
    let mut entries: Vec<(u32, u32, [u8; 8])> = Vec::new();
    for (name, bytes) in lumps {
        entries.push(((12 + body.len()) as u32, bytes.len() as u32, name8(name)));
        body.extend_from_slice(bytes);
    }
    let header = Header {
        identifier: *tag,
        count: lumps.len() as u32,
        offset: (12 + body.len()) as u32,
    };
    let mut out = header.to_bytes();
    out.extend_from_slice(&body);
    for (offset, size, name) in entries {
        out.extend_from_slice(&offset.to_le_bytes());
        out.extend_from_slice(&size.to_le_bytes());
        out.extend_from_slice(&name);
    }
    out
}

fn i16s(values: &[i16]) -> Vec<u8> {
    values.iter().flat_map(|v| v.to_le_bytes()).collect()
}

/// The eight geometry lumps of a small map, each holding `n` records.
fn map_lumps(name: &'static str, n: usize) -> Vec<(&'static str, Vec<u8>)> {
    vec![
        (name, vec![]),
        ("THINGS", vec![1u8; 10 * n]),
        ("LINEDEFS", vec![2u8; 14 * n]),
        ("SIDEDEFS", vec![3u8; 30 * n]),
        ("VERTEXES", vec![4u8; 4 * n]),
        ("SEGS", vec![5u8; 12 * n]),
        ("SSECTORS", vec![6u8; 4 * n]),
        ("NODES", vec![7u8; 28 * n]),
        ("SECTORS", vec![8u8; 26 * n]),
        ("REJECT", vec![]),
        ("BLOCKMAP", vec![]),
    ]
}

#[test]
fn header_round_trip() {
    let h = Header { identifier: *b"PWAD", count: 12, offset: 76 };
    let bytes = h.to_bytes();
    assert_eq!(bytes, vec![b'P', b'W', b'A', b'D', 12, 0, 0, 0, 76, 0, 0, 0]);
    let back = Header::from_bytes(&bytes).unwrap();
    assert_eq!(back, h);
    assert_eq!(back.identification(), "PWAD");
    assert_eq!(back.count, 12);
    assert_eq!(back.offset, 76);
}

#[test]
fn header_large_values_round_trip() {
    let h = Header { identifier: *b"IWAD", count: 0xDEAD_BEEF, offset: 0x0102_0304 };
    let bytes = h.to_bytes();
    assert_eq!(&bytes[8..12], &[4, 3, 2, 1]);
    assert_eq!(Header::from_bytes(&bytes), Ok(h));
}

#[test]
fn header_unknown_tag_is_format_error() {
    let h = Header { identifier: *b"ZWAD", count: 0, offset: 12 };
    let r = Header::from_bytes(&h.to_bytes());
    assert_eq!(r, Err(WadError::UnknownTag));
    assert_eq!(WadError::UnknownTag.kind(), ErrorKind::Format);
}

#[test]
fn header_short_read_is_io_error() {
    assert_eq!(Header::from_bytes(b"PWAD\x01\x00"), Err(WadError::ShortRead));
    assert_eq!(WadError::ShortRead.kind(), ErrorKind::Io);
}

#[test]
fn header_default_is_zero() {
    let h = Header::default();
    assert_eq!(h.identifier, [0u8; 4]);
    assert_eq!(h.count, 0);
    assert_eq!(h.offset, 0);
    assert_eq!(h.identification(), "");
}

#[test]
fn directory_count_matches_header() {
    let bytes = archive(b"IWAD", &[("A", vec![1, 2, 3]), ("BB", vec![4; 5]), ("CCCCCCCC", vec![])]);
    let wad = WAD::new(bytes.clone()).unwrap();
    assert_eq!(wad.header.count, 3);
    assert_eq!(wad.directory.len(), wad.header.count as usize);
    assert_eq!(wad.header.offset as usize + 3 * 16, bytes.len());
    assert_eq!(wad.directory[0], Directory { offset: 12, size: 3, name: name8("A") });
    assert_eq!(wad.directory[1].offset, 15);
    assert_eq!(wad.directory[1].size, 5);
    assert_eq!(wad.directory[1].name(), "BB");
    assert_eq!(wad.directory[2].name(), "CCCCCCCC");
    assert_eq!(wad.header.identification(), "IWAD");
}

#[test]
fn directory_reads_from_offset() {
    let mut bytes = vec![0xAAu8; 20];
    bytes.extend_from_slice(&7u32.to_le_bytes());
    bytes.extend_from_slice(&9u32.to_le_bytes());
    bytes.extend_from_slice(b"MAP01\0\0\0");
    bytes.extend_from_slice(&[0xBB; 3]);
    let h = Header { identifier: *b"PWAD", count: 1, offset: 20 };
    let dir = read_directory(&bytes, &h).unwrap();
    assert_eq!(dir, vec![Directory { offset: 7, size: 9, name: *b"MAP01\0\0\0" }]);
    let none = Header { identifier: *b"PWAD", count: 0, offset: 39 };
    assert_eq!(read_directory(&bytes, &none), Ok(vec![]));
}

#[test]
fn directory_past_end_is_refused() {
    let mut bytes = archive(b"PWAD", &[("A", vec![1])]);
    bytes[4..8].copy_from_slice(&0xFFFF_FFFFu32.to_le_bytes());
    assert_eq!(WAD::new(bytes).err(), Some(WadError::ShortRead));
}

#[test]
fn new_refuses_unknown_tag() {
    let bytes = archive(b"XWAD", &[("A", vec![1])]);
    assert_eq!(WAD::new(bytes).err(), Some(WadError::UnknownTag));
}

#[test]
fn open_replaces_archive_and_keeps_it_on_failure() {
    let mut wad = WAD::new(archive(b"PWAD", &map_lumps("MAP01", 1))).unwrap();
    assert_eq!(wad.change_map("MAP01"), Ok(true));
    assert_eq!(wad.open(vec![1, 2, 3]), Err(WadError::ShortRead));
    assert_eq!(wad.directory.len(), 11);
    assert!(wad.map().is_ok());
    assert_eq!(wad.open(archive(b"IWAD", &[("X", vec![9])])), Ok(()));
    assert_eq!(wad.directory.len(), 1);
    assert_eq!(wad.map().err(), Some(WadError::NoMapLoaded));
}

#[test]
fn setup_rereads_header_and_directory() {
    let mut wad = WAD::new(archive(b"PWAD", &[("A", vec![1]), ("B", vec![2])])).unwrap();
    wad.directory.clear();
    wad.header.count = 0;
    assert_eq!(wad.setup(), Ok(()));
    assert_eq!(wad.header.count, 2);
    assert_eq!(wad.directory[1].name(), "B");
}

#[test]
fn read_raw_lump_exact_bytes() {
    let wad = WAD::new(archive(b"PWAD", &[("A", vec![1, 2, 3]), ("B", vec![4, 5])])).unwrap();
    assert_eq!(wad.read_map_lump(0), Ok(vec![1, 2, 3]));
    assert_eq!(wad.read_map_lump(1), Ok(vec![4, 5]));
    assert_eq!(wad.read_map_lump(2), Err(WadError::LumpIndexOutOfRange));
}

#[test]
fn read_raw_lump_short_read() {
    let mut wad = WAD::new(archive(b"PWAD", &[("A", vec![1, 2, 3])])).unwrap();
    wad.directory[0].size = 1000;
    assert_eq!(wad.read_map_lump(0), Err(WadError::ShortRead));
}

#[test]
fn read_typed_80_bytes_gives_20_records() {
    let lumps = [("V80", vec![0u8; 80]), ("V81", vec![0u8; 81])];
    let wad = WAD::new(archive(b"PWAD", &lumps)).unwrap();
    let v = wad.read_map_lump_as::<Vertex>(0).unwrap();
    assert_eq!(v.len(), 20);
    assert_eq!(wad.read_map_lump_as::<Vertex>(1), Err(WadError::BadLumpSize));
    assert_eq!(WadError::BadLumpSize.kind(), ErrorKind::Format);
}

#[test]
fn decode_records_no_silent_truncation() {
    assert_eq!(decode_records::<Vertex>(&[0u8; 80]).unwrap().len(), 20);
    assert_eq!(decode_records::<Vertex>(&[0u8; 81]), Err(WadError::BadLumpSize));
    assert_eq!(decode_records::<Thing>(&[]), Ok(vec![]));
}

#[test]
fn decode_vertex_fields() {
    let v = decode_records::<Vertex>(&i16s(&[-1, 300, 0x7fff, -0x8000])).unwrap();
    assert_eq!(v, vec![Vertex { x: -1, y: 300 }, Vertex { x: 0x7fff, y: -0x8000 }]);
}

#[test]
fn decode_thing_and_linedef_fields() {
    let t = decode_records::<Thing>(&i16s(&[1056, -3616, 90, 1, 7])).unwrap();
    assert_eq!(t, vec![Thing { x: 1056, y: -3616, angle: 90, t_type: 1, flags: 7 }]);
    let l = decode_records::<LineDef>(&i16s(&[0, 1, 4, 11, 3, 5, -1])).unwrap();
    assert_eq!(
        l[0],
        LineDef {
            start_vertex: 0,
            end_vertex: 1,
            flags: 4,
            special_type: 11,
            sector_tag: 3,
            right_sidedef: 5,
            left_sidedef: -1,
        }
    );
    assert_eq!(l[0].flags as u16 & LineDefFlags::TwoSided.mask(), 4);
}

#[test]
fn decode_seg_subsector_node_fields() {
    let s = decode_records::<Seg>(&i16s(&[1, 2, -16384, 9, 1, 12])).unwrap();
    assert_eq!(
        s[0],
        Seg { start_vertex: 1, end_vertex: 2, angle: -16384, linedef: 9, direction: 1, offset: 12 }
    );
    let ss = decode_records::<SubSector>(&i16s(&[4, 10])).unwrap();
    assert_eq!(ss[0], SubSector { num_segs: 4, first_seg: 10 });
    let mut nb = i16s(&[64, -32, 0, 128, 10, 20, 30, 40, 50, 60, 70, 80]);
    nb.extend_from_slice(&0x8001u16.to_le_bytes());
    nb.extend_from_slice(&3u16.to_le_bytes());
    let n = decode_records::<Node>(&nb).unwrap();
    assert_eq!(n[0].x_partition, 64);
    assert_eq!(n[0].y_partition, -32);
    assert_eq!(n[0].dx_partition, 0);
    assert_eq!(n[0].dy_partition, 128);
    assert_eq!(n[0].front_bbox, [10, 20, 30, 40]);
    assert_eq!(n[0].back_bbox, [50, 60, 70, 80]);
    assert_eq!(n[0].front_child as u16, 0x8001);
    assert_eq!(n[0].back_child, 3);
}

#[test]
fn decode_sidedef_and_sector_names() {
    let mut sb = i16s(&[8, -8]);
    sb.extend_from_slice(b"STARTAN3");
    sb.extend_from_slice(b"-\0\0\0\0\0\0\0");
    sb.extend_from_slice(b"\0\0\0\0\0\0\0\0");
    sb.extend_from_slice(&i16s(&[2]));
    let sd = decode_records::<SideDef>(&sb).unwrap();
    assert_eq!(sd[0].x_offset, 8);
    assert_eq!(sd[0].y_offset, -8);
    assert_eq!(sd[0].upper_texture(), "STARTAN3");
    assert_eq!(sd[0].lower_texture(), "-");
    assert_eq!(sd[0].middle_texture(), "");
    assert_eq!(sd[0].sector, 2);

    let mut cb = i16s(&[0, 72]);
    cb.extend_from_slice(b"FLOOR4_8");
    cb.extend_from_slice(b"CEIL3_5\0");
    cb.extend_from_slice(&i16s(&[160, 9, 4]));
    let sec = decode_records::<Sector>(&cb).unwrap();
    assert_eq!(sec[0].floor_height, 0);
    assert_eq!(sec[0].ceiling_height, 72);
    assert_eq!(sec[0].floor_texture(), "FLOOR4_8");
    assert_eq!(sec[0].ceiling_texture(), "CEIL3_5");
    assert_eq!((sec[0].light_level, sec[0].special_type, sec[0].tag), (160, 9, 4));
}

#[test]
fn names_lose_only_trailing_nuls() {
    assert_eq!(WAD::slice_to_string(b"E1M1\0\0\0\0"), "E1M1");
    assert_eq!(WAD::slice_to_string(b"A\0B\0\0\0\0\0"), "A\0B");
    assert_eq!(WAD::slice_to_string(b"\0\0\0\0"), "");
    assert_eq!(WAD::slice_to_string(b""), "");
    let d = Directory { offset: 0, size: 0, name: *b"MAP01\0\0\0" };
    assert!(d.is_named("MAP01"));
    assert!(!d.is_named("map01"));
    assert!(!d.is_named("MAP0"));
}

#[test]
fn change_map_loads_map01() {
    let mut wad = WAD::new(archive(b"PWAD", &map_lumps("MAP01", 3))).unwrap();
    assert_eq!(wad.map().err(), Some(WadError::NoMapLoaded));
    assert_eq!(WadError::NoMapLoaded.kind(), ErrorKind::State);
    assert_eq!(wad.change_map("MAP01"), Ok(true));
    let md = wad.map().unwrap();
    assert_eq!(md.things.len(), 30 / 10);
    assert_eq!(md.line_defs.len(), 42 / 14);
    assert_eq!(md.side_defs.len(), 90 / 30);
    assert_eq!(md.vertexes.len(), 12 / 4);
    assert_eq!(md.segs.len(), 36 / 12);
    assert_eq!(md.ssectors.len(), 12 / 4);
    assert_eq!(md.nodes.len(), 84 / 28);
    assert_eq!(md.sectors.len(), 78 / 26);
    assert_eq!(md.vertexes[0], Vertex { x: 0x0404, y: 0x0404 });
    assert_eq!(md.things[2].flags, 0x0101);
}

#[test]
fn change_map_picks_first_marker() {
    let mut lumps = map_lumps("MAP01", 1);
    lumps.extend(map_lumps("MAP01", 2));
    let mut wad = WAD::new(archive(b"PWAD", &lumps)).unwrap();
    assert_eq!(wad.change_map("MAP01"), Ok(true));
    assert_eq!(wad.map().unwrap().things.len(), 1);
}

#[test]
fn change_map_missing_returns_false_and_keeps_map() {
    let mut wad = WAD::new(archive(b"PWAD", &map_lumps("MAP01", 2))).unwrap();
    assert_eq!(wad.change_map("NOPE"), Ok(false));
    assert!(wad.map().is_err());
    assert_eq!(wad.change_map("MAP01"), Ok(true));
    let before = format!("{:?}", wad.map().unwrap());
    assert_eq!(wad.change_map("NOPE"), Ok(false));
    assert_eq!(format!("{:?}", wad.map().unwrap()), before);
}

#[test]
fn change_map_failure_keeps_previous_map() {
    let mut lumps = map_lumps("MAP01", 2);
    let mut bad = map_lumps("MAP02", 1);
    bad[7].1.push(0);
    lumps.extend(bad);
    let mut wad = WAD::new(archive(b"PWAD", &lumps)).unwrap();
    assert_eq!(wad.change_map("MAP01"), Ok(true));
    let before = format!("{:?}", wad.map().unwrap());
    assert_eq!(wad.change_map("MAP02"), Err(WadError::BadLumpSize));
    assert_eq!(format!("{:?}", wad.map().unwrap()), before);
}

#[test]
fn change_map_incomplete_block() {
    let mut lumps = map_lumps("MAP01", 1);
    lumps.truncate(5);
    let mut wad = WAD::new(archive(b"PWAD", &lumps)).unwrap();
    assert_eq!(wad.change_map("MAP01"), Err(WadError::LumpIndexOutOfRange));
    assert!(wad.map().is_err());
}

#[test]
fn map_lump_offsets_and_flag_masks() {
    assert_eq!(MapLumpIndex::Things.offset(), 1);
    assert_eq!(MapLumpIndex::Nodes.offset(), 7);
    assert_eq!(MapLumpIndex::Sectors.offset(), 8);
    assert_eq!(MapLumpIndex::BlockMap.offset(), 10);
    assert_eq!(LineDefFlags::Blocking.mask(), 1);
    assert_eq!(LineDefFlags::Secret.mask(), 32);
    assert_eq!(LineDefFlags::Draw.mask(), 256);
}

#[test]
fn decode_reject_and_blockmap_heads() {
    let r = decode_records::<Reject>(&i16s(&[3, -4])).unwrap();
    assert_eq!(r, vec![Reject { num_rejects: 3, first_reject: -4 }]);
    let b = decode_records::<BlockMap>(&i16s(&[-776, -4872, 36, 23, 832])).unwrap();
    assert_eq!(
        b,
        vec![BlockMap { x_origin: -776, y_origin: -4872, columns: 36, rows: 23, offsets: [832] }]
    );
    assert_eq!(decode_records::<BlockMap>(&i16s(&[1, 2, 3])), Err(WadError::BadLumpSize));
}
