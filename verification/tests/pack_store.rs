use std::io::Write;

use cvvc::shared::stores::zlib::ZlibError;
use cvvc::shared::stores::pack_store::{
    is_pack_name, object_from_decompressed, PackError, PackStore, PackedObjectMetadata, PackedObjectType, RawObject,
};

fn id(first: u8, second: u8, fill: u8) -> [u8; 20] {
    let mut out = [fill; 20];
    out[0] = first;
    out[1] = second;
    out
}

/// A version-2 index for the given sorted ids, with the given small offsets.
fn build_index(ids: &[[u8; 20]], offsets: &[u32]) -> Vec<u8> {
    let mut out = vec![255u8, 116, 79, 99, 0, 0, 0, 2];
    for b in 0..256usize {
        let count = ids.iter().filter(|i| (i[0] as usize) <= b).count() as u32;
        out.extend_from_slice(&count.to_be_bytes());
    }
    for i in ids {
        out.extend_from_slice(i);
    }
    for _ in ids {
        out.extend_from_slice(&[0, 0, 0, 0]);
    }
    for o in offsets {
        out.extend_from_slice(&o.to_be_bytes());
    }
    out
}

fn zlib(data: &[u8]) -> Vec<u8> {
    let mut enc = flate2::write::ZlibEncoder::new(Vec::new(), flate2::Compression::default());
    enc.write_all(data).unwrap();
    enc.finish().unwrap()
}

fn pack_header(count: u32) -> Vec<u8> {
    let mut out = vec![80u8, 65, 67, 75, 0, 0, 0, 2];
    out.extend_from_slice(&count.to_be_bytes());
    out
}

fn store_for(index: &[u8], pack_len: u64) -> PackStore {
    PackStore::new(
        String::from("/repo/objects/pack"),
        "pack-1234",
        String::from("/repo/objects/pack/pack-1234.pack"),
        String::from("/repo/objects/pack/pack-1234.idx"),
        index,
        pack_len,
    )
    .unwrap()
}

fn three_ids() -> Vec<[u8; 20]> {
    vec![id(0x1f, 0x00, 0x11), id(0x1f, 0xaa, 0x22), id(0xab, 0x01, 0x33)]
}

/// Pack with two blobs ("hello" and twenty bytes) and a tree.
fn sample_pack() -> (Vec<u8>, Vec<u32>) {
    let mut pack = pack_header(3);
    let mut offsets = Vec::new();
    offsets.push(pack.len() as u32);
    pack.push(0x35);
    pack.extend_from_slice(&zlib(b"hello"));
    offsets.push(pack.len() as u32);
    pack.push(0xB4);
    pack.push(0x01);
    pack.extend_from_slice(&zlib(b"twenty bytes of data"));
    offsets.push(pack.len() as u32);
    pack.push(0x20);
    pack.extend_from_slice(&zlib(b""));
    (pack, offsets)
}

#[test]
fn new_reads_item_count() {
    let index = build_index(&three_ids(), &[0, 0, 0]);
    let store = store_for(&index, 100);
    assert_eq!(store.item_count(), 3);
    assert_eq!(store.pack_name(), "pack-1234");
    assert_eq!(store.index_file(), "/repo/objects/pack/pack-1234.idx");
    assert_eq!(store.primary_file(), "/repo/objects/pack/pack-1234.pack");
}

#[test]
fn new_rejects_index_without_count() {
    let index = vec![255u8, 116, 79, 99, 0, 0, 0, 2];
    let res = PackStore::new(String::new(), "p", String::new(), String::new(), &index, 0);
    assert!(matches!(res, Err(PackError::UnexpectedEof)));
}

#[test]
fn search_lists_every_matching_object() {
    let index = build_index(&three_ids(), &[0, 0, 0]);
    let store = store_for(&index, 100);
    let mut found = store.search_objects(&index, "1f").unwrap();
    found.sort();
    assert_eq!(
        found,
        vec![hex::encode(id(0x1f, 0x00, 0x11)), hex::encode(id(0x1f, 0xaa, 0x22))]
    );
    let found = store.search_objects(&index, "1faa").unwrap();
    assert_eq!(found, vec![hex::encode(id(0x1f, 0xaa, 0x22))]);
    let found = store.search_objects(&index, "ab01").unwrap();
    assert_eq!(found, vec![hex::encode(id(0xab, 0x01, 0x33))]);
    let found = store.search_objects(&index, "1f01").unwrap();
    assert!(found.is_empty());
    let found = store.search_objects(&index, "00").unwrap();
    assert!(found.is_empty());
}

#[test]
fn search_lists_the_hit_then_lower_then_higher_matches() {
    let ids: Vec<[u8; 20]> = (0..5u8).map(|k| id(0x3c, k, 0x10 + k)).collect();
    let index = build_index(&ids, &[0; 5]);
    let store = store_for(&index, 100);
    let found = store.search_objects(&index, "3c").unwrap();
    let expected: Vec<String> = [2usize, 1, 0, 3, 4].iter().map(|&k| hex::encode(ids[k])).collect();
    assert_eq!(found, expected);
}

#[test]
fn search_with_full_id_finds_it() {
    let index = build_index(&three_ids(), &[0, 0, 0]);
    let store = store_for(&index, 100);
    let full = hex::encode(id(0xab, 0x01, 0x33));
    assert_eq!(store.search_objects(&index, &full).unwrap(), vec![full.clone()]);
}

#[test]
fn search_with_twenty_characters_finds_the_match() {
    let index = build_index(&three_ids(), &[0, 0, 0]);
    let store = store_for(&index, 100);
    let full = hex::encode(id(0xab, 0x01, 0x33));
    let twenty = &full[..20];
    assert_eq!(store.search_objects(&index, twenty).unwrap(), vec![full.clone()]);
    assert!(store.has_object(&index, twenty).unwrap());
    let other = &hex::encode(id(0xab, 0x01, 0x34))[..20];
    assert!(store.search_objects(&index, other).unwrap().is_empty());
    assert!(!store.has_object(&index, other).unwrap());
}

#[test]
fn read_object_with_twenty_characters() {
    let (pack, offsets) = sample_pack();
    let index = build_index(&three_ids(), &offsets);
    let store = store_for(&index, pack.len() as u64);
    let twenty = &hex::encode(id(0x1f, 0x00, 0x11))[..20];
    let obj = store.read_object(&index, &pack, twenty).unwrap().unwrap();
    assert_eq!(obj.data, b"hello".to_vec());
    let absent = &hex::encode(id(0x1f, 0x00, 0x12))[..20];
    assert!(store.read_object(&index, &pack, absent).unwrap().is_none());
}

#[test]
fn search_rejects_invalid_prefixes() {
    let index = build_index(&three_ids(), &[0, 0, 0]);
    let store = store_for(&index, 100);
    assert!(matches!(store.search_objects(&index, "1"), Err(PackError::InvalidObjectId)));
    assert!(matches!(store.search_objects(&index, ""), Err(PackError::InvalidObjectId)));
    assert!(matches!(store.search_objects(&index, "1g"), Err(PackError::InvalidObjectId)));
    assert!(matches!(store.search_objects(&index, "é"), Err(PackError::InvalidObjectId)));
}

#[test]
fn search_with_uppercase_prefix_matches_nothing() {
    let index = build_index(&three_ids(), &[0, 0, 0]);
    let store = store_for(&index, 100);
    assert!(store.search_objects(&index, "AB").unwrap().is_empty());
}

#[test]
fn search_rejects_unknown_index_format() {
    let mut index = build_index(&three_ids(), &[0, 0, 0]);
    let store = store_for(&index, 100);
    index[7] = 1;
    assert!(matches!(store.search_objects(&index, "1f"), Err(PackError::IndexFormatNotRecognised)));
    assert!(matches!(store.has_object(&index, "1f"), Err(PackError::IndexFormatNotRecognised)));
    assert!(matches!(store.search_objects(&index[..4], "1f"), Err(PackError::UnexpectedEof)));
}

#[test]
fn search_reports_inverted_fanout() {
    let mut index = build_index(&three_ids(), &[0, 0, 0]);
    let store = store_for(&index, 100);
    // fan-out entry 0x1e larger than entry 0x1f
    let pos = 8 + 4 * 0x1e;
    index[pos..pos + 4].copy_from_slice(&5u32.to_be_bytes());
    assert!(matches!(store.search_objects(&index, "1f"), Err(PackError::CorruptFanout)));
}

#[test]
fn search_reports_truncated_id_table() {
    let index = build_index(&three_ids(), &[0, 0, 0]);
    let store = store_for(&index, 100);
    let cut = &index[..1032 + 20];
    assert!(matches!(store.search_objects(cut, "ab"), Err(PackError::UnexpectedEof)));
}

#[test]
fn has_object_answers() {
    let index = build_index(&three_ids(), &[0, 0, 0]);
    let store = store_for(&index, 100);
    assert!(store.has_object(&index, "1f00").unwrap());
    assert!(store.has_object(&index, "ab").unwrap());
    assert!(!store.has_object(&index, "ac").unwrap());
}

#[test]
fn read_object_returns_decompressed_data() {
    let (pack, offsets) = sample_pack();
    let index = build_index(&three_ids(), &offsets);
    let store = store_for(&index, pack.len() as u64);
    let obj = store.read_object(&index, &pack, "1f00").unwrap().unwrap();
    assert_eq!(obj.data, b"hello".to_vec());
    assert_eq!(obj.object_id, "1f00");
    let meta = obj.pack_metadata.unwrap();
    assert_eq!(meta.size, 5);
    assert_eq!(meta.data_start_address, offsets[0] as u64 + 1);
    assert!(matches!(meta.kind, PackedObjectType::Blob));

    let obj = store.read_object(&index, &pack, "1faa").unwrap().unwrap();
    assert_eq!(obj.data, b"twenty bytes of data".to_vec());
    let meta = obj.pack_metadata.unwrap();
    assert_eq!(meta.size, 20);
    assert_eq!(meta.data_start_address, offsets[1] as u64 + 2);

    let obj = store.read_object(&index, &pack, "ab").unwrap().unwrap();
    assert!(obj.data.is_empty());
    assert!(matches!(obj.pack_metadata.unwrap().kind, PackedObjectType::Tree));
}

#[test]
fn read_object_absent_is_none() {
    let (pack, offsets) = sample_pack();
    let index = build_index(&three_ids(), &offsets);
    let store = store_for(&index, pack.len() as u64);
    assert!(store.read_object(&index, &pack, "ffee").unwrap().is_none());
}

#[test]
fn read_object_checks_pack_header() {
    let (mut pack, offsets) = sample_pack();
    let index = build_index(&three_ids(), &offsets);
    let store = store_for(&index, pack.len() as u64);
    pack[11] = 4;
    assert!(matches!(store.read_object(&index, &pack, "1f00"), Err(PackError::PackFormatNotRecognised)));
    pack[11] = 3;
    pack[0] = b'Q';
    assert!(matches!(store.read_object(&index, &pack, "1f00"), Err(PackError::PackFormatNotRecognised)));
    assert!(matches!(store.read_object(&index, &pack[..4], "1f00"), Err(PackError::UnexpectedEof)));
}

#[test]
fn read_object_rejects_delta_and_unknown_types() {
    let mut pack = pack_header(3);
    let first = pack.len() as u32;
    pack.push(0x65); // offset delta
    pack.extend_from_slice(&zlib(b"12345"));
    let second = pack.len() as u32;
    pack.push(0x55); // type 5 does not exist
    pack.extend_from_slice(&zlib(b"12345"));
    let index = build_index(&three_ids(), &[first, second, second]);
    let store = store_for(&index, pack.len() as u64);
    assert!(matches!(store.read_object(&index, &pack, "1f00"), Err(PackError::UnsupportedPackedObjectType)));
    assert!(matches!(store.read_object(&index, &pack, "1faa"), Err(PackError::InvalidPackedObjectType)));
}

#[test]
fn read_object_reports_corrupt_data() {
    let mut pack = pack_header(3);
    let first = pack.len() as u32;
    pack.push(0x35);
    pack.extend_from_slice(&[1, 2, 3, 4, 5, 6, 7, 8]);
    let index = build_index(&three_ids(), &[first, first, first]);
    let store = store_for(&index, pack.len() as u64);
    assert!(matches!(store.read_object(&index, &pack, "1f00"), Err(PackError::CorruptDeflateStream)));
}

#[test]
fn read_object_reports_incomplete_data() {
    let mut pack = pack_header(3);
    let first = pack.len() as u32;
    pack.push(0x3c);
    let whole = zlib(b"twelve bytes");
    pack.extend_from_slice(&whole[..whole.len() / 2]);
    let index = build_index(&three_ids(), &[first, first, first]);
    let store = store_for(&index, pack.len() as u64);
    assert!(matches!(store.read_object(&index, &pack, "1f00"), Err(PackError::IncompleteDeflateStream)));
}

#[test]
fn read_object_header_byte_of_exactly_0x80_continues() {
    let data = vec![b'x'; 2048];
    let mut pack = pack_header(3);
    let first = pack.len() as u32;
    pack.extend_from_slice(&[0xB0, 0x80, 0x01]);
    pack.extend_from_slice(&zlib(&data));
    let second = pack.len() as u32;
    let commit = vec![b'c'; 2063];
    pack.extend_from_slice(&[0x9f, 0x80, 0x01]);
    pack.extend_from_slice(&zlib(&commit));
    let index = build_index(&three_ids(), &[first, second, first]);
    let store = store_for(&index, pack.len() as u64);
    let obj = store.read_object(&index, &pack, "1f00").unwrap().unwrap();
    let meta = obj.pack_metadata.unwrap();
    assert_eq!(meta.size, 2048);
    assert_eq!(meta.data_start_address, first as u64 + 3);
    assert!(matches!(meta.kind, PackedObjectType::Blob));
    assert_eq!(obj.data, data);
    let obj = store.read_object(&index, &pack, "1faa").unwrap().unwrap();
    let meta = obj.pack_metadata.unwrap();
    assert_eq!(meta.size, 2063);
    assert_eq!(meta.data_start_address, second as u64 + 3);
    assert!(matches!(meta.kind, PackedObjectType::Commit));
    assert_eq!(obj.data, commit);
}

#[test]
fn read_object_address_past_pack_end() {
    let (pack, _) = sample_pack();
    let index = build_index(&three_ids(), &[10_000, 10_000, 10_000]);
    let store = store_for(&index, pack.len() as u64);
    assert!(matches!(store.read_object(&index, &pack, "1f00"), Err(PackError::AddressOutOfRange)));
}

#[test]
fn read_object_header_that_never_ends() {
    let mut pack = pack_header(3);
    let first = pack.len() as u32;
    pack.push(0xB5);
    let index = build_index(&three_ids(), &[first, first, first]);
    let store = store_for(&index, pack.len() as u64);
    assert!(matches!(store.read_object(&index, &pack, "1f00"), Err(PackError::MalformedObjectHeader)));
    let at_end = pack.len() as u32;
    let index = build_index(&three_ids(), &[at_end, at_end, at_end]);
    let store = store_for(&index, pack.len() as u64);
    assert!(matches!(store.read_object(&index, &pack, "1f00"), Err(PackError::MalformedObjectHeader)));
}

#[test]
fn read_object_header_running_to_pack_end() {
    let mut pack = pack_header(3);
    let first = pack.len() as u32;
    pack.extend_from_slice(&[0xe5, 0x85]);
    let index = build_index(&three_ids(), &[first, first, first]);
    let store = store_for(&index, pack.len() as u64);
    let res = store.read_object(&index, &pack, "1f00");
    assert!(matches!(res, Err(PackError::UnsupportedPackedObjectType)));
    if let Err(e) = res {
        assert_eq!(e.message(), "not supported!");
    }

    let mut pack = pack_header(3);
    let first = pack.len() as u32;
    pack.extend_from_slice(&[0xb5, 0x85]);
    let index = build_index(&three_ids(), &[first, first, first]);
    let store = store_for(&index, pack.len() as u64);
    assert!(matches!(store.read_object(&index, &pack, "1f00"), Err(PackError::IncompleteDeflateStream)));
}

#[test]
fn read_object_size_too_long_for_64_bits() {
    let mut pack = pack_header(3);
    let first = pack.len() as u32;
    pack.extend_from_slice(&[0xB5, 0xff, 0xff, 0xff, 0xff, 0xff, 0xff, 0xff, 0xff, 0xff, 0x01, 0x00]);
    let index = build_index(&three_ids(), &[first, first, first]);
    let store = store_for(&index, pack.len() as u64);
    assert!(matches!(store.read_object(&index, &pack, "1f00"), Err(PackError::MalformedObjectHeader)));
}

#[test]
fn read_object_large_offset_uses_low_bits_entry() {
    let (pack, offsets) = sample_pack();
    let mut index = build_index(&three_ids(), &[0x8000_0001, 0x8000_0000, offsets[2]]);
    index.extend_from_slice(&(offsets[1] as u64).to_be_bytes());
    index.extend_from_slice(&(offsets[0] as u64).to_be_bytes());
    let store = store_for(&index, pack.len() as u64);
    let obj = store.read_object(&index, &pack, "1f00").unwrap().unwrap();
    assert_eq!(obj.data, b"hello".to_vec());
    let obj = store.read_object(&index, &pack, "1faa").unwrap().unwrap();
    assert_eq!(obj.data, b"twenty bytes of data".to_vec());
    let obj = store.read_object(&index, &pack, "ab").unwrap().unwrap();
    assert!(obj.data.is_empty());
}

#[test]
fn read_object_large_offset_entry_past_index_end() {
    let (pack, _) = sample_pack();
    let mut index = build_index(&three_ids(), &[0x8000_0002, 0, 0]);
    index.extend_from_slice(&0u64.to_be_bytes());
    index.extend_from_slice(&0u64.to_be_bytes());
    let store = store_for(&index, pack.len() as u64);
    assert!(matches!(store.read_object(&index, &pack, "1f00"), Err(PackError::UnexpectedEof)));
}

#[test]
fn read_object_truncated_pack_data() {
    let (pack, offsets) = sample_pack();
    let index = build_index(&three_ids(), &offsets);
    let store = store_for(&index, pack.len() as u64);
    let short = &pack[..offsets[0] as usize + 3];
    assert!(matches!(store.read_object(&index, short, "1f00"), Err(PackError::UnexpectedEof)));
}

#[test]
fn packs_are_read_only() {
    let index = build_index(&three_ids(), &[0, 0, 0]);
    let store = store_for(&index, 100);
    assert!(matches!(store.create(), Err(PackError::CreationNotSupported)));
    assert!(!store._is_writeable());
    let obj = RawObject::new(vec![1, 2], "1f", None);
    assert!(matches!(store.write_raw_object(&obj), Err(PackError::WritingNotSupported)));
}

#[test]
fn pack_error_messages() {
    assert_eq!(PackError::InvalidObjectId.message(), "object ID is invalid or insufficient");
    assert_eq!(PackError::IndexFormatNotRecognised.message(), "pack index file format not recognised");
    assert_eq!(PackError::PackFormatNotRecognised.message(), "pack file format not recognised");
    assert_eq!(PackError::InvalidPackedObjectType.message(), "invalid packed object type");
    assert_eq!(PackError::UnsupportedPackedObjectType.message(), "not supported!");
    assert_eq!(PackError::CreationNotSupported.message(), "pack creation not yet supported");
    assert_eq!(PackError::WritingNotSupported.message(), "writing to packs not implemented");
    assert_eq!(PackError::IncompleteDeflateStream.message(), "incomplete deflate stream");
    assert_eq!(PackError::CorruptDeflateStream.message(), "corrupt deflate stream");
}

#[test]
fn pack_names() {
    assert!(is_pack_name("pack-0123abcdEF"));
    assert!(is_pack_name("pack-"));
    assert!(!is_pack_name("pack-12g4"));
    assert!(!is_pack_name("pock-1234"));
    assert!(!is_pack_name("pack"));
    assert!(!is_pack_name("multi-pack-index"));
}

#[test]
fn object_from_decompressed_data() {
    let meta = PackedObjectMetadata { size: 5, data_start_address: 13, kind: PackedObjectType::Blob };
    let obj = object_from_decompressed(Ok(vec![7, 8, 9]), "1f", meta).unwrap().unwrap();
    assert_eq!(obj.data, vec![7, 8, 9]);
    assert_eq!(obj.object_id, "1f");
    let meta = obj.pack_metadata.unwrap();
    assert_eq!(meta.size, 5);
    assert_eq!(meta.data_start_address, 13);
    let meta = PackedObjectMetadata { size: 0, data_start_address: 0, kind: PackedObjectType::Tag };
    assert!(matches!(
        object_from_decompressed(Err(ZlibError::Corrupt), "1f", meta),
        Err(PackError::CorruptDeflateStream)
    ));
    let meta = PackedObjectMetadata { size: 0, data_start_address: 0, kind: PackedObjectType::Tag };
    assert!(matches!(
        object_from_decompressed(Err(ZlibError::Incomplete), "1f", meta),
        Err(PackError::IncompleteDeflateStream)
    ));
}

#[test]
fn search_agrees_with_a_scan_of_all_ids() {
    let mut ids: Vec<[u8; 20]> = Vec::new();
    let mut x: u32 = 12345;
    for _ in 0..60 {
        let mut raw = [0u8; 20];
        for b in raw.iter_mut() {
            x = x.wrapping_mul(1103515245).wrapping_add(12345);
            *b = (x >> 16) as u8;
        }
        raw[0] = raw[0] % 4 + 0x3c;
        raw[1] = raw[1] % 3;
        ids.push(raw);
    }
    ids.sort();
    ids.dedup();
    let index = build_index(&ids, &vec![0; ids.len()]);
    let store = store_for(&index, 100);
    let hexes: Vec<String> = ids.iter().map(hex::encode).collect();
    let mut prefixes: Vec<String> = Vec::new();
    for h in &hexes {
        prefixes.push(h[..2].to_string());
        prefixes.push(h[..3].to_string());
        prefixes.push(h[..4].to_string());
        prefixes.push(h[..5].to_string());
    }
    prefixes.push(String::from("3c00f"));
    prefixes.push(String::from("40"));
    for p in prefixes {
        let mut found = store.search_objects(&index, &p).unwrap();
        found.sort();
        let expected: Vec<String> = hexes.iter().filter(|h| h.starts_with(&p)).cloned().collect();
        assert_eq!(found, expected, "prefix {p}");
        assert_eq!(store.has_object(&index, &p).unwrap(), !expected.is_empty());
    }
}
