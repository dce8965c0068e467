use std::cmp::Ordering;
use porter::archive_index::{ArchiveIndex, IndexEntry};
use porter::glb::{create_glb, extract_glb_chunks, GlbError};
use porter::range_read::{
    assemble_blocks, block_fetch_range, block_span, clamp_read_length, object_size, range_header,
    read_from_end_range, ObjectSizeError,
};
use porter::tz_locator::{member_range, ArchiveError, IndexLocator, LocatorAction, MemberError};
use porter::uri::split_archive_path;

fn le32(v: u32) -> [u8; 4] {
    v.to_le_bytes()
}

#[test]
fn glb_round_trip_pads_json_and_bin() {
    let json = b"{\"asset\":{}}x"; // 13 bytes
    let bin = [1u8, 2, 3, 4, 5];
    let glb = create_glb(json, Some(&bin));
    assert_eq!(&glb[0..4], b"glTF");
    assert_eq!(u32::from_le_bytes(glb[4..8].try_into().unwrap()), 2);
    // 12 header + 8 + 16 json + 8 + 8 bin
    assert_eq!(u32::from_le_bytes(glb[8..12].try_into().unwrap()), 52);
    assert_eq!(glb.len(), 52);
    let chunks = extract_glb_chunks(&glb).unwrap();
    let mut padded_json = json.to_vec();
    padded_json.extend_from_slice(b"   ");
    assert_eq!(chunks.json, padded_json);
    assert_eq!(chunks.bin, Some(vec![1, 2, 3, 4, 5, 0, 0, 0]));
    assert!(chunks.extra.is_empty());
}

#[test]
fn glb_without_bin_has_only_json() {
    let glb = create_glb(b"{}  ", None);
    assert_eq!(glb.len(), 12 + 8 + 4);
    let chunks = extract_glb_chunks(&glb).unwrap();
    assert_eq!(chunks.json, b"{}  ".to_vec());
    assert_eq!(chunks.bin, None);
}

#[test]
fn glb_length_field_counts_an_empty_bin_chunk() {
    let glb = create_glb(b"{}  ", Some(&[]));
    // 12 header + 8 + 4 json + 8 empty bin chunk
    assert_eq!(glb.len(), 32);
    assert_eq!(u32::from_le_bytes(glb[8..12].try_into().unwrap()) as usize, glb.len());
    let chunks = extract_glb_chunks(&glb).unwrap();
    assert_eq!(chunks.bin, Some(vec![]));
}

#[test]
fn glb_errors() {
    assert_eq!(extract_glb_chunks(b"glTF").err(), Some(GlbError::TooSmall));
    let mut bad_magic = create_glb(b"{}  ", None);
    bad_magic[0] = b'x';
    assert_eq!(extract_glb_chunks(&bad_magic).err(), Some(GlbError::InvalidMagic));
    let mut v1 = create_glb(b"{}  ", None);
    v1[4] = 1;
    assert_eq!(extract_glb_chunks(&v1).err(), Some(GlbError::UnsupportedVersion(1)));
    let mut overrun = create_glb(b"{}  ", None);
    overrun[12] = 40;
    assert_eq!(extract_glb_chunks(&overrun).err(), Some(GlbError::ChunkOverrun));
    let mut unaligned = create_glb(b"{}  ", None);
    unaligned[12] = 3;
    assert_eq!(extract_glb_chunks(&unaligned).err(), Some(GlbError::UnalignedChunk));
    let mut no_json: Vec<u8> = b"glTF".to_vec();
    no_json.extend_from_slice(&le32(2));
    no_json.extend_from_slice(&le32(20));
    no_json.extend_from_slice(&le32(0));
    no_json.extend_from_slice(b"BIN\0");
    assert_eq!(extract_glb_chunks(&no_json).err(), Some(GlbError::MissingJson));
}

#[test]
fn md5_of_paths() {
    let h = ArchiveIndex::hash_path("");
    assert_eq!(
        h,
        [0xd4, 0x1d, 0x8c, 0xd9, 0x8f, 0x00, 0xb2, 0x04, 0xe9, 0x80, 0x09, 0x98, 0xec, 0xf8, 0x42, 0x7e]
    );
    assert_ne!(ArchiveIndex::hash_path("tileset.json"), h);
}

#[test]
fn md5_compare_orders_by_little_endian_halves() {
    let mut a = [0u8; 16];
    let mut b = [0u8; 16];
    assert_eq!(ArchiveIndex::md5_compare(&a, &b), Ordering::Equal);
    a[1] = 1; // more significant than b[0]
    b[0] = 0xff;
    assert_eq!(ArchiveIndex::md5_compare(&a, &b), Ordering::Greater);
    let mut c = [0u8; 16];
    c[8] = 1;
    let d = [0u8; 16];
    assert_eq!(ArchiveIndex::md5_compare(&d, &c), Ordering::Less);
}

fn entry(first: u8, offset: u64) -> IndexEntry {
    let mut path_md5 = [0u8; 16];
    path_md5[7] = first;
    IndexEntry { path_md5, offset }
}

#[test]
fn index_sorts_and_finds() {
    let index = ArchiveIndex::from_unsorted_entries(vec![entry(3, 30), entry(1, 10), entry(2, 20)]);
    let offsets: Vec<u64> = index.entries.iter().map(|e| e.offset).collect();
    assert_eq!(offsets, vec![10, 20, 30]);
    assert_eq!(index.find_offset(&entry(2, 0).path_md5), Some(20));
    assert_eq!(index.find_offset(&entry(9, 0).path_md5), None);
}

#[test]
fn index_from_raw_bytes_reads_records() {
    let mut raw = Vec::new();
    for (k, off) in [(1u8, 7u64), (2, 9)] {
        let mut m = [0u8; 16];
        m[0] = k;
        raw.extend_from_slice(&m);
        raw.extend_from_slice(&off.to_le_bytes());
    }
    let index = ArchiveIndex::from_raw_bytes(&raw);
    assert_eq!(index.entries.len(), 2);
    assert_eq!(index.entries[1].offset, 9);
    assert_eq!(index.entries[0].path_md5[0], 1);
}

/// A stored zip holding one file named `@3dtilesIndex1@`.
fn three_tz(index: &[u8]) -> Vec<u8> {
    let name = b"@3dtilesIndex1@";
    let mut z = Vec::new();
    z.extend_from_slice(&[0x50, 0x4b, 0x03, 0x04]);
    z.extend_from_slice(&[0u8; 14]);
    z.extend_from_slice(&le32(index.len() as u32));
    z.extend_from_slice(&le32(index.len() as u32));
    z.extend_from_slice(&(name.len() as u16).to_le_bytes());
    z.extend_from_slice(&0u16.to_le_bytes());
    z.extend_from_slice(name);
    z.extend_from_slice(index);
    let cd_offset = z.len() as u32;
    z.extend_from_slice(&[0x50, 0x4b, 0x01, 0x02]);
    z.extend_from_slice(&[0u8; 16]);
    z.extend_from_slice(&le32(index.len() as u32));
    z.extend_from_slice(&le32(index.len() as u32));
    z.extend_from_slice(&(name.len() as u16).to_le_bytes());
    z.extend_from_slice(&[0u8; 12]);
    z.extend_from_slice(&le32(0));
    z.extend_from_slice(name);
    let cd_size = z.len() as u32 - cd_offset;
    z.extend_from_slice(&[0x50, 0x4b, 0x05, 0x06]);
    z.extend_from_slice(&[0u8; 8]);
    z.extend_from_slice(&le32(cd_size));
    z.extend_from_slice(&le32(cd_offset));
    z.extend_from_slice(&0u16.to_le_bytes());
    z
}

fn locate(file: &[u8]) -> Result<ArchiveIndex, ArchiveError> {
    let (mut locator, mut action) = IndexLocator::new(file.len() as u64);
    let mut reads = 0;
    loop {
        // Every search ends after at most six reads.
        assert!(reads <= 6);
        reads += 1;
        let bytes: Vec<u8> = match action {
            LocatorAction::ReadFromEnd { length } => file[file.len() - length as usize..].to_vec(),
            LocatorAction::ReadRange { offset, length } => {
                let end = (offset + length).min(file.len() as u64) as usize;
                file[offset as usize..end].to_vec()
            }
            LocatorAction::Finished(index) => return Ok(index),
            LocatorAction::Failed(e) => return Err(e),
        };
        action = locator.on_bytes(&bytes);
    }
}

#[test]
fn locator_finds_index_of_stored_archive() {
    let mut index = Vec::new();
    for (k, off) in [(1u8, 100u64), (2, 200)] {
        let mut m = [0u8; 16];
        m[0] = k;
        index.extend_from_slice(&m);
        index.extend_from_slice(&off.to_le_bytes());
    }
    let file = three_tz(&index);
    let found = locate(&file).unwrap();
    assert_eq!(found.entries.len(), 2);
    assert_eq!(found.entries[1].offset, 200);
}

#[test]
fn locator_rejects_non_archives() {
    assert!(locate(b"this is not a zip archive at all").is_err());
    let mut file = three_tz(&[0u8; 24]);
    let n = file.len();
    // rename the index inside the central directory
    let pos = n - 22 - 15;
    file[pos] = b'#';
    assert!(locate(&file).is_err());
}

#[test]
fn range_helpers() {
    assert_eq!(read_from_end_range(10, 100), (90, 10));
    assert_eq!(read_from_end_range(500, 100), (0, 100));
    assert_eq!(clamp_read_length(10, 0, 100), None);
    assert_eq!(clamp_read_length(100, 5, 100), None);
    assert_eq!(clamp_read_length(95, 10, 100), Some(5));
    assert_eq!(clamp_read_length(5, 10, 100), Some(10));
    assert_eq!(range_header(10, 5), "bytes=10-14");
    assert_eq!(object_size(None), Err(ObjectSizeError::EmptyOrMissingLength));
    assert_eq!(object_size(Some(0)), Err(ObjectSizeError::EmptyOrMissingLength));
    assert_eq!(object_size(Some(42)), Ok(42));
    assert_eq!(object_size(Some(-1)), Ok(u64::MAX));
}

#[test]
fn block_reads_assemble_file_ranges() {
    let file: Vec<u8> = (0u8..100).collect();
    let bs = 16u64;
    let (offset, length) = (10u64, 40u64);
    let (first, last) = block_span(offset, length, bs).unwrap();
    assert_eq!((first, last), (0, 3));
    assert_eq!(block_span(offset, 0, bs), None);
    let mut blocks = Vec::new();
    for k in first..=last {
        let (o, l) = block_fetch_range(k, bs, file.len() as u64).unwrap();
        blocks.push(file[o as usize..(o + l) as usize].to_vec());
    }
    assert_eq!(block_fetch_range(7, bs, 100), None);
    assert_eq!(block_fetch_range(6, bs, 100), Some((96, 4)));
    let got = assemble_blocks(offset, length, bs, &blocks);
    assert_eq!(got, file[10..50].to_vec());
    // A read past the end stops at the end of the resource.
    let (first, last) = block_span(90, 30, bs).unwrap();
    let mut tail = Vec::new();
    for k in first..=last {
        match block_fetch_range(k, bs, 100) {
            Some((o, l)) => tail.push(file[o as usize..(o + l) as usize].to_vec()),
            None => tail.push(Vec::new()),
        }
    }
    assert_eq!(assemble_blocks(90, 30, bs, &tail), file[90..100].to_vec());
}

fn local_header(method: u16, size: u32, name_len: u16, extra_len: u16) -> Vec<u8> {
    let mut h = vec![0x50, 0x4b, 0x03, 0x04];
    h.extend_from_slice(&[20, 0, 0, 0]);
    h.extend_from_slice(&method.to_le_bytes());
    h.extend_from_slice(&[0; 8]);
    h.extend_from_slice(&size.to_le_bytes());
    h.extend_from_slice(&size.to_le_bytes());
    h.extend_from_slice(&name_len.to_le_bytes());
    h.extend_from_slice(&extra_len.to_le_bytes());
    h
}

#[test]
fn stored_members_are_located_by_their_local_header() {
    let h = local_header(0, 1234, 10, 4);
    assert_eq!(h.len(), 30);
    assert_eq!(member_range(100, &h), Ok((100 + 30 + 10 + 4, 1234)));
    assert_eq!(member_range(0, &local_header(8, 1, 0, 0)), Err(MemberError::Compressed));
    assert_eq!(member_range(0, &h[..29]), Err(MemberError::InvalidLocalFileHeader));
    let mut bad = h.clone();
    bad[2] = 0x05;
    assert_eq!(member_range(0, &bad), Err(MemberError::InvalidLocalFileHeader));
    assert_eq!(member_range(u64::MAX - 40, &h), Err(MemberError::Malformed));
}

#[test]
fn archive_paths_split_at_the_first_archive() {
    assert_eq!(
        split_archive_path("/data/a.3tz/models/b.glb"),
        Some(("/data/a.3tz".to_string(), "models/b.glb".to_string()))
    );
    assert_eq!(
        split_archive_path("x.3tz/y.3tz/z"),
        Some(("x.3tz".to_string(), "y.3tz/z".to_string()))
    );
    assert_eq!(split_archive_path("/data/a.3tz"), None);
    assert_eq!(split_archive_path("/data/plain.glb"), None);
}
