use minecator::block::Coordinate;
use minecator::chunk::{Chunk, ChunkError};
use minecator::layout::is_well_laid_out;
use minecator::leveldat::{LevelDat, LevelDatError};
use minecator::progress::progress_init;
use minecator::region::{read_header, Region, RegionError};
use minecator::tag::Tag;

/// A chunk document whose one section (Y = `y`) holds a single palette entry.
fn chunk_blob(y: i8, name: &str) -> nbt::Blob {
    let mut entry = nbt::Map::new();
    entry.insert("Name".to_string(), nbt::Value::String(name.to_string()));
    let mut section = nbt::Map::new();
    section.insert("Y".to_string(), nbt::Value::Byte(y));
    section.insert("Palette".to_string(), nbt::Value::List(vec![nbt::Value::Compound(entry)]));
    section.insert("BlockStates".to_string(), nbt::Value::LongArray(vec![0, 0]));
    let mut level = nbt::Map::new();
    level.insert("Sections".to_string(), nbt::Value::List(vec![nbt::Value::Compound(section)]));
    let mut blob = nbt::Blob::new();
    blob.insert("Level", nbt::Value::Compound(level)).unwrap();
    blob
}

/// A slot buffer: declared length, scheme byte, document, then sector padding.
fn slot_buffer(scheme: u8, doc: &[u8], total: usize) -> Vec<u8> {
    let declared = (5 + doc.len()) as u32;
    let mut buf = declared.to_be_bytes().to_vec();
    buf.push(scheme);
    buf.extend_from_slice(doc);
    buf.resize(total, 0);
    buf
}

fn encoded(blob: &nbt::Blob, scheme: u8) -> Vec<u8> {
    let mut doc = Vec::new();
    match scheme {
        1 => blob.to_gzip_writer(&mut doc).unwrap(),
        2 => blob.to_zlib_writer(&mut doc).unwrap(),
        _ => blob.to_writer(&mut doc).unwrap(),
    }
    doc
}

fn at(x: i64, y: i64, z: i64) -> Coordinate {
    Coordinate { x, y, z }
}

#[test]
fn decodes_zlib_payload() {
    let doc = encoded(&chunk_blob(1, "minecraft:stone"), 2);
    let chunk = Chunk::new(9, slot_buffer(2, &doc, 4096)).unwrap();
    assert_eq!(chunk.timestamp, 9);
    assert_eq!(chunk.block_at(&at(0, 16, 0)).unwrap().id, "minecraft:stone");
    assert_eq!(chunk.coordinates().len(), 32);
}

#[test]
fn decodes_gzip_payload() {
    let doc = encoded(&chunk_blob(-1, "minecraft:sand"), 1);
    let chunk = Chunk::new(1, slot_buffer(1, &doc, 4096)).unwrap();
    assert_eq!(chunk.block_at(&at(3, -16, 1)).unwrap().id, "minecraft:sand");
}

#[test]
fn decodes_uncompressed_payload() {
    let doc = encoded(&chunk_blob(0, "minecraft:dirt"), 3);
    let chunk = Chunk::new(1, slot_buffer(3, &doc, 4096)).unwrap();
    assert_eq!(chunk.block_at(&at(15, 0, 1)).unwrap().id, "minecraft:dirt");
}

#[test]
fn malformed_payload_headers() {
    assert!(matches!(Chunk::new(0, vec![0, 0, 0]), Err(ChunkError::Malformed)));
    assert!(matches!(Chunk::new(0, vec![0, 0, 0, 4, 2, 0, 0]), Err(ChunkError::Malformed)));
    assert!(matches!(Chunk::new(0, vec![0, 0, 0, 9, 2, 0, 0]), Err(ChunkError::Malformed)));
}

#[test]
fn undecodable_payload_is_a_tree_error() {
    let garbage = vec![0x55u8; 40];
    assert!(matches!(Chunk::new(0, slot_buffer(2, &garbage, 64)), Err(ChunkError::BadLayout)));
    assert!(matches!(Chunk::new(0, slot_buffer(1, &garbage, 64)), Err(ChunkError::BadLayout)));
    assert!(matches!(Chunk::new(0, slot_buffer(3, &garbage, 64)), Err(ChunkError::BadLayout)));
}

/// A container whose listed slots hold the given buffers, one sector each from sector 2 on.
fn container(slots: &[(usize, u32, Vec<u8>)]) -> Vec<u8> {
    let mut data = vec![0u8; 8192];
    for (k, (slot, timestamp, buf)) in slots.iter().enumerate() {
        let sector = 2 + k as u32;
        let sectors = ((buf.len() + 4095) / 4096) as u32;
        let location = (sector << 8) | sectors;
        data[4 * slot..4 * slot + 4].copy_from_slice(&location.to_be_bytes());
        data[4096 + 4 * slot..4096 + 4 * slot + 4].copy_from_slice(&timestamp.to_be_bytes());
        let mut padded = buf.clone();
        padded.resize(sectors as usize * 4096, 0);
        data.extend_from_slice(&padded);
    }
    data
}

#[test]
fn only_populated_slot_gives_one_chunk() {
    let doc = encoded(&chunk_blob(0, "minecraft:stone"), 2);
    let data = container(&[(5, 1234, slot_buffer(2, &doc, 4096))]);
    let region = Region::new("world/region/r.-3.12.mca", &data).unwrap();
    assert_eq!((region.x, region.z), (-3, 12));
    assert_eq!(region.chunks.len(), 1);
    assert!(region.failures.is_empty());
    assert_eq!(region.chunks[0].timestamp, 1234);
    assert_eq!(region.chunks[0].block_at(&at(0, 0, 0)).unwrap().id, "minecraft:stone");
}

#[test]
fn header_lists_populated_slots_in_order() {
    let doc = encoded(&chunk_blob(0, "minecraft:stone"), 3);
    let data = container(&[(700, 5, slot_buffer(3, &doc, 4096)), (3, 6, slot_buffer(3, &doc, 4096))]);
    let slots = read_header(&data).unwrap();
    assert_eq!(slots.len(), 2);
    assert_eq!(slots[0].index, 3);
    assert_eq!(slots[0].offset, 3 * 4096);
    assert_eq!(slots[0].length, 4096);
    assert_eq!(slots[0].timestamp, 6);
    assert_eq!(slots[1].index, 700);
    assert_eq!(slots[1].offset, 2 * 4096);
    assert_eq!(slots[1].timestamp, 5);
}

#[test]
fn empty_directory_gives_no_chunks() {
    let data = vec![0u8; 8192];
    assert!(read_header(&data).unwrap().is_empty());
    let region = Region::new("r.0.0.mca", &data).unwrap();
    assert!(region.chunks.is_empty());
    assert!(region.failures.is_empty());
}

#[test]
fn failing_slot_does_not_stop_the_region() {
    let good = encoded(&chunk_blob(0, "minecraft:stone"), 2);
    let data = container(&[
        (0, 1, slot_buffer(2, &[0x55u8; 30], 4096)),
        (1, 2, slot_buffer(2, &good, 4096)),
        (2, 3, vec![0, 0, 0x20, 0, 2]),
    ]);
    let region = Region::new("r.1.1.mca", &data).unwrap();
    assert_eq!(region.chunks.len(), 1);
    assert_eq!(region.chunks[0].timestamp, 2);
    assert_eq!(region.failures.len(), 2);
    assert_eq!(region.failures[0].slot, 0);
    assert!(matches!(region.failures[0].error, ChunkError::BadLayout));
    assert_eq!(region.failures[1].slot, 2);
    assert!(matches!(region.failures[1].error, ChunkError::Malformed));
}

#[test]
fn region_errors() {
    let data = vec![0u8; 8192];
    assert!(matches!(Region::new("region.mca", &data), Err(RegionError::BadFilename)));
    assert!(matches!(Region::new("r.0.0.mca", &data[..8191]), Err(RegionError::HeaderTooShort)));
    assert!(matches!(read_header(&[]), Err(RegionError::HeaderTooShort)));
}

#[test]
fn slot_past_end_of_file_fails_alone() {
    let mut data = vec![0u8; 8192];
    data[8..12].copy_from_slice(&((50u32 << 8) | 1).to_be_bytes());
    let region = Region::new("r.2.3.mca", &data).unwrap();
    assert!(region.chunks.is_empty());
    assert_eq!(region.failures.len(), 1);
    assert_eq!(region.failures[0].slot, 2);
    assert!(matches!(region.failures[0].error, ChunkError::Malformed));
}

#[test]
fn level_document_version_lookup() {
    let mut version = nbt::Map::new();
    version.insert("Name".to_string(), nbt::Value::String("1.17.1".to_string()));
    let mut data = nbt::Map::new();
    data.insert("Version".to_string(), nbt::Value::Compound(version));
    let mut blob = nbt::Blob::new();
    blob.insert("Data", nbt::Value::Compound(data)).unwrap();
    let bytes = encoded(&blob, 1);
    let level = LevelDat::new("level.dat", &bytes).unwrap();
    assert_eq!(level.filename, "level.dat");
    match level.version() {
        Some(Tag::Compound(entries)) => {
            assert_eq!(entries.len(), 1);
            assert_eq!(entries[0].0, "Name");
            assert!(matches!(&entries[0].1, Tag::Str(s) if s == "1.17.1"));
        }
        other => panic!("unexpected version {:?}", other),
    }
}

#[test]
fn level_document_without_version() {
    let mut blob = nbt::Blob::new();
    blob.insert("Data", nbt::Value::Compound(nbt::Map::new())).unwrap();
    let level = LevelDat::new("level.dat", &encoded(&blob, 1)).unwrap();
    assert!(level.version().is_none());
    let mut blob = nbt::Blob::new();
    blob.insert("Other", nbt::Value::Int(1)).unwrap();
    let level = LevelDat::new("level.dat", &encoded(&blob, 1)).unwrap();
    assert!(level.data.is_none());
    assert!(level.version().is_none());
    assert!(matches!(LevelDat::new("level.dat", &[1, 2, 3]), Err(LevelDatError::BadLayout)));
}

#[test]
fn progress_bar_reset() {
    let bar = indicatif::ProgressBar::hidden();
    bar.set_position(17);
    progress_init(&bar, 2048, "Loading chunks");
    assert_eq!(bar.length(), 2048);
    assert_eq!(bar.position(), 0);
}

#[test]
fn negative_array_length_is_rejected_before_decoding() {
    let data = vec![0, 0, 0, 15, 3, 0x0a, 0, 0, 0x0c, 0, 0, 0xff, 0xff, 0xff, 0xff];
    assert!(matches!(Chunk::new(0, data), Err(ChunkError::BadLayout)));
}

#[test]
fn overlong_list_is_rejected_before_decoding() {
    // a list of two billion longs in a few bytes
    let data = vec![0, 0, 0, 17, 3, 0x0a, 0, 0, 0x09, 0, 0, 0x04, 0x7f, 0xff, 0xff, 0xff, 0];
    assert!(matches!(Chunk::new(0, data), Err(ChunkError::BadLayout)));
}

/// An uncompressed document: a root compound holding `levels` nested lists.
fn nested_lists(levels: usize) -> Vec<u8> {
    let mut doc = vec![0x0a, 0, 0, 0x09, 0, 1, b'L'];
    for _ in 1..levels {
        doc.extend_from_slice(&[0x09, 0, 0, 0, 1]);
    }
    doc.extend_from_slice(&[0x01, 0, 0, 0, 0]);
    doc.push(0);
    doc
}

#[test]
fn nesting_past_the_limit_is_rejected() {
    let deep = nested_lists(100_000);
    assert!(matches!(Chunk::new(0, slot_buffer(3, &deep, 5 + deep.len())), Err(ChunkError::BadLayout)));
    let shallow = nested_lists(100);
    let chunk = Chunk::new(0, slot_buffer(3, &shallow, 5 + shallow.len())).unwrap();
    assert!(chunk.coordinates().is_empty());
}

#[test]
fn layout_check_on_documents() {
    assert!(is_well_laid_out(&encoded(&chunk_blob(0, "minecraft:stone"), 3)));
    assert!(is_well_laid_out(&nested_lists(511)));
    assert!(!is_well_laid_out(&nested_lists(512)));
    assert!(!is_well_laid_out(&[]));
    assert!(!is_well_laid_out(&[0x0a, 0, 0]));
    assert!(is_well_laid_out(&[0x0a, 0, 0, 0]));
    assert!(!is_well_laid_out(&[0x0a, 0, 0, 0x0d, 0, 0, 0]));
}

#[test]
fn undecodable_text_is_a_tree_error() {
    let doc = vec![0x0a, 0, 0, 0x08, 0, 1, b'a', 0, 1, 0xff, 0];
    assert!(matches!(Chunk::new(0, slot_buffer(3, &doc, 5 + doc.len())), Err(ChunkError::Tree(_))));
}

/// A slot buffer whose declared length counts the scheme byte and the
/// document, so that bytes `[5, L)` leave out the document's last four bytes.
fn trailer_cut_buffer(scheme: u8, doc: &[u8]) -> Vec<u8> {
    let declared = (1 + doc.len()) as u32;
    let mut buf = declared.to_be_bytes().to_vec();
    buf.push(scheme);
    buf.extend_from_slice(doc);
    buf.resize(4096, 0);
    buf
}

#[test]
fn compressed_payload_without_its_trailer_decodes() {
    let blob = chunk_blob(2, "minecraft:gravel");
    let chunk = Chunk::new(0, trailer_cut_buffer(2, &encoded(&blob, 2))).unwrap();
    assert_eq!(chunk.block_at(&at(0, 32, 0)).unwrap().id, "minecraft:gravel");
    let chunk = Chunk::new(0, trailer_cut_buffer(1, &encoded(&blob, 1))).unwrap();
    assert_eq!(chunk.block_at(&at(0, 32, 0)).unwrap().id, "minecraft:gravel");
}

#[test]
fn chunk_list_of_a_container() {
    let doc = encoded(&chunk_blob(0, "minecraft:stone"), 2);
    let data = container(&[(9, 4, slot_buffer(2, &doc, 4096)), (10, 5, vec![0, 0, 0, 1, 2])]);
    let (chunks, failures) = Region::mca_to_chunks(&data).unwrap();
    assert_eq!(chunks.len(), 1);
    assert_eq!(chunks[0].timestamp, 4);
    assert_eq!(failures.len(), 1);
    assert_eq!(failures[0].slot, 10);
    assert!(matches!(failures[0].error, ChunkError::Malformed));
    let (chunks, failures) = Region::mca_to_chunks(&vec![0u8; 8192]).unwrap();
    assert!(chunks.is_empty() && failures.is_empty());
    assert!(matches!(Region::mca_to_chunks(&[0u8; 100]), Err(RegionError::HeaderTooShort)));
}
