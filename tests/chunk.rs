use minecator::block::{Block, BlockMap, Coordinate};
use minecator::chunk::{place_cells_into, Chunk, ChunkError};
use minecator::tag::Tag;

fn entry(name: &str) -> Tag {
    Tag::Compound(vec![("Name".to_string(), Tag::Str(name.to_string()))])
}

fn section(y: Option<i8>, names: &[&str], words: Vec<i64>) -> Tag {
    let mut fields = Vec::new();
    if let Some(y) = y {
        fields.push(("Y".to_string(), Tag::Byte(y)));
    }
    fields.push(("Palette".to_string(), Tag::List(names.iter().map(|n| entry(n)).collect())));
    fields.push(("BlockStates".to_string(), Tag::LongArray(words)));
    Tag::Compound(fields)
}

fn level(sections: Vec<Tag>) -> Option<Tag> {
    Some(Tag::Compound(vec![("Sections".to_string(), Tag::List(sections))]))
}

fn at(x: i64, y: i64, z: i64) -> Coordinate {
    Coordinate { x, y, z }
}

#[test]
fn cell_zero_of_section_two_lies_at_height_32() {
    let lv = level(vec![section(Some(2), &["minecraft:stone"], vec![0, 0])]);
    let chunk = Chunk::from_level(7, &lv).unwrap();
    assert_eq!(chunk.timestamp, 7);
    assert_eq!(chunk.block_at(&at(0, 32, 0)).unwrap().id, "minecraft:stone");
    assert_eq!(chunk.block_at(&at(15, 32, 1)).unwrap().id, "minecraft:stone");
    assert!(chunk.block_at(&at(0, 0, 0)).is_none());
    assert!(chunk.block_at(&at(0, 32, 2)).is_none());
    assert_eq!(chunk.coordinates().len(), 32);
}

#[test]
fn missing_y_index_offsets_by_minus_sixteen() {
    let lv = level(vec![section(None, &["minecraft:dirt"], vec![0, 0])]);
    let chunk = Chunk::from_level(0, &lv).unwrap();
    assert_eq!(chunk.block_at(&at(0, -16, 0)).unwrap().id, "minecraft:dirt");
}

#[test]
fn cells_take_x_then_z_then_y() {
    // palette of two, width 4: cell 1 and cell 16 name the second entry
    let mut w0: u64 = 0;
    w0 |= 1 << 4; // cell 1
    let w1: u64 = 1; // cell 16
    let lv = level(vec![section(Some(0), &["minecraft:air", "minecraft:log"], vec![w0 as i64, w1 as i64])]);
    let chunk = Chunk::from_level(0, &lv).unwrap();
    let coords = chunk.coordinates();
    assert_eq!(coords.len(), 2);
    assert_eq!(chunk.block_at(&at(1, 0, 0)).unwrap().id, "minecraft:log");
    assert_eq!(chunk.block_at(&at(0, 0, 1)).unwrap().id, "minecraft:log");
}

#[test]
fn out_of_range_index_drops_only_its_cell() {
    let palette: Vec<Block> = (0..50).map(|k| Block::named(format!("minecraft:b{}", k))).collect();
    let mut blocks = BlockMap::empty();
    place_cells_into(&mut blocks, &palette, &vec![200, 3, 49, 50, 7], 0);
    assert!(blocks.block_at(&at(0, 0, 0)).is_none());
    assert_eq!(blocks.block_at(&at(1, 0, 0)).unwrap().id, "minecraft:b3");
    assert_eq!(blocks.block_at(&at(2, 0, 0)).unwrap().id, "minecraft:b49");
    assert!(blocks.block_at(&at(3, 0, 0)).is_none());
    assert_eq!(blocks.block_at(&at(4, 0, 0)).unwrap().id, "minecraft:b7");
    assert_eq!(blocks.all_coordinates().len(), 3);
}

#[test]
fn ignored_blocks_never_placed() {
    let palette = vec![
        Block::named("minecraft:air".to_string()),
        Block::named("minecraft:stone".to_string()),
        Block::named("minecraft:cave_air".to_string()),
    ];
    let mut blocks = BlockMap::empty();
    place_cells_into(&mut blocks, &palette, &vec![0, 1, 2, 1, 0, 2], 3);
    let coords = blocks.all_coordinates();
    assert_eq!(coords.len(), 2);
    for c in coords {
        let id = &blocks.block_at(&c).unwrap().id;
        assert_ne!(id, "minecraft:air");
        assert_ne!(id, "minecraft:cave_air");
    }
    assert_eq!(blocks.block_at(&at(1, 48, 0)).unwrap().id, "minecraft:stone");
    assert_eq!(blocks.block_at(&at(3, 48, 0)).unwrap().id, "minecraft:stone");
}

#[test]
fn ignored_block_at_any_palette_position() {
    let lv = level(vec![
        section(Some(0), &["minecraft:cave_air", "minecraft:stone"], vec![0x10, 0]),
        section(Some(1), &["minecraft:stone", "minecraft:air"], vec![0x11, 0]),
    ]);
    let chunk = Chunk::from_level(0, &lv).unwrap();
    let coords = chunk.coordinates();
    assert_eq!(coords.len(), 1 + 30);
    for c in coords {
        assert_eq!(chunk.block_at(&c).unwrap().id, "minecraft:stone");
    }
}

#[test]
fn palette_properties_keep_strings_and_blank_others() {
    let props = Tag::Compound(vec![
        ("facing".to_string(), Tag::Str("north".to_string())),
        ("level".to_string(), Tag::Int(3)),
    ]);
    let e = Tag::Compound(vec![
        ("Name".to_string(), Tag::Str("minecraft:water".to_string())),
        ("Properties".to_string(), props),
    ]);
    let sec = Tag::Compound(vec![
        ("Y".to_string(), Tag::Byte(0)),
        ("Palette".to_string(), Tag::List(vec![e])),
        ("BlockStates".to_string(), Tag::LongArray(vec![0, 0])),
    ]);
    let chunk = Chunk::from_level(0, &level(vec![sec])).unwrap();
    let b = chunk.block_at(&at(0, 0, 0)).unwrap();
    assert_eq!(b.id, "minecraft:water");
    assert_eq!(b.property("facing").map(|s| s.as_str()), Some("north"));
    assert_eq!(b.property("level").map(|s| s.as_str()), Some(""));
    assert!(b.property("waterlogged").is_none());
}

#[test]
fn nameless_palette_entry_fails_the_chunk() {
    let bad = Tag::Compound(vec![("Properties".to_string(), Tag::Compound(vec![]))]);
    let sec = Tag::Compound(vec![
        ("Palette".to_string(), Tag::List(vec![entry("minecraft:stone"), bad])),
        ("BlockStates".to_string(), Tag::LongArray(vec![0, 0])),
    ]);
    let r = Chunk::from_level(0, &level(vec![sec]));
    assert!(matches!(r, Err(ChunkError::NamelessPaletteEntry)));
    let wrong_type = Tag::Compound(vec![("Name".to_string(), Tag::Int(1))]);
    let sec = Tag::Compound(vec![("Palette".to_string(), Tag::List(vec![wrong_type]))]);
    let r = Chunk::from_level(0, &level(vec![sec]));
    assert!(matches!(r, Err(ChunkError::NamelessPaletteEntry)));
}

#[test]
fn chunk_without_level_or_sections_is_empty() {
    let chunk = Chunk::from_level(3, &None).unwrap();
    assert!(chunk.coordinates().is_empty());
    let chunk = Chunk::from_level(3, &Some(Tag::Compound(vec![]))).unwrap();
    assert!(chunk.coordinates().is_empty());
    let chunk = Chunk::from_level(3, &level(vec![Tag::Int(5)])).unwrap();
    assert!(chunk.coordinates().is_empty());
}

#[test]
fn section_without_block_states_adds_nothing() {
    let sec = Tag::Compound(vec![("Palette".to_string(), Tag::List(vec![entry("minecraft:stone")]))]);
    let chunk = Chunk::from_level(0, &level(vec![sec])).unwrap();
    assert!(chunk.coordinates().is_empty());
}

#[test]
fn later_section_wins_on_collision() {
    let lv = level(vec![
        section(Some(0), &["minecraft:stone"], vec![0, 0]),
        section(Some(0), &["minecraft:dirt"], vec![0, 0]),
    ]);
    let chunk = Chunk::from_level(0, &lv).unwrap();
    assert_eq!(chunk.block_at(&at(5, 0, 0)).unwrap().id, "minecraft:dirt");
    assert_eq!(chunk.coordinates().len(), 32);
}

#[test]
fn block_builders_hold_their_values() {
    let mut b = Block::named("minecraft:chest".to_string());
    assert!(b.property("facing").is_none());
    b.set_property("facing".to_string(), "west".to_string());
    b.set_property("facing".to_string(), "east".to_string());
    let c = b.duplicate();
    assert_eq!(c.id, "minecraft:chest");
    assert_eq!(c.property("facing").map(|s| s.as_str()), Some("east"));
}

#[test]
fn blocks_equal_by_identifier_and_property_set() {
    let mut a = Block::named("minecraft:stairs".to_string());
    a.set_property("facing".to_string(), "north".to_string());
    a.set_property("half".to_string(), "top".to_string());
    let mut b = Block::named("minecraft:stairs".to_string());
    b.set_property("half".to_string(), "top".to_string());
    b.set_property("facing".to_string(), "north".to_string());
    assert!(a == b);
    b.set_property("half".to_string(), "bottom".to_string());
    assert!(a != b);
    let c = Block::named("minecraft:planks".to_string());
    assert!(Block::named("minecraft:planks".to_string()) == c);
    assert!(c != a);
}

#[test]
fn section_with_seventeen_entries_reads_five_bit_cells() {
    let names: Vec<String> = (0..17).map(|k| format!("minecraft:b{}", k)).collect();
    let idx: Vec<u64> = (0..25u64).map(|k| (k * 7 + 3) % 17).collect();
    let mut words = [0u64; 2];
    for (k, &v) in idx.iter().enumerate() {
        for b in 0..5 {
            if (v >> b) & 1 == 1 {
                let p = k * 5 + b;
                words[p / 64] |= 1 << (p % 64);
            }
        }
    }
    let palette: Vec<Block> = names.iter().map(|n| Block::named(n.clone())).collect();
    let sec = Tag::Compound(vec![(
        "BlockStates".to_string(),
        Tag::LongArray(words.iter().map(|&w| w as i64).collect()),
    )]);
    let mut blocks = BlockMap::empty();
    Chunk::add_section_blocks(&mut blocks, section_y(), &palette, &sec);
    for (k, &v) in idx.iter().enumerate() {
        let c = at((k % 16) as i64, 16, ((k / 16) % 16) as i64);
        assert_eq!(blocks.block_at(&c).unwrap().id, names[v as usize]);
    }
    assert_eq!(blocks.all_coordinates().len(), 25);
}

fn section_y() -> i8 {
    1
}
