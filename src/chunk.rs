//! Chunks: the blocks of one chunk slot, assembled section by section from
//! the slot's tree document.

use crate::block::{
    is_ignored, is_ignored_id, Block, BlockMap, BlockModel, Coordinate, PropertyMap,
    property_entries,
};
use crate::bytes::{be_u32, read_be_u32};
use crate::document::{
    gunzip_prefix, inflate_gzip, inflate_zlib, plain_child, read_plain_child, zlib_prefix,
};
use crate::layout::{is_well_laid_out, well_laid_out};
use crate::packed::{
    bit_width, bit_width_of, holds_cells, lemma_bit_width_is_ceiling_log2, lemma_unpack_round_trip,
    unpack_indices, unpacked,
};
use vstd::arithmetic::power2::pow2;
use crate::tag::{child, get_child, Tag};
use vstd::prelude::*;

verus! {

/// Why one chunk slot could not be decoded.
#[derive(Debug)]
pub enum ChunkError {
    /// The buffer is shorter than its header, or declares a payload that does
    /// not fit in it.
    Malformed,
    /// The decompressed document has a negative or overlong length, an
    /// unknown tag kind, or nesting past the depth limit.
    BadLayout,
    /// The decompressed document did not decode into a tree.
    Tree(nbt::Error),
    /// A palette entry has no string "Name".
    NamelessPaletteEntry,
}

/// The blocks of one chunk, with the slot's timestamp.
#[derive(Debug)]
pub struct Chunk {
    pub timestamp: u32,
    pub blocks: BlockMap,
}

// ----- the model of a decoded chunk -----

/// The value stored for a property: its text, or empty for a non-string tag.
pub open spec fn property_value(t: Tag) -> Seq<char> {
    match t {
        Tag::Str(s) => s@,
        _ => Seq::empty(),
    }
}

/// The properties that the first `n` entries of a compound give, later
/// entries overriding earlier ones.
pub open spec fn properties_from(entries: Seq<(String, Tag)>, n: nat) -> Map<Seq<char>, Seq<char>>
    decreases n,
{
    if n == 0 || n > entries.len() {
        Map::empty()
    } else {
        properties_from(entries, (n - 1) as nat).insert(
            entries[n - 1].0@,
            property_value(entries[n - 1].1),
        )
    }
}

/// The properties of a palette entry.
pub open spec fn properties_of(entry: Tag) -> Map<Seq<char>, Seq<char>> {
    match child(entry, "Properties"@) {
        Some(Tag::Compound(entries)) => properties_from(entries@, entries@.len()),
        _ => Map::empty(),
    }
}

/// The block that a palette entry names, if it has a string "Name".
pub open spec fn palette_entry(entry: Tag) -> Option<BlockModel> {
    match child(entry, "Name"@) {
        Some(Tag::Str(name)) => Some(BlockModel { id: name@, properties: properties_of(entry) }),
        _ => None,
    }
}

/// The palette that the first `n` list items give; items that are not
/// compounds are passed over.
pub open spec fn palette_from(items: Seq<Tag>, n: nat) -> Option<Seq<BlockModel>>
    decreases n,
{
    if n == 0 || n > items.len() {
        Some(Seq::empty())
    } else {
        match palette_from(items, (n - 1) as nat) {
            None => None,
            Some(p) => match items[n - 1] {
                Tag::Compound(_) => match palette_entry(items[n - 1]) {
                    Some(b) => Some(p.push(b)),
                    None => None,
                },
                _ => Some(p),
            },
        }
    }
}

/// The palette of a section; `None` when an entry has no name.
pub open spec fn palette_of(section: Tag) -> Option<Seq<BlockModel>> {
    match child(section, "Palette"@) {
        Some(Tag::List(items)) => palette_from(items@, items@.len()),
        _ => Some(Seq::empty()),
    }
}

/// The Y-index of a section, or -1 when it is missing or not a byte.
pub open spec fn y_index_of(section: Tag) -> i8 {
    match child(section, "Y"@) {
        Some(Tag::Byte(y)) => y,
        _ => -1i8,
    }
}

/// Where cell `n` of a section with Y-index `y` lies: X fastest, then Z, then Y.
pub open spec fn cell_coordinate(n: nat, y: i8) -> Coordinate {
    Coordinate {
        x: (n % 16) as i64,
        z: ((n / 16) % 16) as i64,
        y: ((n / 256) % 16 + y * 16) as i64,
    }
}

/// `m` with the first `n` cells placed: a cell whose index lies inside the
/// palette and whose block is not ignored maps its coordinate to that block.
pub open spec fn place_cells(
    m: Map<Coordinate, BlockModel>,
    palette: Seq<BlockModel>,
    cells: Seq<nat>,
    y: i8,
    n: nat,
) -> Map<Coordinate, BlockModel>
    decreases n,
{
    if n == 0 || n > cells.len() {
        m
    } else {
        let prev = place_cells(m, palette, cells, y, (n - 1) as nat);
        let idx = cells[n - 1];
        if idx < palette.len() && !is_ignored(palette[idx as int].id) {
            prev.insert(cell_coordinate((n - 1) as nat, y), palette[idx as int])
        } else {
            prev
        }
    }
}

/// `m` with every cell of a section's packed array placed against `palette`.
pub open spec fn section_cells(
    m: Map<Coordinate, BlockModel>,
    palette: Seq<BlockModel>,
    y: i8,
    section: Tag,
) -> Map<Coordinate, BlockModel> {
    match child(section, "BlockStates"@) {
        Some(Tag::LongArray(words)) => {
            let cells = unpacked(words@, bit_width_of(palette.len()));
            place_cells(m, palette, cells, y, cells.len())
        },
        _ => m,
    }
}

/// `m` with one section's blocks added; `None` when its palette has a nameless entry.
pub open spec fn with_section(m: Map<Coordinate, BlockModel>, section: Tag) -> Option<
    Map<Coordinate, BlockModel>,
> {
    match palette_of(section) {
        None => None,
        Some(p) => Some(section_cells(m, p, y_index_of(section), section)),
    }
}

/// The blocks of the first `n` sections; items that are not compounds are passed over.
pub open spec fn sections_from(sections: Seq<Tag>, n: nat) -> Option<Map<Coordinate, BlockModel>>
    decreases n,
{
    if n == 0 || n > sections.len() {
        Some(Map::empty())
    } else {
        match sections_from(sections, (n - 1) as nat) {
            None => None,
            Some(m) => match sections[n - 1] {
                Tag::Compound(_) => with_section(m, sections[n - 1]),
                _ => Some(m),
            },
        }
    }
}

/// The block map of a chunk whose root has `level` as its "Level" child.
pub open spec fn level_blocks(level: Option<Tag>) -> Option<Map<Coordinate, BlockModel>> {
    match level {
        Some(l) => match child(l, "Sections"@) {
            Some(Tag::List(sections)) => sections_from(sections@, sections@.len()),
            _ => Some(Map::empty()),
        },
        None => Some(Map::empty()),
    }
}

/// The blocks that a palette stands for.
pub open spec fn palette_view(p: Seq<Block>) -> Seq<BlockModel> {
    p.map_values(|b: Block| b@)
}

/// Whether a slot buffer is long enough for its header and its declared payload.
pub open spec fn payload_fits(data: Seq<u8>) -> bool {
    data.len() >= 5 && 5 <= be_u32(data, 0) <= data.len()
}

/// The bytes of a payload after the decompression that `scheme` selects:
/// 1 gzip, 2 zlib, anything else none.
pub open spec fn decompressed(scheme: u8, bytes: Seq<u8>) -> Seq<u8> {
    if scheme == 1 {
        gunzip_prefix(bytes)
    } else if scheme == 2 {
        zlib_prefix(bytes)
    } else {
        bytes
    }
}

/// The document of a slot buffer whose payload fits: bytes `[5, L)`, decompressed.
pub open spec fn slot_document(data: Seq<u8>) -> Seq<u8> {
    decompressed(data[4], data.subrange(5, be_u32(data, 0) as int))
}

/// The "Level" child of the document in a slot buffer whose payload fits;
/// `None` when the document is badly laid out or does not decode.
pub open spec fn chunk_level(data: Seq<u8>) -> Option<Option<Tag>> {
    if well_laid_out(slot_document(data)) {
        plain_child(slot_document(data), "Level"@)
    } else {
        None
    }
}

/// `e` is the error that decoding the slot buffer `data` ends in.
pub open spec fn chunk_error_explained(data: Seq<u8>, e: ChunkError) -> bool {
    match e {
        ChunkError::Malformed => !payload_fits(data),
        ChunkError::BadLayout => payload_fits(data) && !well_laid_out(slot_document(data)),
        ChunkError::Tree(_) => payload_fits(data) && well_laid_out(slot_document(data))
            && plain_child(slot_document(data), "Level"@) is None,
        ChunkError::NamelessPaletteEntry => payload_fits(data) && match chunk_level(data) {
            Some(level) => level_blocks(level) is None,
            None => false,
        },
    }
}

proof fn lemma_palette_stays_failed(items: Seq<Tag>, i: nat, n: nat)
    requires
        palette_from(items, i) is None,
        i <= n <= items.len(),
    ensures
        palette_from(items, n) is None,
    decreases n - i,
{
    if i < n {
        lemma_palette_stays_failed(items, i, (n - 1) as nat);
    }
}

proof fn lemma_sections_stay_failed(sections: Seq<Tag>, i: nat, n: nat)
    requires
        sections_from(sections, i) is None,
        i <= n <= sections.len(),
    ensures
        sections_from(sections, n) is None,
    decreases n - i,
{
    if i < n {
        lemma_sections_stay_failed(sections, i, (n - 1) as nat);
    }
}

impl Chunk {
    /// Decodes one slot buffer: a big-endian declared length L, the
    /// compression scheme at index 4, and the document in bytes `[5, L)`.
    pub fn new(timestamp: u32, data: Vec<u8>) -> (r: Result<Chunk, ChunkError>)
        ensures
            !payload_fits(data@) ==> (r matches Err(ChunkError::Malformed)),
            payload_fits(data@) && !well_laid_out(slot_document(data@)) ==> (r matches Err(
                ChunkError::BadLayout,
            )),
            payload_fits(data@) && well_laid_out(slot_document(data@)) ==> match plain_child(
                slot_document(data@),
                "Level"@,
            ) {
                None => r matches Err(ChunkError::Tree(_)),
                Some(level) => match level_blocks(level) {
                    None => r matches Err(ChunkError::NamelessPaletteEntry),
                    Some(m) => match r {
                        Ok(c) => c.timestamp == timestamp && c.blocks@ == m,
                        Err(_) => false,
                    },
                },
            },
            r matches Err(e) ==> chunk_error_explained(data@, e),
    {
        if data.len() < 5 {
            return Err(ChunkError::Malformed);
        }
        let declared = read_be_u32(data.as_slice(), 0);
        if declared < 5 || declared as usize > data.len() {
            return Err(ChunkError::Malformed);
        }
        let scheme = data[4];
        let payload = vstd::slice::slice_subrange(data.as_slice(), 5, declared as usize);
        let doc: Vec<u8> = if scheme == 1 {
            inflate_gzip(payload)
        } else if scheme == 2 {
            inflate_zlib(payload)
        } else {
            vstd::slice::slice_to_vec(payload)
        };
        assert(doc@ == slot_document(data@));
        if !is_well_laid_out(doc.as_slice()) {
            return Err(ChunkError::BadLayout);
        }
        match read_plain_child(doc.as_slice(), "Level") {
            Err(e) => Err(ChunkError::Tree(e)),
            Ok(l) => Chunk::from_level(timestamp, &l),
        }
    }

    /// Assembles a chunk from the "Level" child of its document, section by
    /// section.
    pub fn from_level(timestamp: u32, level: &Option<Tag>) -> (r: Result<Chunk, ChunkError>)
        ensures
            match level_blocks(*level) {
                None => r matches Err(ChunkError::NamelessPaletteEntry),
                Some(m) => match r {
                    Ok(c) => c.timestamp == timestamp && c.blocks@ == m,
                    Err(_) => false,
                },
            },
    {
        let mut blocks = BlockMap::new();
        if let Some(l) = level {
            if let Some(Tag::List(sections)) = get_child(l, "Sections") {
                let mut i: usize = 0;
                while i < sections.len()
                    invariant
                        i <= sections@.len(),
                        child(*l, "Sections"@) == Some(Tag::List(*sections)),
                        *level == Some(*l),
                        sections_from(sections@, i as nat) == Some(blocks@),
                    decreases sections.len() - i,
                {
                    let section = &sections[i];
                    if let Tag::Compound(_) = section {
                        let y = Chunk::get_y_index(section);
                        let palette = match Chunk::get_palette(section) {
                            Ok(p) => p,
                            Err(e) => {
                                proof {
                                    lemma_sections_stay_failed(
                                        sections@,
                                        (i + 1) as nat,
                                        sections@.len(),
                                    );
                                }
                                return Err(e);
                            },
                        };
                        Chunk::add_section_blocks(&mut blocks, y, &palette, section);
                    }
                    i += 1;
                }
            }
        }
        Ok(Chunk { timestamp, blocks })
    }

    /// Places every cell of a section's packed array into `blocks`.
    pub fn add_section_blocks(blocks: &mut BlockMap, y_idx: i8, palette: &Vec<Block>, section: &Tag)
        ensures
            final(blocks)@ == section_cells(old(blocks)@, palette_view(palette@), y_idx, *section),
    {
        if let Some(Tag::LongArray(words)) = get_child(section, "BlockStates") {
            let width = bit_width(palette.len());
            let cells = unpack_indices(words, width);
            assert(cell_values(cells@) =~= unpacked(words@, width as nat));
            place_cells_into(blocks, palette, &cells, y_idx);
        }
    }

    /// The Y-index of a section: its "Y" byte, or -1 when that is missing or
    /// of another kind.
    fn get_y_index(section: &Tag) -> (r: i8)
        ensures
            r == y_index_of(*section),
    {
        match get_child(section, "Y") {
            Some(Tag::Byte(y)) => *y,
            _ => -1,
        }
    }

    /// The properties of a palette entry: string values verbatim, any other
    /// value as an empty string.
    fn get_palette_properties(entry: &Tag) -> (r: PropertyMap)
        ensures
            property_entries(r) == properties_of(*entry),
    {
        let mut props = PropertyMap::new();
        if let Some(Tag::Compound(entries)) = get_child(entry, "Properties") {
            let mut i: usize = 0;
            while i < entries.len()
                invariant
                    i <= entries@.len(),
                    child(*entry, "Properties"@) == Some(Tag::Compound(*entries)),
                    property_entries(props) == properties_from(entries@, i as nat),
                decreases entries.len() - i,
            {
                let value = match &entries[i].1 {
                    Tag::Str(s) => s.clone(),
                    _ => String::new(),
                };
                props.insert(entries[i].0.clone(), value);
                i += 1;
            }
        }
        props
    }

    /// The palette of a section, in list order.
    fn get_palette(section: &Tag) -> (r: Result<Vec<Block>, ChunkError>)
        ensures
            match r {
                Ok(p) => palette_of(*section) == Some(palette_view(p@)),
                Err(e) => palette_of(*section) is None && e is NamelessPaletteEntry,
            },
    {
        let mut palette: Vec<Block> = Vec::new();
        if let Some(Tag::List(items)) = get_child(section, "Palette") {
            let mut i: usize = 0;
            while i < items.len()
                invariant
                    i <= items@.len(),
                    child(*section, "Palette"@) == Some(Tag::List(*items)),
                    palette_from(items@, i as nat) == Some(palette_view(palette@)),
                decreases items.len() - i,
            {
                let item = &items[i];
                if let Tag::Compound(_) = item {
                    let properties = Chunk::get_palette_properties(item);
                    match get_child(item, "Name") {
                        Some(Tag::Str(name)) => {
                            let ghost before = palette@;
                            palette.push(Block { id: name.clone(), properties });
                            assert(palette_view(palette@) =~= palette_view(before).push(
                                palette@.last()@,
                            ));
                        },
                        _ => {
                            proof {
                                lemma_palette_stays_failed(items@, (i + 1) as nat, items@.len());
                            }
                            return Err(ChunkError::NamelessPaletteEntry);
                        },
                    }
                }
                i += 1;
            }
        }
        Ok(palette)
    }

    /// The block at a coordinate, if the chunk holds one there.
    pub fn block_at(&self, c: &Coordinate) -> (r: Option<&Block>)
        ensures
            match r {
                Some(b) => self.blocks@.contains_key(*c) && self.blocks@[*c] == b@,
                None => !self.blocks@.contains_key(*c),
            },
    {
        self.blocks.get(c)
    }

    /// Every coordinate that holds a block, each once.
    pub fn coordinates(&self) -> (r: Vec<Coordinate>)
        ensures
            r@.to_set() == self.blocks@.dom(),
            r@.no_duplicates(),
    {
        self.blocks.coordinates()
    }
}

/// Whether cell `k` is placed: its index lies inside the palette and names a
/// block that is not ignored.
pub open spec fn is_placed(palette: Seq<BlockModel>, cells: Seq<nat>, k: int) -> bool {
    cells[k] < palette.len() && !is_ignored(palette[cells[k] as int].id)
}

/// Placing cells adds exactly the coordinates of the placed cells: a cell
/// whose index falls outside the palette, or whose block is ignored, adds no
/// entry, and the cells after it are placed all the same.
pub proof fn lemma_placed_coordinates(
    m: Map<Coordinate, BlockModel>,
    palette: Seq<BlockModel>,
    cells: Seq<nat>,
    y: i8,
    n: nat,
)
    requires
        n <= cells.len(),
    ensures
        forall|c: Coordinate|
            #[trigger] place_cells(m, palette, cells, y, n).contains_key(c) <==> (m.contains_key(c)
                || exists|k: int|
                0 <= k < n && is_placed(palette, cells, k) && cell_coordinate(k as nat, y) == c),
    decreases n,
{
    if n > 0 {
        lemma_placed_coordinates(m, palette, cells, y, (n - 1) as nat);
        let prev = place_cells(m, palette, cells, y, (n - 1) as nat);
        let last = (n - 1) as int;
        assert forall|c: Coordinate|
            #[trigger] place_cells(m, palette, cells, y, n).contains_key(c) <==> (m.contains_key(c)
                || exists|k: int|
                0 <= k < n && is_placed(palette, cells, k) && cell_coordinate(k as nat, y)
                    == c) by {
            if prev.contains_key(c) && !m.contains_key(c) {
                let k = choose|k: int|
                    0 <= k < n - 1 && is_placed(palette, cells, k) && cell_coordinate(k as nat, y)
                        == c;
                assert(0 <= k < n);
            }
            if is_placed(palette, cells, last) && cell_coordinate(last as nat, y) == c {
                assert(place_cells(m, palette, cells, y, n).contains_key(c));
            }
            if exists|k: int|
                0 <= k < n && is_placed(palette, cells, k) && cell_coordinate(k as nat, y) == c {
                let k = choose|k: int|
                    0 <= k < n && is_placed(palette, cells, k) && cell_coordinate(k as nat, y)
                        == c;
                if k < last {
                    assert(prev.contains_key(c));
                }
            }
        }
    }
}

/// Placing cells never brings in an ignored block.
pub proof fn lemma_placing_keeps_ignored_out(
    m: Map<Coordinate, BlockModel>,
    palette: Seq<BlockModel>,
    cells: Seq<nat>,
    y: i8,
    n: nat,
)
    requires
        forall|c: Coordinate| #[trigger] m.contains_key(c) ==> !is_ignored(m[c].id),
    ensures
        forall|c: Coordinate|
            #[trigger] place_cells(m, palette, cells, y, n).contains_key(c) ==> !is_ignored(
                place_cells(m, palette, cells, y, n)[c].id,
            ),
    decreases n,
{
    if n > 0 && n <= cells.len() {
        lemma_placing_keeps_ignored_out(m, palette, cells, y, (n - 1) as nat);
        let prev = place_cells(m, palette, cells, y, (n - 1) as nat);
        let cur = place_cells(m, palette, cells, y, n);
        assert forall|c: Coordinate| #[trigger] cur.contains_key(c) implies !is_ignored(cur[c].id) by {
            if cur[c] != prev[c] || !prev.contains_key(c) {
                assert(is_placed(palette, cells, n - 1));
            }
        }
    }
}

proof fn lemma_sections_keep_ignored_out(sections: Seq<Tag>, n: nat)
    ensures
        sections_from(sections, n) matches Some(m) ==> forall|c: Coordinate|
            #[trigger] m.contains_key(c) ==> !is_ignored(m[c].id),
    decreases n,
{
    if n > 0 && n <= sections.len() {
        lemma_sections_keep_ignored_out(sections, (n - 1) as nat);
        if let Some(m) = sections_from(sections, (n - 1) as nat) {
            let s = sections[n - 1];
            if let Some(p) = palette_of(s) {
                if let Some(Tag::LongArray(words)) = child(s, "BlockStates"@) {
                    let cells = unpacked(words@, bit_width_of(p.len()));
                    lemma_placing_keeps_ignored_out(m, p, cells, y_index_of(s), cells.len());
                }
            }
        }
    }
}

/// No block whose identifier is ignored appears in a chunk's map, whatever
/// its place in a palette.
pub proof fn lemma_ignored_blocks_absent(level: Option<Tag>)
    ensures
        level_blocks(level) matches Some(m) ==> forall|c: Coordinate|
            #[trigger] m.contains_key(c) ==> !is_ignored(m[c].id),
{
    if let Some(l) = level {
        if let Some(Tag::List(sections)) = child(l, "Sections"@) {
            lemma_sections_keep_ignored_out(sections@, sections@.len());
        }
    }
}

/// The indices held by decoded cells.
pub open spec fn cell_values(cells: Seq<u64>) -> Seq<nat> {
    cells.map_values(|v: u64| v as nat)
}

/// Places decoded cells of a section with Y-index `y_idx` into `blocks`: cell
/// `n` maps its coordinate to `palette[cells[n]]`, unless that index lies
/// outside the palette or names an ignored block, in which case the cell is
/// dropped and the next one is placed.
pub fn place_cells_into(blocks: &mut BlockMap, palette: &Vec<Block>, cells: &Vec<u64>, y_idx: i8)
    ensures
        final(blocks)@ == place_cells(
            old(blocks)@,
            palette_view(palette@),
            cell_values(cells@),
            y_idx,
            cells@.len(),
        ),
{
    let ghost pv = palette_view(palette@);
    let ghost model = cell_values(cells@);
    let mut n: usize = 0;
    while n < cells.len()
        invariant
            n <= cells@.len() == model.len(),
            model == cell_values(cells@),
            pv == palette_view(palette@),
            blocks@ == place_cells(old(blocks)@, pv, model, y_idx, n as nat),
        decreases cells.len() - n,
    {
        let idx = cells[n];
        if idx < palette.len() as u64 {
            let block = &palette[idx as usize];
            if !is_ignored_id(&block.id) {
                let coord = Coordinate {
                    x: (n % 16) as i64,
                    z: ((n / 16) % 16) as i64,
                    y: ((n / 256) % 16) as i64 + (y_idx as i64) * 16,
                };
                blocks.insert(coord, block.duplicate());
            }
        }
        n += 1;
    }
}

proof fn lemma_cell_coordinates_distinct(j: nat, k: nat, y: i8)
    requires
        j < k < 4096,
    ensures
        cell_coordinate(j, y) != cell_coordinate(k, y),
{
    if cell_coordinate(j, y) == cell_coordinate(k, y) {
        assert(j % 16 == k % 16);
        assert((j / 16) % 16 == (k / 16) % 16);
        assert((j / 256) % 16 == (k / 256) % 16);
        assert(j / 256 < 16 && k / 256 < 16);
        assert(j / 256 == k / 256);
        vstd::arithmetic::div_mod::lemma_fundamental_div_mod(j as int, 16);
        vstd::arithmetic::div_mod::lemma_fundamental_div_mod(k as int, 16);
        vstd::arithmetic::div_mod::lemma_fundamental_div_mod((j / 16) as int, 16);
        vstd::arithmetic::div_mod::lemma_fundamental_div_mod((k / 16) as int, 16);
        vstd::arithmetic::div_mod::lemma_div_denominator(j as int, 16, 16);
        vstd::arithmetic::div_mod::lemma_div_denominator(k as int, 16, 16);
        assert(false);
    }
}

/// Among the first 4096 cells, every placed cell maps its own coordinate to
/// its palette entry.
pub proof fn lemma_placed_cell_values(
    m: Map<Coordinate, BlockModel>,
    palette: Seq<BlockModel>,
    cells: Seq<nat>,
    y: i8,
    n: nat,
)
    requires
        n <= cells.len(),
        n <= 4096,
    ensures
        forall|k: int|
            0 <= k < n && is_placed(palette, cells, k) ==> {
                let c = #[trigger] cell_coordinate(k as nat, y);
                &&& place_cells(m, palette, cells, y, n).contains_key(c)
                &&& place_cells(m, palette, cells, y, n)[c] == palette[cells[k] as int]
            },
    decreases n,
{
    if n > 0 {
        lemma_placed_cell_values(m, palette, cells, y, (n - 1) as nat);
        assert forall|k: int| 0 <= k < n - 1 implies #[trigger] cell_coordinate(k as nat, y)
            != cell_coordinate((n - 1) as nat, y) by {
            lemma_cell_coordinates_distinct(k as nat, (n - 1) as nat, y);
        }
    }
}

/// Packing indices into a section's array and decoding the section gives
/// every cell its block back: when the words hold `idx` at the section's bit
/// width and the array has at most 4096 fields, cell `k` maps its coordinate
/// to `palette[idx[k]]`, a field that straddles two words included.
pub proof fn lemma_section_round_trip(
    m: Map<Coordinate, BlockModel>,
    palette: Seq<BlockModel>,
    section: Tag,
    words: Seq<i64>,
    idx: Seq<nat>,
    y: i8,
)
    requires
        child(section, "BlockStates"@) matches Some(Tag::LongArray(ws)) && ws@ == words,
        palette.len() <= usize::MAX,
        words.len() >= 2,
        unpacked(words, bit_width_of(palette.len())).len() <= 4096,
        idx.len() * bit_width_of(palette.len()) <= 64 * words.len(),
        forall|k: int| 0 <= k < idx.len() ==> #[trigger] idx[k] < palette.len(),
        forall|j: int| 0 <= j < palette.len() ==> !is_ignored(#[trigger] palette[j].id),
        holds_cells(words, bit_width_of(palette.len()), idx),
    ensures
        forall|k: int|
            0 <= k < idx.len() ==> {
                let c = #[trigger] cell_coordinate(k as nat, y);
                &&& section_cells(m, palette, y, section).contains_key(c)
                &&& section_cells(m, palette, y, section)[c] == palette[idx[k] as int]
            },
{
    let p = palette.len();
    let bw = bit_width_of(p);
    let cells = unpacked(words, bw);
    lemma_bit_width_is_ceiling_log2(p);
    vstd::arithmetic::power2::lemma2_to64();
    crate::packed::lemma_ceil_log2_at_most(p, 64);
    assert forall|k: int| 0 <= k < idx.len() implies #[trigger] idx[k] < pow2(bw) by {}
    lemma_unpack_round_trip(words, bw, idx);
    lemma_placed_cell_values(m, palette, cells, y, cells.len());
    assert forall|k: int| 0 <= k < idx.len() implies {
        let c = #[trigger] cell_coordinate(k as nat, y);
        &&& section_cells(m, palette, y, section).contains_key(c)
        &&& section_cells(m, palette, y, section)[c] == palette[idx[k] as int]
    } by {
        assert(cells.subrange(0, idx.len() as int)[k] == idx[k]);
        assert(cells[k] == idx[k]);
        assert(is_placed(palette, cells, k));
    }
}

} // verus!
