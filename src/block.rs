//! Coordinates, blocks, and the hash maps that hold them.

use vstd::prelude::*;

verus! {

/// A voxel position: `x` and `z` local to the chunk in `[0, 16)`, `y` across
/// the whole world height.
#[derive(Clone, Copy, Debug, PartialEq, Eq, Hash, Structural)]
pub struct Coordinate {
    pub y: i64,
    pub x: i64,
    pub z: i64,
}

/// A block as a value: its namespaced identifier and its property mapping.
pub struct BlockModel {
    pub id: Seq<char>,
    pub properties: Map<Seq<char>, Seq<char>>,
}

/// String properties of a block, held in a hashbrown map.
#[verifier::external_body]
#[derive(Debug)]
pub struct PropertyMap {
    map: hashbrown::HashMap<String, String>,
}

/// What a property map holds.
pub uninterp spec fn property_entries(m: PropertyMap) -> Map<Seq<char>, Seq<char>>;

impl PropertyMap {
    /// Relies on hashbrown::HashMap::new: a new map is empty.
    #[verifier::external_body]
    pub(crate) fn new() -> (r: PropertyMap)
        ensures
            (property_entries(r) == Map::<Seq<char>, Seq<char>>::empty()),
    {
        PropertyMap { map: hashbrown::HashMap::new() }
    }

    /// Relies on hashbrown::HashMap::insert: the key maps to the value
    /// afterwards, every other key keeps its value.
    #[verifier::external_body]
    pub(crate) fn insert(&mut self, key: String, value: String)
        ensures
            property_entries(*final(self)) == property_entries(*old(self)).insert(key@, value@),
    {
        self.map.insert(key, value);
    }

    /// Relies on hashbrown::HashMap::get: the value stored under the key, if any.
    #[verifier::external_body]
    pub(crate) fn get(&self, key: &str) -> (r: Option<&String>)
        ensures
            match r {
                Some(v) => property_entries(*self).contains_key(key@) && property_entries(
                    *self,
                )[key@] == v@,
                None => !property_entries(*self).contains_key(key@),
            },
    {
        self.map.get(key)
    }

    /// Relies on hashbrown::HashMap's `eq`: two maps are equal when they hold
    /// the same keys with equal values.
    #[verifier::external_body]
    pub(crate) fn same_entries(&self, other: &PropertyMap) -> (r: bool)
        ensures
            r == (property_entries(*self) == property_entries(*other)),
    {
        self.map == other.map
    }

    /// Relies on hashbrown::HashMap's `clone`: the copy holds the same entries.
    #[verifier::external_body]
    pub(crate) fn duplicate(&self) -> (r: PropertyMap)
        ensures
            property_entries(r) == property_entries(*self),
    {
        PropertyMap { map: self.map.clone() }
    }
}

/// A block: identifier plus properties.
#[derive(Debug)]
pub struct Block {
    pub id: String,
    pub properties: PropertyMap,
}

impl View for Block {
    type V = BlockModel;

    open spec fn view(&self) -> BlockModel {
        BlockModel { id: self.id@, properties: property_entries(self.properties) }
    }
}

impl PartialEq for Block {
    /// Two blocks are equal when their identifiers and property sets match,
    /// whatever order the properties were set in.
    fn eq(&self, other: &Block) -> (r: bool) {
        self.id == other.id && self.properties.same_entries(&other.properties)
    }
}

impl vstd::std_specs::cmp::PartialEqSpecImpl for Block {
    open spec fn obeys_eq_spec() -> bool {
        true
    }

    open spec fn eq_spec(&self, other: &Block) -> bool {
        self@ == other@
    }
}

impl Block {
    /// A block with the given identifier and no properties.
    pub fn named(id: String) -> (r: Block)
        ensures
            r@.id == id@,
            (r@.properties == Map::<Seq<char>, Seq<char>>::empty()),
    {
        Block { id, properties: PropertyMap::new() }
    }

    /// Sets one property of the block.
    pub fn set_property(&mut self, key: String, value: String)
        ensures
            final(self)@.id == old(self)@.id,
            final(self)@.properties == old(self)@.properties.insert(key@, value@),
    {
        self.properties.insert(key, value);
    }

    /// A copy of this block with the same identifier and properties.
    pub fn duplicate(&self) -> (r: Block)
        ensures
            r@ == self@,
    {
        Block { id: self.id.clone(), properties: self.properties.duplicate() }
    }

    /// The value of one property, if the block has it.
    pub fn property(&self, key: &str) -> (r: Option<&String>)
        ensures
            match r {
                Some(v) => self@.properties.contains_key(key@) && self@.properties[key@] == v@,
                None => !self@.properties.contains_key(key@),
            },
    {
        self.properties.get(key)
    }
}

/// Identifiers whose blocks are left out of a chunk's map.
pub open spec fn is_ignored(id: Seq<char>) -> bool {
    id == "minecraft:air"@ || id == "minecraft:cave_air"@
}

/// Whether blocks with this identifier are left out of a chunk's map.
pub fn is_ignored_id(id: &String) -> (r: bool)
    ensures
        r == is_ignored(id@),
{
    let air = "minecraft:air".to_owned();
    let cave_air = "minecraft:cave_air".to_owned();
    *id == air || *id == cave_air
}

/// A chunk's sparse map from coordinate to block, held in a hashbrown map.
#[verifier::external_body]
#[derive(Debug)]
pub struct BlockMap {
    map: hashbrown::HashMap<Coordinate, Block>,
}

/// What a block map holds.
pub uninterp spec fn block_entries(m: BlockMap) -> Map<Coordinate, BlockModel>;

impl View for BlockMap {
    type V = Map<Coordinate, BlockModel>;

    open spec fn view(&self) -> Map<Coordinate, BlockModel> {
        block_entries(*self)
    }
}

impl BlockMap {
    /// A map that holds no block.
    pub fn empty() -> (r: BlockMap)
        ensures
            (r@ == Map::<Coordinate, BlockModel>::empty()),
    {
        BlockMap::new()
    }

    /// The block at a coordinate, if the map holds one there.
    pub fn block_at(&self, c: &Coordinate) -> (r: Option<&Block>)
        ensures
            match r {
                Some(b) => self@.contains_key(*c) && self@[*c] == b@,
                None => !self@.contains_key(*c),
            },
    {
        self.get(c)
    }

    /// Every coordinate that holds a block, each once.
    pub fn all_coordinates(&self) -> (r: Vec<Coordinate>)
        ensures
            r@.to_set() == self@.dom(),
            r@.no_duplicates(),
    {
        self.coordinates()
    }

    /// Relies on hashbrown::HashMap::new: a new map is empty.
    #[verifier::external_body]
    pub(crate) fn new() -> (r: BlockMap)
        ensures
            (block_entries(r) == Map::<Coordinate, BlockModel>::empty()),
    {
        BlockMap { map: hashbrown::HashMap::new() }
    }

    /// Relies on hashbrown::HashMap::insert: the coordinate maps to the block
    /// afterwards, every other coordinate keeps its block.
    #[verifier::external_body]
    pub(crate) fn insert(&mut self, c: Coordinate, b: Block)
        ensures
            block_entries(*final(self)) == block_entries(*old(self)).insert(c, b@),
    {
        self.map.insert(c, b);
    }

    /// Relies on hashbrown::HashMap::get: the block stored at the coordinate, if any.
    #[verifier::external_body]
    pub(crate) fn get(&self, c: &Coordinate) -> (r: Option<&Block>)
        ensures
            match r {
                Some(b) => block_entries(*self).contains_key(*c) && block_entries(*self)[*c] == b@,
                None => !block_entries(*self).contains_key(*c),
            },
    {
        self.map.get(c)
    }

    /// Relies on hashbrown::HashMap::keys: every coordinate of the map once,
    /// in an order that the map does not fix.
    #[verifier::external_body]
    pub(crate) fn coordinates(&self) -> (r: Vec<Coordinate>)
        ensures
            r@.to_set() == block_entries(*self).dom(),
            r@.no_duplicates(),
    {
        self.map.keys().copied().collect()
    }
}

} // verus!
