//! Block kinds and the block dictionary.
//!
//! A block is stored in a section as a small unsigned integer; index 0 is the
//! default ("air") kind. The dictionary maps each kind to its capability
//! flags; the storage layer never interprets the integer itself.

use vstd::prelude::*;

verus! {

/// Every kind of block the engine knows.
#[derive(Clone, Copy, Debug, PartialEq, Eq, Structural)]
pub enum Block {
    Air,
    Grass,
    Dirt,
    Stone,
    Bedrock,
    Missing,
}

/// The storage identifier of a block kind.
pub open spec fn spec_block_id(b: Block) -> u64 {
    match b {
        Block::Air => 0,
        Block::Grass => 1,
        Block::Dirt => 2,
        Block::Stone => 3,
        Block::Bedrock => 4,
        Block::Missing => 5,
    }
}

/// The block kind stored under an identifier; identifiers past the table map
/// to `Missing`.
pub open spec fn spec_block_of_id(id: u64) -> Block {
    if id == 0 {
        Block::Air
    } else if id == 1 {
        Block::Grass
    } else if id == 2 {
        Block::Dirt
    } else if id == 3 {
        Block::Stone
    } else if id == 4 {
        Block::Bedrock
    } else {
        Block::Missing
    }
}

/// The block kind named by a string, used to turn configuration inputs into
/// block kinds; anything unrecognised maps to `Missing`.
pub open spec fn spec_block_from_string(s: Seq<char>) -> Block {
    if s == "air"@ {
        Block::Air
    } else if s == "grass"@ {
        Block::Grass
    } else if s == "dirt"@ {
        Block::Dirt
    } else if s == "stone"@ {
        Block::Stone
    } else if s == "bedrock"@ {
        Block::Bedrock
    } else {
        Block::Missing
    }
}

/// Compares two string slices character by character.
fn str_eq(a: &str, b: &str) -> (r: bool)
    ensures
        r == (a@ == b@),
{
    let a_len = a.unicode_len();
    let b_len = b.unicode_len();
    if a_len != b_len {
        assert(a@ != b@) by {
            assert(a@.len() != b@.len());
        }
        return false;
    }
    let mut i: usize = 0;
    while i < a_len
        invariant
            i <= a_len,
            a_len == a@.len(),
            a_len == b@.len(),
            forall|j: int| 0 <= j < i ==> a@[j] == b@[j],
        decreases a_len - i,
    {
        if a.get_char(i) != b.get_char(i) {
            assert(a@ != b@) by {
                assert(a@[i as int] != b@[i as int]);
            }
            return false;
        }
        i += 1;
    }
    proof {
        assert(a@ =~= b@);
    }
    true
}

impl Block {
    /// Takes an input string and returns its corresponding block kind; an
    /// unrecognised name maps to `Missing`.
    pub fn from_string(s: &str) -> (r: Self)
        ensures
            r == spec_block_from_string(s@),
    {
        if str_eq(s, "air") {
            Block::Air
        } else if str_eq(s, "grass") {
            Block::Grass
        } else if str_eq(s, "dirt") {
            Block::Dirt
        } else if str_eq(s, "stone") {
            Block::Stone
        } else if str_eq(s, "bedrock") {
            Block::Bedrock
        } else {
            Block::Missing
        }
    }

    /// The integer under which this block kind is stored in a section.
    pub fn to_id(self) -> (r: u64)
        ensures
            r == spec_block_id(self),
    {
        match self {
            Block::Air => 0,
            Block::Grass => 1,
            Block::Dirt => 2,
            Block::Stone => 3,
            Block::Bedrock => 4,
            Block::Missing => 5,
        }
    }

    /// The block kind stored under an integer identifier; identifiers past
    /// the table map to `Missing`.
    pub fn from_id(id: u64) -> (r: Self)
        ensures
            r == spec_block_of_id(id),
    {
        if id == 0 {
            Block::Air
        } else if id == 1 {
            Block::Grass
        } else if id == 2 {
            Block::Dirt
        } else if id == 3 {
            Block::Stone
        } else if id == 4 {
            Block::Bedrock
        } else {
            Block::Missing
        }
    }

    /// Returns the dictionary entry for this block kind.
    ///
    /// A `Missing` block falls back to the air entry, so readers of the
    /// dictionary never see flags for an unknown kind.
    pub fn definition(&self) -> (r: BlockDefinition)
        ensures
            r == spec_definition(*self),
    {
        match self {
            Block::Air => BlockDefinition::new(Block::Air, false, false, false, false, true, true),
            Block::Grass => BlockDefinition::new(
                Block::Grass,
                true,
                true,
                true,
                true,
                false,
                false,
            ),
            Block::Dirt => BlockDefinition::new(Block::Dirt, true, true, true, true, false, false),
            Block::Stone => BlockDefinition::new(
                Block::Stone,
                true,
                true,
                true,
                true,
                false,
                false,
            ),
            Block::Bedrock => BlockDefinition::new(
                Block::Bedrock,
                true,
                true,
                false,
                true,
                false,
                false,
            ),
            Block::Missing => BlockDefinition::new(
                Block::Air,
                false,
                false,
                false,
                false,
                true,
                true,
            ),
        }
    }
}

/// Identifiers round-trip: converting a block kind to its identifier and
/// back yields the same kind.
pub proof fn lemma_block_id_round_trip(b: Block)
    ensures
        spec_block_of_id(spec_block_id(b)) == b,
{
}

/// One entry of the block dictionary: the capability flags of one block
/// kind.
#[derive(Clone, Copy, Debug, PartialEq, Eq, Structural)]
pub struct BlockDefinition {
    pub name: Block,
    pub hoverable: bool,
    pub visible: bool,
    pub breakable: bool,
    pub collidable: bool,
    pub replaceable: bool,
    pub transparent: bool,
}

/// The dictionary entry of each block kind. Air is invisible, transparent,
/// non-collidable and replaceable; grass, dirt and stone are ordinary solid
/// blocks; bedrock is solid but unbreakable; `Missing` reads as air.
pub open spec fn spec_definition(b: Block) -> BlockDefinition {
    match b {
        Block::Air => BlockDefinition {
            name: Block::Air,
            hoverable: false,
            visible: false,
            breakable: false,
            collidable: false,
            replaceable: true,
            transparent: true,
        },
        Block::Grass => BlockDefinition {
            name: Block::Grass,
            hoverable: true,
            visible: true,
            breakable: true,
            collidable: true,
            replaceable: false,
            transparent: false,
        },
        Block::Dirt => BlockDefinition {
            name: Block::Dirt,
            hoverable: true,
            visible: true,
            breakable: true,
            collidable: true,
            replaceable: false,
            transparent: false,
        },
        Block::Stone => BlockDefinition {
            name: Block::Stone,
            hoverable: true,
            visible: true,
            breakable: true,
            collidable: true,
            replaceable: false,
            transparent: false,
        },
        Block::Bedrock => BlockDefinition {
            name: Block::Bedrock,
            hoverable: true,
            visible: true,
            breakable: false,
            collidable: true,
            replaceable: false,
            transparent: false,
        },
        Block::Missing => BlockDefinition {
            name: Block::Air,
            hoverable: false,
            visible: false,
            breakable: false,
            collidable: false,
            replaceable: true,
            transparent: true,
        },
    }
}

impl BlockDefinition {
    /// Creates a dictionary entry from all of its capability flags.
    pub fn new(
        name: Block,
        is_hoverable: bool,
        is_visible: bool,
        is_breakable: bool,
        is_collidable: bool,
        is_replaceable: bool,
        is_transparent: bool,
    ) -> (r: Self)
        ensures
            r.name == name,
            r.hoverable == is_hoverable,
            r.visible == is_visible,
            r.breakable == is_breakable,
            r.collidable == is_collidable,
            r.replaceable == is_replaceable,
            r.transparent == is_transparent,
    {
        BlockDefinition {
            name,
            hoverable: is_hoverable,
            visible: is_visible,
            breakable: is_breakable,
            collidable: is_collidable,
            replaceable: is_replaceable,
            transparent: is_transparent,
        }
    }

    /// Returns the block kind of this entry.
    pub fn get_name(&self) -> (r: Block)
        ensures
            r == self.name,
    {
        self.name
    }

    /// Checks if this block can be highlighted by pointing at it.
    pub fn is_hoverable(&self) -> (r: bool)
        ensures
            r == self.hoverable,
    {
        self.hoverable
    }

    /// Checks if this block is visible in the game world.
    pub fn is_visible(&self) -> (r: bool)
        ensures
            r == self.visible,
    {
        self.visible
    }

    /// Checks if this block can be destroyed.
    pub fn is_breakable(&self) -> (r: bool)
        ensures
            r == self.breakable,
    {
        self.breakable
    }

    /// Checks if this block prevents entities from passing through it.
    pub fn is_collidable(&self) -> (r: bool)
        ensures
            r == self.collidable,
    {
        self.collidable
    }

    /// Checks if this block can be replaced by placing another block over
    /// it.
    pub fn is_replaceable(&self) -> (r: bool)
        ensures
            r == self.replaceable,
    {
        self.replaceable
    }

    /// Checks if this block lets the faces behind it show through.
    pub fn is_transparent(&self) -> (r: bool)
        ensures
            r == self.transparent,
    {
        self.transparent
    }
}

} // verus!
