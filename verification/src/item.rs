use vstd::prelude::*;

verus! {

/// Number of catalog skins that exist for every category. The spawner
/// draws from all of them.
pub const CATALOG_VARIANTS: usize = 25;

/// The most items that one session can create: identities are 32 bits wide.
pub const ITEM_LIMIT: u32 = 0xffff_ffff;

/// Nanoseconds in one second.
pub const NANOS_PER_SEC: u64 = 1_000_000_000;

/// The four categories of the catalog. A category also names the stack that
/// is meant for it.
#[derive(Clone, Copy, PartialEq, Eq, Debug, Structural)]
pub enum ItemType {
    Book,
    Movie,
    Game,
    Comic,
}

/// Selects one of the catalog skins of an item's category.
#[derive(Clone, Copy, PartialEq, Eq, Debug, Structural)]
pub struct ItemHandleIndex(pub usize);

/// Identity of an item for the whole session; never reused.
#[derive(Clone, Copy, PartialEq, Eq, Debug, Structural)]
pub struct ItemId(pub u32);

/// One item. It is owned by exactly one container at a time.
#[derive(Clone, Copy, PartialEq, Eq, Debug, Structural)]
pub struct Item {
    pub id: ItemId,
    pub item_type: ItemType,
    pub index: ItemHandleIndex,
    /// Set while the item is held by the pointer; only meaningful for an item
    /// outside every container.
    pub dragging: bool,
}

impl ItemType {
    /// Width and height of an item of this category when it lies on a stack.
    pub open spec fn spec_stack_dimensions(self) -> (u64, u64) {
        match self {
            ItemType::Book => (65, 17),
            ItemType::Movie => (65, 10),
            ItemType::Game => (65, 12),
            ItemType::Comic => (43, 8),
        }
    }

    /// Height that one item of this category adds to a stack.
    pub open spec fn spec_height(self) -> nat {
        self.spec_stack_dimensions().1 as nat
    }

    /// Time it takes to consume an item of this category, in nanoseconds.
    pub open spec fn spec_consume_time(self) -> u64 {
        match self {
            ItemType::Book => 5_000_000_000,
            ItemType::Movie => 2_000_000_000,
            ItemType::Game => 8_000_000_000,
            ItemType::Comic => 1_000_000_000,
        }
    }

    /// Text shown under the stack of this category.
    pub open spec fn spec_label(self) -> Seq<char> {
        match self {
            ItemType::Book => "Books"@,
            ItemType::Movie => "Movies"@,
            ItemType::Game => "Games"@,
            ItemType::Comic => "Comics"@,
        }
    }

    /// Position of this category's stack among the four stacks.
    pub open spec fn spec_position(self) -> int {
        match self {
            ItemType::Book => 0,
            ItemType::Movie => 1,
            ItemType::Game => 2,
            ItemType::Comic => 3,
        }
    }

    /// The category whose stack stands at `position`.
    pub open spec fn spec_at(position: int) -> ItemType {
        if position == 0 {
            ItemType::Book
        } else if position == 1 {
            ItemType::Movie
        } else if position == 2 {
            ItemType::Game
        } else {
            ItemType::Comic
        }
    }

    /// The category that a category draw in `0..=4` stands for. Movie takes
    /// both 3 and 4.
    pub open spec fn spec_from_draw(category: u32) -> ItemType {
        if category == 0 {
            ItemType::Book
        } else if category == 1 {
            ItemType::Comic
        } else if category == 2 {
            ItemType::Game
        } else {
            ItemType::Movie
        }
    }

    pub fn stack_dimensions(&self) -> (dimensions: (u64, u64))
        ensures
            dimensions == self.spec_stack_dimensions(),
    {
        match self {
            ItemType::Book => (65, 17),
            ItemType::Movie => (65, 10),
            ItemType::Game => (65, 12),
            ItemType::Comic => (43, 8),
        }
    }

    pub fn label(&self) -> (text: &'static str)
        ensures
            text@ == self.spec_label(),
    {
        match self {
            ItemType::Book => "Books",
            ItemType::Movie => "Movies",
            ItemType::Game => "Games",
            ItemType::Comic => "Comics",
        }
    }

    pub fn consume_time(&self) -> (nanos: u64)
        ensures
            nanos == self.spec_consume_time(),
            nanos >= NANOS_PER_SEC,
    {
        match self {
            ItemType::Book => 5 * NANOS_PER_SEC,
            ItemType::Movie => 2 * NANOS_PER_SEC,
            ItemType::Game => 8 * NANOS_PER_SEC,
            ItemType::Comic => NANOS_PER_SEC,
        }
    }

    pub fn position(&self) -> (position: usize)
        ensures
            position == self.spec_position(),
            position < 4,
            ItemType::spec_at(position as int) == *self,
    {
        match self {
            ItemType::Book => 0,
            ItemType::Movie => 1,
            ItemType::Game => 2,
            ItemType::Comic => 3,
        }
    }

    pub fn at(position: usize) -> (item_type: ItemType)
        requires
            position < 4,
        ensures
            item_type == ItemType::spec_at(position as int),
            item_type.spec_position() == position,
    {
        if position == 0 {
            ItemType::Book
        } else if position == 1 {
            ItemType::Movie
        } else if position == 2 {
            ItemType::Game
        } else {
            ItemType::Comic
        }
    }

    pub fn from_draw(category: u32) -> (item_type: ItemType)
        requires
            category <= 4,
        ensures
            item_type == ItemType::spec_from_draw(category),
    {
        if category == 0 {
            ItemType::Book
        } else if category == 1 {
            ItemType::Comic
        } else if category == 2 {
            ItemType::Game
        } else {
            ItemType::Movie
        }
    }
}

} // verus!
