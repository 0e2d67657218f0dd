use vstd::prelude::*;

verus! {

#[derive(Debug, Clone, Copy, PartialEq, Eq, Structural)]
pub enum Direction {
    N,
    NE,
    E,
    SE,
    S,
    SW,
    W,
    NW,
}

impl Direction {
    /// The corners, in the order a slot lists them.
    pub fn diagonals() -> (r: [Self; 4])
        ensures
            r@ == seq![Direction::SW, Direction::SE, Direction::NE, Direction::NW],
    {
        let r = [Direction::SW, Direction::SE, Direction::NE, Direction::NW];
        assert(r@ =~= seq![Direction::SW, Direction::SE, Direction::NE, Direction::NW]);
        r
    }

    /// The sides, in the order a slot lists them.
    pub fn cardinal() -> (r: [Self; 4])
        ensures
            r@ == seq![Direction::N, Direction::W, Direction::S, Direction::E],
    {
        let r = [Direction::N, Direction::W, Direction::S, Direction::E];
        assert(r@ =~= seq![Direction::N, Direction::W, Direction::S, Direction::E]);
        r
    }
}

/// A side of a slot.
pub struct Edge {
    pub direction: Direction,
    pub edge: Option<String>,
    pub exit: u32,
    pub virtual_exit: u32,
}

/// A corner of a slot.
pub struct Corner {
    pub direction: Direction,
    pub ground: Option<String>,
    pub height: i32,
}

/// A "k" slot: a sized tile with its sides and corners.
pub struct SlotK {
    pub height: u32,
    pub width: u32,
    pub edges: [Edge; 4],
    pub corners: [Corner; 4],
    pub slot_tag: Option<String>,
    pub origin: Direction,
}

/// A cell of a room's grid.
pub enum Slot {
    K(SlotK),
    N,
    F { fill: Option<String> },
    S,
    O,
}

impl Default for Slot {
    fn default() -> (r: Self)
        ensures
            r is N,
    {
        Slot::N
    }
}

pub struct DoodadConnection {
    pub from: u32,
    pub to: u32,
    pub tag: String,
}

pub struct Zone {
    pub name: String,
    pub x_min: i32,
    pub y_min: i32,
    pub x_max: i32,
    pub y_max: i32,
    pub string1: Option<String>,
    pub env_file: Option<String>,
    pub uint1: Option<u32>,
}

pub struct Thingy {
    pub et_file: Option<String>,
    pub int: i32,
    pub bool1: Option<bool>,
    pub bool2: Option<bool>,
    pub bool3: Option<bool>,
}

pub struct Dimension {
    pub side_length: u32,
    pub uint1: Option<u32>,
}

impl Default for Dimension {
    fn default() -> (r: Self)
        ensures
            r.side_length == 0 && r.uint1 is None,
    {
        Dimension { side_length: 0, uint1: None }
    }
}

} // verus!
