//! Grid cells, entity handles and the occupant records stored in the level index.
use vstd::prelude::*;

verus! {

/// One discrete point of the integer 3D grid.
#[derive(Clone, Copy, Debug, PartialEq, Eq, Structural, Hash)]
pub struct Cell {
    pub x: i32,
    pub y: i32,
    pub z: i32,
}

/// True when the componentwise sum of two cells fits in `i32`.
pub open spec fn can_add(a: Cell, b: Cell) -> bool {
    i32::MIN <= a.x + b.x <= i32::MAX && i32::MIN <= a.y + b.y <= i32::MAX && i32::MIN <= a.z
        + b.z <= i32::MAX
}

/// True when the componentwise difference of two cells fits in `i32`.
pub open spec fn can_sub(a: Cell, b: Cell) -> bool {
    i32::MIN <= a.x - b.x <= i32::MAX && i32::MIN <= a.y - b.y <= i32::MAX && i32::MIN <= a.z
        - b.z <= i32::MAX
}

/// The componentwise sum of two cells.
pub open spec fn cell_add(a: Cell, b: Cell) -> Cell {
    Cell { x: (a.x + b.x) as i32, y: (a.y + b.y) as i32, z: (a.z + b.z) as i32 }
}

/// The componentwise difference of two cells.
pub open spec fn cell_sub(a: Cell, b: Cell) -> Cell {
    Cell { x: (a.x - b.x) as i32, y: (a.y - b.y) as i32, z: (a.z - b.z) as i32 }
}

/// One of the six axis-aligned unit vectors.
pub open spec fn is_direction(d: Cell) -> bool {
    (d.x == 1 || d.x == -1) && d.y == 0 && d.z == 0 || d.x == 0 && (d.y == 1 || d.y == -1) && d.z
        == 0 || d.x == 0 && d.y == 0 && (d.z == 1 || d.z == -1)
}

impl Cell {
    pub fn new(x: i32, y: i32, z: i32) -> (r: Cell)
        ensures
            r == (Cell { x, y, z }),
    {
        Cell { x, y, z }
    }

    /// The unit vector pointing up (+Y).
    pub fn up() -> (r: Cell)
        ensures
            r == (Cell { x: 0, y: 1, z: 0 }),
    {
        Cell { x: 0, y: 1, z: 0 }
    }

    /// The unit vector pointing down (-Y).
    pub fn down() -> (r: Cell)
        ensures
            r == (Cell { x: 0, y: -1i32, z: 0 }),
    {
        Cell { x: 0, y: -1, z: 0 }
    }

    pub fn add(self, o: Cell) -> (r: Cell)
        requires
            can_add(self, o),
        ensures
            r == cell_add(self, o),
    {
        Cell { x: self.x + o.x, y: self.y + o.y, z: self.z + o.z }
    }

    pub fn sub(self, o: Cell) -> (r: Cell)
        requires
            can_sub(self, o),
        ensures
            r == cell_sub(self, o),
    {
        Cell { x: self.x - o.x, y: self.y - o.y, z: self.z - o.z }
    }

    /// The sum, when it fits in `i32`.
    pub fn checked_add(self, o: Cell) -> (r: Option<Cell>)
        ensures
            r == (if can_add(self, o) {
                Some(cell_add(self, o))
            } else {
                None
            }),
    {
        let x = self.x as i64 + o.x as i64;
        let y = self.y as i64 + o.y as i64;
        let z = self.z as i64 + o.z as i64;
        if i32::MIN as i64 <= x && x <= i32::MAX as i64 && i32::MIN as i64 <= y && y <= i32::MAX as i64
            && i32::MIN as i64 <= z && z <= i32::MAX as i64 {
            Some(Cell { x: x as i32, y: y as i32, z: z as i32 })
        } else {
            None
        }
    }

    /// The difference, when it fits in `i32`.
    pub fn checked_sub(self, o: Cell) -> (r: Option<Cell>)
        ensures
            r == (if can_sub(self, o) {
                Some(cell_sub(self, o))
            } else {
                None
            }),
    {
        let x = self.x as i64 - o.x as i64;
        let y = self.y as i64 - o.y as i64;
        let z = self.z as i64 - o.z as i64;
        if i32::MIN as i64 <= x && x <= i32::MAX as i64 && i32::MIN as i64 <= y && y <= i32::MAX as i64
            && i32::MIN as i64 <= z && z <= i32::MAX as i64 {
            Some(Cell { x: x as i32, y: y as i32, z: z as i32 })
        } else {
            None
        }
    }

    /// The opposite vector.
    pub fn neg(self) -> (r: Cell)
        requires
            self.x > i32::MIN && self.y > i32::MIN && self.z > i32::MIN,
        ensures
            r == (Cell { x: -self.x as i32, y: -self.y as i32, z: -self.z as i32 }),
    {
        Cell { x: -self.x, y: -self.y, z: -self.z }
    }

    pub fn is_direction(self) -> (r: bool)
        ensures
            r == is_direction(self),
    {
        (self.x == 1 || self.x == -1) && self.y == 0 && self.z == 0 || self.x == 0 && (self.y == 1
            || self.y == -1) && self.z == 0 || self.x == 0 && self.y == 0 && (self.z == 1 || self.z
            == -1)
    }
}

/// Handle of an entity of the level, as an opaque number.
#[derive(Clone, Copy, Debug, PartialEq, Eq, Structural, Hash)]
pub struct Entity {
    pub id: u64,
}

impl Entity {
    pub fn new(id: u64) -> (r: Entity)
        ensures
            r.id == id,
    {
        Entity { id }
    }
}

/// The kinds of entity that can occupy a cell.
#[derive(Clone, Copy, Debug, PartialEq, Eq, Structural, Hash)]
pub enum EntityType {
    Food,
    Spike,
    Wall,
    Box,
    Trigger,
    Snake,
    Goal,
}

/// Entities that can be translated as a whole: snakes and boxes.
pub open spec fn movable_kind(t: EntityType) -> bool {
    t == EntityType::Snake || t == EntityType::Box
}

/// Entities that do not block movement into their cell: goals and triggers.
pub open spec fn traversable_kind(t: EntityType) -> bool {
    t == EntityType::Goal || t == EntityType::Trigger
}

impl EntityType {
    pub fn is_movable(&self) -> (r: bool)
        ensures
            r == movable_kind(*self),
    {
        *self == EntityType::Snake || *self == EntityType::Box
    }

    pub fn is_traversable(&self) -> (r: bool)
        ensures
            r == traversable_kind(*self),
    {
        *self == EntityType::Goal || *self == EntityType::Trigger
    }
}

/// The occupant recorded for a cell: which entity, and of what kind.
#[derive(Clone, Copy, Debug, PartialEq, Eq, Structural, Hash)]
pub struct LevelGridEntity {
    pub entity: Entity,
    pub entity_type: EntityType,
}

impl LevelGridEntity {
    pub fn new(entity: Entity, entity_type: EntityType) -> (r: LevelGridEntity)
        ensures
            r == (LevelGridEntity { entity, entity_type }),
    {
        LevelGridEntity { entity, entity_type }
    }

    pub fn is_movable(&self) -> (r: bool)
        ensures
            r == movable_kind(self.entity_type),
    {
        self.entity_type.is_movable()
    }

    pub fn is_traversable(&self) -> (r: bool)
        ensures
            r == traversable_kind(self.entity_type),
    {
        self.entity_type.is_traversable()
    }
}

/// One change made to the level index, recorded so that it can be reverted.
#[derive(Clone, Copy, Debug, PartialEq, Eq, Structural)]
pub enum LevelEntityUpdateEvent {
    /// The cell was cleared; it held the given occupant.
    ClearPosition(Cell, LevelGridEntity),
    /// The cell was filled.
    FillPosition(Cell),
}

} // verus!
