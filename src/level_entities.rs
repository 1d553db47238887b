//! Entities that occupy grid cells and can be translated as a whole.
use crate::grid::{can_add, cell_add, Cell, EntityType};
use vstd::prelude::*;

verus! {

/// The cells of `ps`, each moved by `offset`.
pub open spec fn shifted(ps: Seq<Cell>, offset: Cell) -> Seq<Cell> {
    ps.map_values(|p: Cell| cell_add(p, offset))
}

/// Every cell of `ps` can be moved by `offset` without overflow.
pub open spec fn can_shift(ps: Seq<Cell>, offset: Cell) -> bool {
    forall|i: int| 0 <= i < ps.len() ==> #[trigger] can_add(ps[i], offset)
}

/// An entity whose occupied cells can be listed, translated and overwritten.
pub trait Movable {
    /// The cells the entity occupies, in a fixed order.
    spec fn cells(&self) -> Seq<Cell>;

    /// What moving the entity keeps besides its kind: the direction of each segment of a
    /// snake; nothing for an entity of one cell.
    spec fn directions(&self) -> Seq<Cell>;

    /// The kind of the entity.
    spec fn kind(&self) -> EntityType;

    fn positions(&self) -> (r: Vec<Cell>)
        ensures
            r@ == self.cells(),
    ;

    fn translate(&mut self, offset: Cell)
        requires
            can_shift(old(self).cells(), offset),
        ensures
            final(self).cells() == shifted(old(self).cells(), offset),
            final(self).directions() == old(self).directions(),
            final(self).kind() == old(self).kind(),
    ;

    fn set_positions(&mut self, positions: &[Cell])
        requires
            positions@.len() == old(self).cells().len(),
        ensures
            final(self).cells() == positions@,
            final(self).directions() == old(self).directions(),
            final(self).kind() == old(self).kind(),
    ;

    fn entity_type(&self) -> (r: EntityType)
        ensures
            r == self.kind(),
    ;
}

/// An entity of the level that stands on a single cell (a box, a food, a wall...).
#[derive(Clone, Copy, Debug, PartialEq, Eq, Structural)]
pub struct GridEntity {
    pub position: Cell,
    pub entity_type: EntityType,
}

impl GridEntity {
    pub fn new(position: Cell, entity_type: EntityType) -> (r: GridEntity)
        ensures
            r == (GridEntity { position, entity_type }),
    {
        GridEntity { position, entity_type }
    }
}

impl Movable for GridEntity {
    open spec fn cells(&self) -> Seq<Cell> {
        seq![self.position]
    }

    open spec fn directions(&self) -> Seq<Cell> {
        Seq::empty()
    }

    open spec fn kind(&self) -> EntityType {
        self.entity_type
    }

    fn positions(&self) -> (r: Vec<Cell>) {
        let r = vec![self.position];
        proof {
            assert(r@ =~= seq![self.position]);
        }
        r
    }

    fn translate(&mut self, offset: Cell) {
        assert(can_add(old(self).cells()[0], offset));
        self.position = self.position.add(offset);
        assert(final(self).cells() =~= shifted(old(self).cells(), offset));
    }

    fn set_positions(&mut self, positions: &[Cell]) {
        self.position = positions[0];
        assert(final(self).cells() =~= positions@);
    }

    fn entity_type(&self) -> EntityType {
        self.entity_type
    }
}

} // verus!
