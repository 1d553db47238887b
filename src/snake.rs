//! Snake geometry: an ordered body of segments, head first.
use crate::grid::{can_add, can_sub, cell_add, cell_sub, Cell, EntityType};
use crate::level_entities::{can_shift, shifted, Movable};
use vstd::prelude::*;

verus! {

/// A body segment: its cell, and the direction it moved in to get there.
pub type SnakeElement = (Cell, Cell);

/// The cells of a sequence of segments.
pub open spec fn element_cells(parts: Seq<SnakeElement>) -> Seq<Cell> {
    parts.map_values(|e: SnakeElement| e.0)
}

/// The segments moved by `offset`, their directions kept.
pub open spec fn shifted_parts(parts: Seq<SnakeElement>, offset: Cell) -> Seq<SnakeElement> {
    parts.map_values(|e: SnakeElement| (cell_add(e.0, offset), e.1))
}

/// The body after one step forward along `direction`: a new head, and the tail dropped.
pub open spec fn moved_forward(parts: Seq<SnakeElement>, direction: Cell) -> Seq<SnakeElement> {
    seq![(cell_add(parts[0].0, direction), direction)] + parts.drop_last()
}

/// The body after growing by one segment behind the tail, in the tail's direction.
pub open spec fn grown(parts: Seq<SnakeElement>) -> Seq<SnakeElement> {
    parts.push((cell_sub(parts.last().0, parts.last().1), parts.last().1))
}

/// True when the body stands vertically: the head is exactly `len - 1` cells above the tail.
pub open spec fn standing(parts: Seq<SnakeElement>) -> bool {
    parts[0].0.y - parts.last().0.y == parts.len() - 1
}

/// A copy of a list of segments.
pub fn copy_parts(parts: &Vec<SnakeElement>) -> (r: Vec<SnakeElement>)
    ensures
        r@ == parts@,
{
    let mut r: Vec<SnakeElement> = Vec::new();
    let mut i: usize = 0;
    while i < parts.len()
        invariant
            i <= parts@.len(),
            r@ =~= parts@.take(i as int),
        decreases parts@.len() - i,
    {
        r.push(parts[i]);
        i += 1;
        assert(r@ =~= parts@.take(i as int));
    }
    assert(r@ =~= parts@);
    r
}

/// A snake: its body segments, head first, and the index that identifies it.
#[derive(Debug)]
pub struct Snake {
    parts: Vec<SnakeElement>,
    index: i32,
}

impl View for Snake {
    type V = Seq<SnakeElement>;

    closed spec fn view(&self) -> Seq<SnakeElement> {
        self.parts@
    }
}

impl Snake {
    /// The index of the snake.
    pub closed spec fn spec_index(&self) -> i32 {
        self.index
    }

    pub fn new(template: &Vec<SnakeElement>, index: i32) -> (r: Snake)
        ensures
            r@ == template@,
            r.spec_index() == index,
    {
        Snake { parts: copy_parts(template), index }
    }

    pub fn from_parts(parts: Vec<SnakeElement>, index: i32) -> (r: Snake)
        ensures
            r@ == parts@,
            r.spec_index() == index,
    {
        Snake { parts, index }
    }

    pub fn parts(&self) -> (r: &Vec<SnakeElement>)
        ensures
            r@ == self@,
    {
        &self.parts
    }

    pub fn get_part(&self, part_index: usize) -> (r: SnakeElement)
        requires
            part_index < self@.len(),
        ensures
            r == self@[part_index as int],
    {
        self.parts[part_index]
    }

    pub fn index(&self) -> (r: i32)
        ensures
            r == self.spec_index(),
    {
        self.index
    }

    pub fn len(&self) -> (r: usize)
        ensures
            r == self@.len(),
    {
        self.parts.len()
    }

    pub fn is_empty(&self) -> (r: bool)
        ensures
            r == (self@.len() == 0),
    {
        self.parts.len() == 0
    }

    pub fn head_position(&self) -> (r: Cell)
        requires
            self@.len() > 0,
        ensures
            r == self@[0].0,
    {
        self.parts[0].0
    }

    pub fn head_direction(&self) -> (r: Cell)
        requires
            self@.len() > 0,
        ensures
            r == self@[0].1,
    {
        self.parts[0].1
    }

    pub fn tail(&self) -> (r: SnakeElement)
        requires
            self@.len() > 0,
        ensures
            r == self@.last(),
    {
        self.parts[self.parts.len() - 1]
    }

    pub fn tail_position(&self) -> (r: Cell)
        requires
            self@.len() > 0,
        ensures
            r == self@.last().0,
    {
        self.parts[self.parts.len() - 1].0
    }

    pub fn tail_direction(&self) -> (r: Cell)
        requires
            self@.len() > 0,
        ensures
            r == self@.last().1,
    {
        self.parts[self.parts.len() - 1].1
    }

    pub fn is_standing(&self) -> (r: bool)
        requires
            self@.len() > 0,
        ensures
            r == standing(self@),
    {
        let len = self.parts.len();
        let head_y = self.parts[0].0.y as i64;
        let tail_y = self.parts[len - 1].0.y as i64;
        let len64 = len as u64;
        if len64 > 0x1_0000_0000u64 {
            false
        } else {
            head_y - tail_y == (len64 - 1) as i64
        }
    }

    pub fn occupies_position(&self, position: Cell) -> (r: bool)
        ensures
            r == element_cells(self@).contains(position),
    {
        let mut i: usize = 0;
        while i < self.parts.len()
            invariant
                i <= self.parts@.len(),
                forall|j: int| 0 <= j < i ==> self.parts@[j].0 != position,
            decreases self.parts@.len() - i,
        {
            if self.parts[i].0 == position {
                assert(element_cells(self@)[i as int] == position);
                return true;
            }
            i += 1;
        }
        assert forall|j: int| 0 <= j < element_cells(self@).len() implies element_cells(
            self@,
        )[j] != position by {
            assert(element_cells(self@)[j] == self.parts@[j].0);
        }
        false
    }

    /// Undoes one step forward: the old tail comes back and the head is dropped.
    pub fn move_back(&mut self, part: &SnakeElement)
        requires
            old(self)@.len() > 0,
        ensures
            final(self)@ == old(self)@.drop_first().push(*part),
            final(self).spec_index() == old(self).spec_index(),
    {
        self.parts.push(*part);
        self.parts.remove(0);
        assert(self.parts@ =~= old(self)@.drop_first().push(*part));
    }

    /// One step forward along `direction`: a new head enters, the tail leaves.
    pub fn move_forward(&mut self, direction: Cell)
        requires
            old(self)@.len() > 0,
            can_add(old(self)@[0].0, direction),
        ensures
            final(self)@ == moved_forward(old(self)@, direction),
            final(self).spec_index() == old(self).spec_index(),
    {
        let head = self.parts[0].0.add(direction);
        self.parts.insert(0, (head, direction));
        self.parts.pop();
        assert(self.parts@ =~= moved_forward(old(self)@, direction));
    }

    /// Adds a segment behind the tail, one step against the tail's direction.
    pub fn grow(&mut self)
        requires
            old(self)@.len() > 0,
            can_sub(old(self)@.last().0, old(self)@.last().1),
        ensures
            final(self)@ == grown(old(self)@),
            final(self).spec_index() == old(self).spec_index(),
    {
        let (tail_position, tail_direction) = self.tail();
        let new_part_position = tail_position.sub(tail_direction);
        self.parts.push((new_part_position, tail_direction));
    }

    /// Drops the last segment.
    pub fn shrink(&mut self)
        requires
            old(self)@.len() > 0,
        ensures
            final(self)@ == old(self)@.drop_last(),
            final(self).spec_index() == old(self).spec_index(),
    {
        self.parts.pop();
        assert(self.parts@ =~= old(self)@.drop_last());
    }

    pub fn set_parts(&mut self, parts: Vec<SnakeElement>)
        ensures
            final(self)@ == parts@,
            final(self).spec_index() == old(self).spec_index(),
    {
        self.parts = parts;
    }

    /// Moves every segment by `offset`, keeping the directions.
    pub fn translate_parts(&mut self, offset: Cell)
        requires
            can_shift(element_cells(old(self)@), offset),
        ensures
            final(self)@ == shifted_parts(old(self)@, offset),
            final(self).spec_index() == old(self).spec_index(),
    {
        let n = self.parts.len();
        let mut i: usize = 0;
        while i < n
            invariant
                n == self.parts@.len(),
                n == old(self)@.len(),
                i <= n,
                self.index == old(self).index,
                can_shift(element_cells(old(self)@), offset),
                forall|j: int|
                    0 <= j < i ==> self.parts@[j] == (
                    cell_add(old(self)@[j].0, offset),
                    old(self)@[j].1,
                ),
                forall|j: int| i <= j < n ==> self.parts@[j] == old(self)@[j],
            decreases n - i,
        {
            let (p, d) = self.parts[i];
            assert(can_add(element_cells(old(self)@)[i as int], offset));
            self.parts.set(i, (p.add(offset), d));
            i += 1;
        }
        assert(self.parts@ =~= shifted_parts(old(self)@, offset));
    }

    /// Overwrites the cell of every segment, keeping the directions.
    pub fn set_part_positions(&mut self, positions: &[Cell])
        requires
            positions@.len() == old(self)@.len(),
        ensures
            final(self)@.len() == old(self)@.len(),
            forall|j: int|
                0 <= j < old(self)@.len() ==> #[trigger] final(self)@[j] == (
                positions@[j],
                old(self)@[j].1,
            ),
            final(self).spec_index() == old(self).spec_index(),
    {
        let n = self.parts.len();
        let mut i: usize = 0;
        while i < n
            invariant
                n == self.parts@.len(),
                n == old(self)@.len(),
                n == positions@.len(),
                i <= n,
                self.index == old(self).index,
                forall|j: int| 0 <= j < i ==> self.parts@[j] == (positions@[j], old(self)@[j].1),
                forall|j: int| i <= j < n ==> self.parts@[j] == old(self)@[j],
            decreases n - i,
        {
            let d = self.parts[i].1;
            self.parts.set(i, (positions[i], d));
            i += 1;
        }
    }
}

impl Movable for Snake {
    open spec fn cells(&self) -> Seq<Cell> {
        element_cells(self@)
    }

    open spec fn directions(&self) -> Seq<Cell> {
        self@.map_values(|e: SnakeElement| e.1)
    }

    open spec fn kind(&self) -> EntityType {
        EntityType::Snake
    }

    fn positions(&self) -> (r: Vec<Cell>) {
        let mut r: Vec<Cell> = Vec::new();
        let mut i: usize = 0;
        while i < self.parts.len()
            invariant
                i <= self.parts@.len(),
                r@ =~= element_cells(self.parts@).take(i as int),
            decreases self.parts@.len() - i,
        {
            r.push(self.parts[i].0);
            i += 1;
            assert(r@ =~= element_cells(self.parts@).take(i as int));
        }
        assert(r@ =~= element_cells(self.parts@));
        r
    }

    fn translate(&mut self, offset: Cell) {
        self.translate_parts(offset);
        assert(element_cells(self.parts@) =~= shifted(element_cells(old(self).parts@), offset));
        assert(self.directions() =~= old(self).directions());
    }

    fn set_positions(&mut self, positions: &[Cell]) {
        self.set_part_positions(positions);
        assert(element_cells(self.parts@) =~= positions@);
        assert(self.directions() =~= old(self).directions());
    }

    fn entity_type(&self) -> EntityType {
        EntityType::Snake
    }
}

} // verus!
