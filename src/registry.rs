//! The live movable entities of a level, looked up by entity handle.
use crate::grid::{Cell, Entity, EntityType, LevelGridEntity};
use crate::level_entities::{can_shift, shifted, GridEntity, Movable};
use crate::snake::{element_cells, Snake, SnakeElement};
use vstd::prelude::*;

verus! {

/// What the simulation knows of a snake: its body, its index, and whether it is in play.
pub struct SnakeState {
    pub parts: Seq<SnakeElement>,
    pub index: i32,
    pub active: bool,
}

/// A snake of the registry.
pub struct SnakeSlot {
    pub entity: Entity,
    pub snake: Snake,
    pub active: bool,
}

/// A box of the registry.
#[derive(Clone, Copy, Debug, PartialEq, Eq, Structural)]
pub struct BoxSlot {
    pub entity: Entity,
    pub grid_entity: GridEntity,
}

/// The state of a snake slot.
pub open spec fn slot_state(s: SnakeSlot) -> SnakeState {
    SnakeState { parts: s.snake@, index: s.snake.spec_index(), active: s.active }
}

/// Snakes and boxes by entity handle.
pub struct RegistryView {
    pub snakes: Map<Entity, SnakeState>,
    pub boxes: Map<Entity, GridEntity>,
}

/// The cells a movable occupies, when the registry holds it under that kind.
pub open spec fn movable_cells(r: RegistryView, e: LevelGridEntity) -> Option<Seq<Cell>> {
    if e.entity_type == EntityType::Snake && r.snakes.dom().contains(e.entity) {
        Some(element_cells(r.snakes[e.entity].parts))
    } else if e.entity_type == EntityType::Box && r.boxes.dom().contains(e.entity) {
        Some(seq![r.boxes[e.entity].position])
    } else {
        None
    }
}

/// `parts` with the cell of each segment replaced by the matching cell of `ps`.
pub open spec fn placed_parts(parts: Seq<SnakeElement>, ps: Seq<Cell>) -> Seq<SnakeElement> {
    Seq::new(parts.len(), |j: int| (ps[j], parts[j].1))
}

/// `parts` with every cell moved by `offset`.
pub open spec fn parts_shifted(parts: Seq<SnakeElement>, offset: Cell) -> Seq<SnakeElement> {
    crate::snake::shifted_parts(parts, offset)
}

/// The registry after moving movable `e` by `offset`.
pub open spec fn moved_movable(r: RegistryView, e: LevelGridEntity, offset: Cell) -> RegistryView {
    if e.entity_type == EntityType::Snake {
        RegistryView {
            snakes: r.snakes.insert(
                e.entity,
                SnakeState { parts: parts_shifted(r.snakes[e.entity].parts, offset), ..r.snakes[e.entity] },
            ),
            boxes: r.boxes,
        }
    } else {
        RegistryView {
            snakes: r.snakes,
            boxes: r.boxes.insert(
                e.entity,
                GridEntity { position: crate::grid::cell_add(r.boxes[e.entity].position, offset), ..r.boxes[e.entity] },
            ),
        }
    }
}

/// The registry after placing movable `e` on the cells `ps`.
pub open spec fn placed_movable(r: RegistryView, e: LevelGridEntity, ps: Seq<Cell>) -> RegistryView {
    if e.entity_type == EntityType::Snake {
        RegistryView {
            snakes: r.snakes.insert(
                e.entity,
                SnakeState { parts: placed_parts(r.snakes[e.entity].parts, ps), ..r.snakes[e.entity] },
            ),
            boxes: r.boxes,
        }
    } else {
        RegistryView {
            snakes: r.snakes,
            boxes: r.boxes.insert(e.entity, GridEntity { position: ps[0], ..r.boxes[e.entity] }),
        }
    }
}

/// The registry after replacing the body of snake `e`.
pub open spec fn with_parts(r: RegistryView, e: Entity, parts: Seq<SnakeElement>) -> RegistryView {
    RegistryView {
        snakes: r.snakes.insert(e, SnakeState { parts, ..r.snakes[e] }),
        boxes: r.boxes,
    }
}

/// The registry after setting whether snake `e` is in play.
pub open spec fn with_active(r: RegistryView, e: Entity, active: bool) -> RegistryView {
    RegistryView {
        snakes: r.snakes.insert(e, SnakeState { active, ..r.snakes[e] }),
        boxes: r.boxes,
    }
}

/// Placing a movable on the cells it already occupies changes nothing.
pub proof fn lemma_placed_in_place(r: RegistryView, e: LevelGridEntity)
    requires
        movable_cells(r, e) is Some,
    ensures
        placed_movable(r, e, movable_cells(r, e)->Some_0) == r,
{
    let c = movable_cells(r, e)->Some_0;
    if e.entity_type == EntityType::Snake {
        assert(placed_parts(r.snakes[e.entity].parts, c) =~= r.snakes[e.entity].parts);
        assert(r.snakes.insert(e.entity, SnakeState { parts: placed_parts(r.snakes[e.entity].parts, c), ..r.snakes[e.entity] })
            =~= r.snakes);
    } else {
        assert(r.boxes.insert(e.entity, GridEntity { position: c[0], ..r.boxes[e.entity] }) =~= r.boxes);
    }
}

/// Moving a placed movable by `offset` places it on the moved cells: a fall of any number of
/// cells is one placement of the movable.
pub proof fn lemma_move_after_placement(r: RegistryView, e: LevelGridEntity, fallen: Seq<Cell>, offset: Cell)
    requires
        movable_cells(r, e) is Some,
        fallen.len() == movable_cells(r, e)->Some_0.len(),
        can_shift(fallen, offset),
    ensures
        movable_cells(placed_movable(r, e, fallen), e) == Some(fallen),
        moved_movable(placed_movable(r, e, fallen), e, offset) == placed_movable(r, e, shifted(fallen, offset)),
{
    let r1 = placed_movable(r, e, fallen);
    if e.entity_type == EntityType::Snake {
        let parts = r.snakes[e.entity].parts;
        assert(element_cells(placed_parts(parts, fallen)) =~= fallen);
        assert(crate::snake::shifted_parts(placed_parts(parts, fallen), offset) =~= placed_parts(
            parts,
            shifted(fallen, offset),
        ));
        assert(moved_movable(r1, e, offset).snakes =~= placed_movable(r, e, shifted(fallen, offset)).snakes);
    } else {
        assert(seq![fallen[0]] =~= fallen);
        assert(moved_movable(r1, e, offset).boxes =~= placed_movable(r, e, shifted(fallen, offset)).boxes);
    }
}

/// Slot numbers by entity handle, held in the engine's hash map.
#[verifier::external_body]
pub struct EntityMap {
    slots: bevy::utils::HashMap<u64, usize>,
}

/// What an `EntityMap` holds, as a map from handle number to slot number.
pub uninterp spec fn entity_map_contents(m: EntityMap) -> Map<u64, usize>;

/// A map with no entry.
pub open spec fn no_slots() -> Map<u64, usize> {
    Map::empty()
}

impl EntityMap {
    /// Relies on hashbrown's `HashMap::new`: a new map holds no entry.
    #[verifier::external_body]
    fn new() -> (r: EntityMap)
        ensures
            entity_map_contents(r) == no_slots(),
    {
        EntityMap { slots: bevy::utils::HashMap::new() }
    }

    /// Relies on hashbrown's `HashMap::get`: the value stored under the key, if any.
    #[verifier::external_body]
    fn get(&self, k: u64) -> (r: Option<usize>)
        ensures
            r == (if entity_map_contents(*self).dom().contains(k) {
                Some(entity_map_contents(*self)[k])
            } else {
                None
            }),
    {
        self.slots.get(&k).copied()
    }

    /// Relies on hashbrown's `HashMap::insert`: the key now maps to the value, every other
    /// entry is kept.
    #[verifier::external_body]
    fn insert(&mut self, k: u64, v: usize)
        ensures
            entity_map_contents(*final(self)) == entity_map_contents(*old(self)).insert(k, v),
    {
        self.slots.insert(k, v);
    }
}

/// The movable entities of a level: every snake and every box, each under a distinct handle,
/// found through an index from handle to slot.
pub struct MovableRegistry {
    snakes: Vec<SnakeSlot>,
    boxes: Vec<BoxSlot>,
    snake_index: EntityMap,
    box_index: EntityMap,
    ghost_view: Ghost<RegistryView>,
}

impl View for MovableRegistry {
    type V = RegistryView;

    closed spec fn view(&self) -> RegistryView {
        self.ghost_view@
    }
}

impl MovableRegistry {
    /// The slots agree with the view, and no handle appears twice.
    pub closed spec fn wf(&self) -> bool {
        &&& forall|i: int|
            0 <= i < self.snakes@.len() ==> self.ghost_view@.snakes.dom().contains(
                #[trigger] self.snakes@[i].entity,
            ) && self.ghost_view@.snakes[self.snakes@[i].entity] == slot_state(self.snakes@[i])
        &&& forall|e: Entity|
            #[trigger] self.ghost_view@.snakes.dom().contains(e) ==> exists|i: int|
                0 <= i < self.snakes@.len() && self.snakes@[i].entity == e
        &&& forall|i: int, j: int|
            0 <= i < j < self.snakes@.len() ==> self.snakes@[i].entity != self.snakes@[j].entity
        &&& forall|i: int|
            0 <= i < self.boxes@.len() ==> self.ghost_view@.boxes.dom().contains(
                #[trigger] self.boxes@[i].entity,
            ) && self.ghost_view@.boxes[self.boxes@[i].entity] == self.boxes@[i].grid_entity
        &&& forall|e: Entity|
            #[trigger] self.ghost_view@.boxes.dom().contains(e) ==> exists|i: int|
                0 <= i < self.boxes@.len() && self.boxes@[i].entity == e
        &&& forall|i: int, j: int|
            0 <= i < j < self.boxes@.len() ==> self.boxes@[i].entity != self.boxes@[j].entity
        &&& self.index_wf()
    }

    /// Each index maps the handle of every slot to that slot, and nothing else.
    pub closed spec fn index_wf(&self) -> bool {
        let si = entity_map_contents(self.snake_index);
        let bi = entity_map_contents(self.box_index);
        &&& forall|i: int|
            0 <= i < self.snakes@.len() ==> si.dom().contains(#[trigger] self.snakes@[i].entity.id)
                && si[self.snakes@[i].entity.id] == i
        &&& forall|k: u64|
            #[trigger] si.dom().contains(k) ==> si[k] < self.snakes@.len() && self.snakes@[si[k] as int].entity.id == k
        &&& forall|i: int|
            0 <= i < self.boxes@.len() ==> bi.dom().contains(#[trigger] self.boxes@[i].entity.id)
                && bi[self.boxes@[i].entity.id] == i
        &&& forall|k: u64|
            #[trigger] bi.dom().contains(k) ==> bi[k] < self.boxes@.len() && self.boxes@[bi[k] as int].entity.id == k
    }

    pub fn new() -> (r: MovableRegistry)
        ensures
            r.wf(),
            r@.snakes == Map::<Entity, SnakeState>::empty(),
            r@.boxes == Map::<Entity, GridEntity>::empty(),
    {
        MovableRegistry {
            snakes: Vec::new(),
            boxes: Vec::new(),
            snake_index: EntityMap::new(),
            box_index: EntityMap::new(),
            ghost_view: Ghost(RegistryView { snakes: Map::empty(), boxes: Map::empty() }),
        }
    }

    fn find_snake(&self, entity: Entity) -> (r: Option<usize>)
        requires
            self.wf(),
        ensures
            r is None ==> !self@.snakes.dom().contains(entity),
            r matches Some(i) ==> i < self.snakes@.len() && self.snakes@[i as int].entity == entity
                && self@.snakes.dom().contains(entity),
    {
        match self.snake_index.get(entity.id) {
            Some(i) => {
                assert(self.snakes@[i as int].entity.id == entity.id);
                assert(self.ghost_view@.snakes.dom().contains(self.snakes@[i as int].entity));
                Some(i)
            },
            None => {
                proof {
                    if self.ghost_view@.snakes.dom().contains(entity) {
                        let j = choose|j: int| 0 <= j < self.snakes@.len() && self.snakes@[j].entity == entity;
                        assert(entity_map_contents(self.snake_index).dom().contains(self.snakes@[j].entity.id));
                    }
                }
                None
            },
        }
    }

    fn find_box(&self, entity: Entity) -> (r: Option<usize>)
        requires
            self.wf(),
        ensures
            r is None ==> !self@.boxes.dom().contains(entity),
            r matches Some(i) ==> i < self.boxes@.len() && self.boxes@[i as int].entity == entity
                && self@.boxes.dom().contains(entity),
    {
        match self.box_index.get(entity.id) {
            Some(i) => {
                assert(self.boxes@[i as int].entity.id == entity.id);
                assert(self.ghost_view@.boxes.dom().contains(self.boxes@[i as int].entity));
                Some(i)
            },
            None => {
                proof {
                    if self.ghost_view@.boxes.dom().contains(entity) {
                        let j = choose|j: int| 0 <= j < self.boxes@.len() && self.boxes@[j].entity == entity;
                        assert(entity_map_contents(self.box_index).dom().contains(self.boxes@[j].entity.id));
                    }
                }
                None
            },
        }
    }

    /// Adds a snake in play under `entity`; refused when the handle is already a snake's.
    pub fn add_snake(&mut self, entity: Entity, snake: Snake) -> (r: bool)
        requires
            old(self).wf(),
        ensures
            final(self).wf(),
            r == !old(self)@.snakes.dom().contains(entity),
            r ==> final(self)@.snakes == old(self)@.snakes.insert(
                entity,
                SnakeState { parts: snake@, index: snake.spec_index(), active: true },
            ),
            !r ==> final(self)@ == old(self)@,
            final(self)@.boxes == old(self)@.boxes,
    {
        if self.find_snake(entity).is_some() {
            return false;
        }
        let ghost state = SnakeState { parts: snake@, index: snake.spec_index(), active: true };
        let n = self.snakes.len();
        proof {
            assert forall|i: int| 0 <= i < self.snakes@.len() implies self.snakes@[i].entity.id != entity.id by {
                assert(self.ghost_view@.snakes.dom().contains(self.snakes@[i].entity));
            }
        }
        self.snakes.push(SnakeSlot { entity, snake, active: true });
        self.snake_index.insert(entity.id, n);
        self.ghost_view = Ghost(
            RegistryView { snakes: self.ghost_view@.snakes.insert(entity, state), boxes: self.ghost_view@.boxes },
        );
        proof {
            let n = self.snakes@.len() - 1;
            assert forall|e: Entity| #[trigger] self.ghost_view@.snakes.dom().contains(e) implies exists|i: int|
                0 <= i < self.snakes@.len() && self.snakes@[i].entity == e by {
                if e != entity {
                    let i = choose|i: int| 0 <= i < old(self).snakes@.len() && old(self).snakes@[i].entity == e;
                    assert(self.snakes@[i].entity == e);
                } else {
                    assert(self.snakes@[n].entity == e);
                }
            }
        }
        true
    }

    /// Adds a box under `entity`; refused when the handle is already a box's.
    pub fn add_box(&mut self, entity: Entity, grid_entity: GridEntity) -> (r: bool)
        requires
            old(self).wf(),
        ensures
            final(self).wf(),
            r == !old(self)@.boxes.dom().contains(entity),
            r ==> final(self)@.boxes == old(self)@.boxes.insert(entity, grid_entity),
            !r ==> final(self)@ == old(self)@,
            final(self)@.snakes == old(self)@.snakes,
    {
        if self.find_box(entity).is_some() {
            return false;
        }
        let n = self.boxes.len();
        proof {
            assert forall|i: int| 0 <= i < self.boxes@.len() implies self.boxes@[i].entity.id != entity.id by {
                assert(self.ghost_view@.boxes.dom().contains(self.boxes@[i].entity));
            }
        }
        self.boxes.push(BoxSlot { entity, grid_entity });
        self.box_index.insert(entity.id, n);
        self.ghost_view = Ghost(
            RegistryView { snakes: self.ghost_view@.snakes, boxes: self.ghost_view@.boxes.insert(entity, grid_entity) },
        );
        proof {
            let n = self.boxes@.len() - 1;
            assert forall|e: Entity| #[trigger] self.ghost_view@.snakes.dom().contains(e) implies exists|i: int|
                0 <= i < self.snakes@.len() && self.snakes@[i].entity == e by {
                assert(old(self).ghost_view@.snakes.dom().contains(e));
                let i = choose|i: int| 0 <= i < old(self).snakes@.len() && old(self).snakes@[i].entity == e;
                assert(self.snakes@[i].entity == e);
            }
            assert forall|i: int| 0 <= i < n implies self.boxes@[i].entity != entity by {
                assert(old(self).ghost_view@.boxes.dom().contains(old(self).boxes@[i].entity));
            }
            assert forall|i: int| 0 <= i < self.boxes@.len() implies self.ghost_view@.boxes.dom().contains(
                #[trigger] self.boxes@[i].entity,
            ) && self.ghost_view@.boxes[self.boxes@[i].entity] == self.boxes@[i].grid_entity by {
                if i < n {
                    assert(old(self).ghost_view@.boxes.dom().contains(old(self).boxes@[i].entity));
                }
            }
            assert forall|e: Entity| #[trigger] self.ghost_view@.boxes.dom().contains(e) implies exists|i: int|
                0 <= i < self.boxes@.len() && self.boxes@[i].entity == e by {
                if e != entity {
                    let i = choose|i: int| 0 <= i < old(self).boxes@.len() && old(self).boxes@[i].entity == e;
                    assert(self.boxes@[i].entity == e);
                } else {
                    assert(self.boxes@[n].entity == e);
                }
            }
        }
        true
    }
}

/// Every cell of `ps` can be moved by `offset` without overflow.
pub fn cells_can_shift(ps: &Vec<Cell>, offset: Cell) -> (r: bool)
    ensures
        r == can_shift(ps@, offset),
{
    let mut i: usize = 0;
    while i < ps.len()
        invariant
            i <= ps@.len(),
            forall|j: int| 0 <= j < i ==> #[trigger] crate::grid::can_add(ps@[j], offset),
        decreases ps@.len() - i,
    {
        let p = ps[i];
        if !((p.x as i64 + offset.x as i64) >= i32::MIN as i64 && (p.x as i64 + offset.x as i64)
            <= i32::MAX as i64 && (p.y as i64 + offset.y as i64) >= i32::MIN as i64 && (p.y as i64
            + offset.y as i64) <= i32::MAX as i64 && (p.z as i64 + offset.z as i64) >= i32::MIN as i64
            && (p.z as i64 + offset.z as i64) <= i32::MAX as i64) {
            assert(!crate::grid::can_add(ps@[i as int], offset));
            return false;
        }
        i += 1;
    }
    true
}

impl MovableRegistry {
    proof fn lemma_snake_update(a: &MovableRegistry, b: &MovableRegistry, i: int)
        requires
            a.wf(),
            0 <= i < a.snakes@.len(),
            b.boxes@ == a.boxes@,
            b.ghost_view@.boxes == a.ghost_view@.boxes,
            b.snake_index == a.snake_index,
            b.box_index == a.box_index,
            b.snakes@ == a.snakes@.update(i, b.snakes@[i]),
            b.snakes@[i].entity == a.snakes@[i].entity,
            b.ghost_view@.snakes == a.ghost_view@.snakes.insert(
                a.snakes@[i].entity,
                slot_state(b.snakes@[i]),
            ),
        ensures
            b.wf(),
    {
        assert forall|e: Entity| #[trigger] b.ghost_view@.snakes.dom().contains(e) implies exists|k: int|
            0 <= k < b.snakes@.len() && b.snakes@[k].entity == e by {
            if e == a.snakes@[i].entity {
                assert(b.snakes@[i].entity == e);
            } else {
                assert(a.ghost_view@.snakes.dom().contains(e));
                let k = choose|k: int| 0 <= k < a.snakes@.len() && a.snakes@[k].entity == e;
                assert(b.snakes@[k].entity == e);
            }
        }
        assert forall|k: int| 0 <= k < b.snakes@.len() implies b.ghost_view@.snakes.dom().contains(
            #[trigger] b.snakes@[k].entity,
        ) && b.ghost_view@.snakes[b.snakes@[k].entity] == slot_state(b.snakes@[k]) by {
            if k != i {
                assert(a.snakes@[k].entity != a.snakes@[i].entity);
                assert(a.ghost_view@.snakes.dom().contains(a.snakes@[k].entity));
            }
        }
        assert forall|k: int, j: int| 0 <= k < j < b.snakes@.len() implies b.snakes@[k].entity
            != b.snakes@[j].entity by {
            assert(a.snakes@[k].entity != a.snakes@[j].entity);
        }
        assert forall|e: Entity| #[trigger] b.ghost_view@.boxes.dom().contains(e) implies exists|k: int|
            0 <= k < b.boxes@.len() && b.boxes@[k].entity == e by {
            assert(a.ghost_view@.boxes.dom().contains(e));
            let k = choose|k: int| 0 <= k < a.boxes@.len() && a.boxes@[k].entity == e;
            assert(b.boxes@[k].entity == e);
        }
    }

    proof fn lemma_box_update(a: &MovableRegistry, b: &MovableRegistry, i: int)
        requires
            a.wf(),
            0 <= i < a.boxes@.len(),
            b.snakes@ == a.snakes@,
            b.ghost_view@.snakes == a.ghost_view@.snakes,
            b.snake_index == a.snake_index,
            b.box_index == a.box_index,
            b.boxes@ == a.boxes@.update(i, b.boxes@[i]),
            b.boxes@[i].entity == a.boxes@[i].entity,
            b.ghost_view@.boxes == a.ghost_view@.boxes.insert(a.boxes@[i].entity, b.boxes@[i].grid_entity),
        ensures
            b.wf(),
    {
        assert forall|e: Entity| #[trigger] b.ghost_view@.boxes.dom().contains(e) implies exists|k: int|
            0 <= k < b.boxes@.len() && b.boxes@[k].entity == e by {
            if e == a.boxes@[i].entity {
                assert(b.boxes@[i].entity == e);
            } else {
                assert(a.ghost_view@.boxes.dom().contains(e));
                let k = choose|k: int| 0 <= k < a.boxes@.len() && a.boxes@[k].entity == e;
                assert(b.boxes@[k].entity == e);
            }
        }
        assert forall|k: int| 0 <= k < b.boxes@.len() implies b.ghost_view@.boxes.dom().contains(
            #[trigger] b.boxes@[k].entity,
        ) && b.ghost_view@.boxes[b.boxes@[k].entity] == b.boxes@[k].grid_entity by {
            if k != i {
                assert(a.boxes@[k].entity != a.boxes@[i].entity);
                assert(a.ghost_view@.boxes.dom().contains(a.boxes@[k].entity));
            }
        }
        assert forall|k: int, j: int| 0 <= k < j < b.boxes@.len() implies b.boxes@[k].entity
            != b.boxes@[j].entity by {
            assert(a.boxes@[k].entity != a.boxes@[j].entity);
        }
        assert forall|e: Entity| #[trigger] b.ghost_view@.snakes.dom().contains(e) implies exists|k: int|
            0 <= k < b.snakes@.len() && b.snakes@[k].entity == e by {
            assert(a.ghost_view@.snakes.dom().contains(e));
            let k = choose|k: int| 0 <= k < a.snakes@.len() && a.snakes@[k].entity == e;
            assert(b.snakes@[k].entity == e);
        }
    }

    /// The snake registered under `entity`, if any.
    pub fn get_snake(&self, entity: Entity) -> (r: Option<&Snake>)
        requires
            self.wf(),
        ensures
            (r is Some) == self@.snakes.dom().contains(entity),
            r matches Some(s) ==> s@ == self@.snakes[entity].parts && s.spec_index()
                == self@.snakes[entity].index,
    {
        match self.find_snake(entity) {
            Some(i) => {
                assert(self.ghost_view@.snakes.dom().contains(self.snakes@[i as int].entity));
                Some(&self.snakes[i].snake)
            },
            None => None,
        }
    }

    /// Whether the snake registered under `entity` is in play.
    pub fn is_snake_active(&self, entity: Entity) -> (r: Option<bool>)
        requires
            self.wf(),
        ensures
            (r is Some) == self@.snakes.dom().contains(entity),
            r matches Some(a) ==> a == self@.snakes[entity].active,
    {
        match self.find_snake(entity) {
            Some(i) => {
                assert(self.ghost_view@.snakes.dom().contains(self.snakes@[i as int].entity));
                Some(self.snakes[i].active)
            },
            None => None,
        }
    }

    /// The box registered under `entity`, if any.
    pub fn get_box(&self, entity: Entity) -> (r: Option<GridEntity>)
        requires
            self.wf(),
        ensures
            (r is Some) == self@.boxes.dom().contains(entity),
            r matches Some(b) ==> b == self@.boxes[entity],
    {
        match self.find_box(entity) {
            Some(i) => {
                assert(self.ghost_view@.boxes.dom().contains(self.boxes@[i as int].entity));
                Some(self.boxes[i].grid_entity)
            },
            None => None,
        }
    }

    /// Whether the registry holds the movable `entity` under its kind.
    pub fn contains(&self, entity: LevelGridEntity) -> (r: bool)
        requires
            self.wf(),
        ensures
            r == (movable_cells(self@, entity) is Some),
    {
        if entity.entity_type == EntityType::Snake {
            self.get_snake(entity.entity).is_some()
        } else if entity.entity_type == EntityType::Box {
            self.get_box(entity.entity).is_some()
        } else {
            false
        }
    }

    /// The cells of the movable `entity`, looked up under its kind. The movable must be
    /// registered: looking up an unknown one is a logic error (see `contains`).
    pub fn get(&self, entity: LevelGridEntity) -> (r: Vec<Cell>)
        requires
            self.wf(),
            movable_cells(self@, entity) is Some,
        ensures
            r@ == movable_cells(self@, entity)->Some_0,
    {
        if entity.entity_type == EntityType::Snake {
            let s = self.get_snake(entity.entity).unwrap();
            s.positions()
        } else {
            self.get_box(entity.entity).unwrap().positions()
        }
    }

    /// Undoes one step forward of snake `entity`: its old tail `part` comes back and its
    /// head is dropped. False, with nothing changed, when no such snake exists or its body
    /// is empty.
    pub fn snake_move_back(&mut self, entity: Entity, part: SnakeElement) -> (r: bool)
        requires
            old(self).wf(),
        ensures
            final(self).wf(),
            r == (old(self)@.snakes.dom().contains(entity) && old(self)@.snakes[entity].parts.len() > 0),
            r ==> final(self)@ == with_parts(old(self)@, entity, old(self)@.snakes[entity].parts.drop_first().push(part)),
            !r ==> final(self)@ == old(self)@,
    {
        let i = match self.find_snake(entity) {
            Some(i) => i,
            None => return false,
        };
        let ghost a = *old(self);
        proof {
            assert(self.ghost_view@.snakes.dom().contains(self.snakes@[i as int].entity));
        }
        if self.snakes[i].snake.len() == 0 {
            return false;
        }
        self.snakes[i].snake.move_back(&part);
        self.ghost_view = Ghost(
            RegistryView {
                snakes: self.ghost_view@.snakes.insert(entity, slot_state(self.snakes@[i as int])),
                boxes: self.ghost_view@.boxes,
            },
        );
        proof {
            Self::lemma_snake_update(&a, self, i as int);
            assert(self@.snakes =~= with_parts(a@, entity, a@.snakes[entity].parts.drop_first().push(part)).snakes);
        }
        true
    }

    /// Drops the last segment of snake `entity`. False, with nothing changed, when no such
    /// snake exists or its body is empty.
    pub fn snake_shrink(&mut self, entity: Entity) -> (r: bool)
        requires
            old(self).wf(),
        ensures
            final(self).wf(),
            r == (old(self)@.snakes.dom().contains(entity) && old(self)@.snakes[entity].parts.len() > 0),
            r ==> final(self)@ == with_parts(old(self)@, entity, old(self)@.snakes[entity].parts.drop_last()),
            !r ==> final(self)@ == old(self)@,
    {
        let i = match self.find_snake(entity) {
            Some(i) => i,
            None => return false,
        };
        let ghost a = *old(self);
        proof {
            assert(self.ghost_view@.snakes.dom().contains(self.snakes@[i as int].entity));
        }
        if self.snakes[i].snake.len() == 0 {
            return false;
        }
        self.snakes[i].snake.shrink();
        self.ghost_view = Ghost(
            RegistryView {
                snakes: self.ghost_view@.snakes.insert(entity, slot_state(self.snakes@[i as int])),
                boxes: self.ghost_view@.boxes,
            },
        );
        proof {
            Self::lemma_snake_update(&a, self, i as int);
            assert(self@.snakes =~= with_parts(a@, entity, a@.snakes[entity].parts.drop_last()).snakes);
        }
        true
    }

    /// Moves snake `entity` one step forward along `direction`.
    pub fn snake_move_forward(&mut self, entity: Entity, direction: Cell)
        requires
            old(self).wf(),
            old(self)@.snakes.dom().contains(entity),
            old(self)@.snakes[entity].parts.len() > 0,
            crate::grid::can_add(old(self)@.snakes[entity].parts[0].0, direction),
        ensures
            final(self).wf(),
            final(self)@ == with_parts(
                old(self)@,
                entity,
                crate::snake::moved_forward(old(self)@.snakes[entity].parts, direction),
            ),
    {
        let i = self.find_snake(entity).unwrap();
        let ghost a = *old(self);
        proof {
            assert(self.ghost_view@.snakes.dom().contains(self.snakes@[i as int].entity));
        }
        self.snakes[i].snake.move_forward(direction);
        self.ghost_view = Ghost(
            RegistryView {
                snakes: self.ghost_view@.snakes.insert(entity, slot_state(self.snakes@[i as int])),
                boxes: self.ghost_view@.boxes,
            },
        );
        proof {
            Self::lemma_snake_update(&a, self, i as int);
            assert(self@.snakes =~= with_parts(
                a@,
                entity,
                crate::snake::moved_forward(a@.snakes[entity].parts, direction),
            ).snakes);
        }
    }

    /// Adds a segment behind the tail of snake `entity`.
    pub fn snake_grow(&mut self, entity: Entity)
        requires
            old(self).wf(),
            old(self)@.snakes.dom().contains(entity),
            old(self)@.snakes[entity].parts.len() > 0,
            crate::grid::can_sub(
                old(self)@.snakes[entity].parts.last().0,
                old(self)@.snakes[entity].parts.last().1,
            ),
        ensures
            final(self).wf(),
            final(self)@ == with_parts(
                old(self)@,
                entity,
                crate::snake::grown(old(self)@.snakes[entity].parts),
            ),
    {
        let i = self.find_snake(entity).unwrap();
        let ghost a = *old(self);
        proof {
            assert(self.ghost_view@.snakes.dom().contains(self.snakes@[i as int].entity));
        }
        self.snakes[i].snake.grow();
        self.ghost_view = Ghost(
            RegistryView {
                snakes: self.ghost_view@.snakes.insert(entity, slot_state(self.snakes@[i as int])),
                boxes: self.ghost_view@.boxes,
            },
        );
        proof {
            Self::lemma_snake_update(&a, self, i as int);
            assert(self@.snakes =~= with_parts(
                a@,
                entity,
                crate::snake::grown(a@.snakes[entity].parts),
            ).snakes);
        }
    }

    /// Sets whether snake `entity` is in play. False, with nothing changed, when no such
    /// snake exists.
    pub fn set_snake_active(&mut self, entity: Entity, active: bool) -> (r: bool)
        requires
            old(self).wf(),
        ensures
            final(self).wf(),
            r == old(self)@.snakes.dom().contains(entity),
            r ==> final(self)@ == with_active(old(self)@, entity, active),
            !r ==> final(self)@ == old(self)@,
    {
        let i = match self.find_snake(entity) {
            Some(i) => i,
            None => return false,
        };
        let ghost a = *old(self);
        proof {
            assert(self.ghost_view@.snakes.dom().contains(self.snakes@[i as int].entity));
        }
        self.snakes[i].active = active;
        self.ghost_view = Ghost(
            RegistryView {
                snakes: self.ghost_view@.snakes.insert(entity, slot_state(self.snakes@[i as int])),
                boxes: self.ghost_view@.boxes,
            },
        );
        proof {
            Self::lemma_snake_update(&a, self, i as int);
            assert(self@.snakes =~= with_active(a@, entity, active).snakes);
        }
        true
    }

    /// Moves the movable `entity` by `offset`. False, with nothing changed, when the registry
    /// holds no such movable or a cell would leave the range of `i32`.
    pub fn translate(&mut self, entity: LevelGridEntity, offset: Cell) -> (r: bool)
        requires
            old(self).wf(),
        ensures
            final(self).wf(),
            r == ((movable_cells(old(self)@, entity) is Some) && can_shift(
                movable_cells(old(self)@, entity)->Some_0,
                offset,
            )),
            r ==> final(self)@ == moved_movable(old(self)@, entity, offset),
            !r ==> final(self)@ == old(self)@,
    {
        if !self.contains(entity) {
            return false;
        }
        let cells = self.get(entity);
        if !cells_can_shift(&cells, offset) {
            return false;
        }
        let ghost a = *old(self);
        if entity.entity_type == EntityType::Snake {
            let i = self.find_snake(entity.entity).unwrap();
            proof {
                assert(self.ghost_view@.snakes.dom().contains(self.snakes@[i as int].entity));
            }
            self.snakes[i].snake.translate_parts(offset);
            self.ghost_view = Ghost(
                RegistryView {
                    snakes: self.ghost_view@.snakes.insert(entity.entity, slot_state(self.snakes@[i as int])),
                    boxes: self.ghost_view@.boxes,
                },
            );
            proof {
                Self::lemma_snake_update(&a, self, i as int);
                assert(self@.snakes =~= moved_movable(a@, entity, offset).snakes);
            }
        } else {
            let i = self.find_box(entity.entity).unwrap();
            proof {
                assert(self.ghost_view@.boxes.dom().contains(self.boxes@[i as int].entity));
                assert(crate::grid::can_add(cells@[0], offset));
            }
            let p = self.boxes[i].grid_entity.position.add(offset);
            self.boxes[i].grid_entity.position = p;
            self.ghost_view = Ghost(
                RegistryView {
                    snakes: self.ghost_view@.snakes,
                    boxes: self.ghost_view@.boxes.insert(entity.entity, self.boxes@[i as int].grid_entity),
                },
            );
            proof {
                Self::lemma_box_update(&a, self, i as int);
                assert(self@.boxes =~= moved_movable(a@, entity, offset).boxes);
            }
        }
        true
    }

    /// Places the movable `entity` on the cells `positions`, one per cell it occupies. False,
    /// with nothing changed, when the registry holds no such movable or the count differs.
    pub fn set_positions(&mut self, entity: LevelGridEntity, positions: &Vec<Cell>) -> (r: bool)
        requires
            old(self).wf(),
        ensures
            final(self).wf(),
            r == ((movable_cells(old(self)@, entity) is Some) && movable_cells(old(self)@, entity)->Some_0.len()
                == positions@.len()),
            r ==> final(self)@ == placed_movable(old(self)@, entity, positions@),
            !r ==> final(self)@ == old(self)@,
    {
        if !self.contains(entity) {
            return false;
        }
        let cells = self.get(entity);
        if cells.len() != positions.len() {
            return false;
        }
        let ghost a = *old(self);
        if entity.entity_type == EntityType::Snake {
            let i = self.find_snake(entity.entity).unwrap();
            proof {
                assert(self.ghost_view@.snakes.dom().contains(self.snakes@[i as int].entity));
            }
            self.snakes[i].snake.set_part_positions(positions.as_slice());
            self.ghost_view = Ghost(
                RegistryView {
                    snakes: self.ghost_view@.snakes.insert(entity.entity, slot_state(self.snakes@[i as int])),
                    boxes: self.ghost_view@.boxes,
                },
            );
            proof {
                Self::lemma_snake_update(&a, self, i as int);
                assert(self.snakes@[i as int].snake@ =~= placed_parts(a@.snakes[entity.entity].parts, positions@));
                assert(self@.snakes =~= placed_movable(a@, entity, positions@).snakes);
            }
        } else {
            let i = self.find_box(entity.entity).unwrap();
            proof {
                assert(self.ghost_view@.boxes.dom().contains(self.boxes@[i as int].entity));
            }
            self.boxes[i].grid_entity.position = positions[0];
            self.ghost_view = Ghost(
                RegistryView {
                    snakes: self.ghost_view@.snakes,
                    boxes: self.ghost_view@.boxes.insert(entity.entity, self.boxes@[i as int].grid_entity),
                },
            );
            proof {
                Self::lemma_box_update(&a, self, i as int);
                assert(self@.boxes =~= placed_movable(a@, entity, positions@).boxes);
            }
        }
        true
    }

    /// An active snake whose head is on `position`, if any (the first registered).
    pub fn snake_at(&self, position: Cell) -> (r: Option<Entity>)
        requires
            self.wf(),
        ensures
            r matches Some(e) ==> self@.snakes.dom().contains(e) && self@.snakes[e].active
                && self@.snakes[e].parts.len() > 0 && self@.snakes[e].parts[0].0 == position,
            r is None ==> forall|e: Entity|
                #[trigger] self@.snakes.dom().contains(e) && self@.snakes[e].active
                    && self@.snakes[e].parts.len() > 0 ==> self@.snakes[e].parts[0].0 != position,
    {
        let mut i: usize = 0;
        while i < self.snakes.len()
            invariant
                i <= self.snakes@.len(),
                self.wf(),
                forall|j: int|
                    0 <= j < i ==> !(self.snakes@[j].active && self.snakes@[j].snake@.len() > 0
                        && self.snakes@[j].snake@[0].0 == position),
            decreases self.snakes@.len() - i,
        {
            let slot = &self.snakes[i];
            assert(self.ghost_view@.snakes.dom().contains(self.snakes@[i as int].entity));
            if slot.active && slot.snake.len() > 0 && slot.snake.head_position() == position {
                return Some(slot.entity);
            }
            i += 1;
        }
        assert forall|e: Entity|
            #[trigger] self@.snakes.dom().contains(e) && self@.snakes[e].active
                && self@.snakes[e].parts.len() > 0 implies self@.snakes[e].parts[0].0 != position by {
            let j = choose|j: int| 0 <= j < self.snakes@.len() && self.snakes@[j].entity == e;
            assert(self.ghost_view@.snakes.dom().contains(self.snakes@[j].entity));
        }
        None
    }

    /// An active snake other than `entity`, if any (the first registered).
    pub fn other_active_snake(&self, entity: Entity) -> (r: Option<Entity>)
        requires
            self.wf(),
        ensures
            r matches Some(e) ==> e != entity && self@.snakes.dom().contains(e) && self@.snakes[e].active,
            r is None ==> forall|e: Entity|
                #[trigger] self@.snakes.dom().contains(e) && e != entity ==> !self@.snakes[e].active,
    {
        let mut i: usize = 0;
        while i < self.snakes.len()
            invariant
                i <= self.snakes@.len(),
                self.wf(),
                forall|j: int| 0 <= j < i ==> !(self.snakes@[j].active && self.snakes@[j].entity != entity),
            decreases self.snakes@.len() - i,
        {
            let slot = &self.snakes[i];
            assert(self.ghost_view@.snakes.dom().contains(self.snakes@[i as int].entity));
            if slot.active && slot.entity != entity {
                return Some(slot.entity);
            }
            i += 1;
        }
        assert forall|e: Entity| #[trigger] self@.snakes.dom().contains(e) && e != entity implies !self@.snakes[e].active by {
            let j = choose|j: int| 0 <= j < self.snakes@.len() && self.snakes@[j].entity == e;
            assert(self.ghost_view@.snakes.dom().contains(self.snakes@[j].entity));
        }
        None
    }
}

} // verus!
