//! The history of reversible events, and the engine that rolls back one player turn.
use crate::grid::{Cell, Entity, EntityType, LevelEntityUpdateEvent, LevelGridEntity};
use crate::level_entities::can_shift;
use crate::level_instance::{revert_updates, LevelInstance};
use crate::registry::{
    movable_cells, moved_movable, placed_movable, with_active, with_parts, MovableRegistry,
    RegistryView,
};
use crate::snake::SnakeElement;
use vstd::prelude::*;

verus! {

/// Completion of a fall: the deltas made when the entity landed.
pub struct EndFall {
    pub walkable_updates: Vec<LevelEntityUpdateEvent>,
}

/// Start of a fall: the cells the entity stood on, and its completion once it lands.
pub struct BeginFall {
    pub positions: Vec<Cell>,
    pub end: Option<EndFall>,
}

/// What a history entry records.
pub enum MoveHistoryEvent {
    /// Marks the start of a player turn.
    PlayerSnakeMove,
    /// The snake moved one cell forward; holds its old tail segment.
    SnakeMoveForward(SnakeElement),
    /// The entity was moved by the given offset (pushed).
    PassiveEntityMove(Cell),
    /// The entity started falling.
    BeginFall(BeginFall),
    /// The snake grew by one segment.
    Grow,
    /// A food at the given cell was eaten.
    Eat(Cell),
    /// The snake left the level through the goal.
    ExitLevel(Entity),
}

/// One entry of the history: an event, the entity it concerns, and the index deltas to revert.
pub struct SnakeHistoryEvent {
    pub event: MoveHistoryEvent,
    pub level_entity: LevelGridEntity,
    pub walkable_updates: Vec<LevelEntityUpdateEvent>,
}

/// A part of a snake, by snake index and segment index.
#[derive(Clone, Copy, Debug, PartialEq, Eq, Structural)]
pub struct SnakePart {
    pub snake_index: i32,
    pub part_index: usize,
}

/// What the presentation must do after an undo.
#[derive(Clone, Copy, Debug, PartialEq, Eq, Structural)]
pub enum UndoEffect {
    /// The segment is gone.
    DespawnSnakePart(SnakePart),
    /// A food is back at the cell.
    SpawnFood(Cell),
    /// The snake is back in play.
    ActivateSnake(Entity),
}

/// Why an undo stopped: the history refers to an entity in a state it cannot be reverted from.
#[derive(Clone, Copy, Debug, PartialEq, Eq, Structural)]
pub enum UndoError {
    /// No movable of that handle and kind, a snake without segments, or cells out of range.
    InvalidEntity(LevelGridEntity),
}

/// The state that the history reverts: the level index and the movables.
pub struct SimState {
    pub level: Map<Cell, LevelGridEntity>,
    pub registry: RegistryView,
}

/// The opposite of a vector, when it has one in `i32`.
pub open spec fn can_negate(c: Cell) -> bool {
    c.x > i32::MIN && c.y > i32::MIN && c.z > i32::MIN
}

/// The opposite of a vector.
pub open spec fn negated(c: Cell) -> Cell {
    Cell { x: -c.x as i32, y: -c.y as i32, z: -c.z as i32 }
}

/// The entity state reverted for one history entry (the index deltas are reverted apart),
/// or `None` when the entry cannot be reverted.
pub open spec fn revert_entity(r: RegistryView, ev: SnakeHistoryEvent) -> Option<RegistryView> {
    let le = ev.level_entity;
    let e = le.entity;
    match ev.event {
        MoveHistoryEvent::PlayerSnakeMove => Some(r),
        MoveHistoryEvent::SnakeMoveForward(old_tail) => if r.snakes.dom().contains(e)
            && r.snakes[e].parts.len() > 0 {
            Some(with_parts(r, e, r.snakes[e].parts.drop_first().push(old_tail)))
        } else {
            None
        },
        MoveHistoryEvent::PassiveEntityMove(offset) => if can_negate(offset) && (movable_cells(
            r,
            le,
        ) is Some) && can_shift(movable_cells(r, le)->Some_0, negated(offset)) {
            Some(moved_movable(r, le, negated(offset)))
        } else {
            None
        },
        MoveHistoryEvent::BeginFall(begin) => if (movable_cells(r, le) is Some) && movable_cells(
            r,
            le,
        )->Some_0.len() == begin.positions@.len() {
            Some(placed_movable(r, le, begin.positions@))
        } else {
            None
        },
        MoveHistoryEvent::Grow => if r.snakes.dom().contains(e) && r.snakes[e].parts.len() > 0 {
            Some(with_parts(r, e, r.snakes[e].parts.drop_last()))
        } else {
            None
        },
        MoveHistoryEvent::Eat(_) => Some(r),
        MoveHistoryEvent::ExitLevel(_) => if r.snakes.dom().contains(e) {
            Some(with_active(r, e, true))
        } else {
            None
        },
    }
}

/// The level index reverted for one history entry: a completed fall reverts its landing
/// deltas first, then every entry reverts its own deltas.
pub open spec fn revert_level(m: Map<Cell, LevelGridEntity>, ev: SnakeHistoryEvent) -> Map<
    Cell,
    LevelGridEntity,
> {
    let m1 = match ev.event {
        MoveHistoryEvent::BeginFall(begin) => match begin.end {
            Some(end) => revert_updates(m, end.walkable_updates@),
            None => m,
        },
        _ => m,
    };
    revert_updates(m1, ev.walkable_updates@)
}

/// The state before one history entry, or `None` when it cannot be reverted.
pub open spec fn undo_event(s: SimState, ev: SnakeHistoryEvent) -> Option<SimState> {
    match revert_entity(s.registry, ev) {
        Some(r) => Some(SimState { level: revert_level(s.level, ev), registry: r }),
        None => None,
    }
}

/// What the presentation is told when one history entry is reverted.
pub open spec fn undo_effects(s: SimState, ev: SnakeHistoryEvent) -> Seq<UndoEffect> {
    match ev.event {
        MoveHistoryEvent::Grow => seq![
            UndoEffect::DespawnSnakePart(
                SnakePart {
                    snake_index: s.registry.snakes[ev.level_entity.entity].index,
                    part_index: (s.registry.snakes[ev.level_entity.entity].parts.len() - 1) as usize,
                },
            ),
        ],
        MoveHistoryEvent::Eat(p) => seq![UndoEffect::SpawnFood(p)],
        MoveHistoryEvent::ExitLevel(e) => seq![UndoEffect::ActivateSnake(e)],
        _ => Seq::empty(),
    }
}

/// Rolling back one player turn: entries are reverted from the newest down to the most
/// recent turn marker, which is removed too, or until the history is empty. Gives the state,
/// the history left, and the effects in the order they happened; `None` when an entry cannot
/// be reverted.
pub open spec fn undo_turn(s: SimState, h: Seq<SnakeHistoryEvent>) -> Option<
    (SimState, Seq<SnakeHistoryEvent>, Seq<UndoEffect>),
>
    decreases h.len(),
{
    if h.len() == 0 {
        Some((s, h, Seq::empty()))
    } else if h.last().event is PlayerSnakeMove {
        Some((s, h.drop_last(), Seq::empty()))
    } else {
        match undo_event(s, h.last()) {
            None => None,
            Some(s2) => match undo_turn(s2, h.drop_last()) {
                None => None,
                Some(t) => Some((t.0, t.1, undo_effects(s, h.last()) + t.2)),
            },
        }
    }
}

/// Where rolling back a turn stops when an entry cannot be reverted: the state once the
/// entries above it are reverted, and the history without them and without it. The entry
/// that cannot be reverted changes nothing.
pub open spec fn undo_stuck(s: SimState, h: Seq<SnakeHistoryEvent>) -> (SimState, Seq<SnakeHistoryEvent>)
    decreases h.len(),
{
    if h.len() == 0 || h.last().event is PlayerSnakeMove {
        (s, h)
    } else {
        match undo_event(s, h.last()) {
            None => (s, h.drop_last()),
            Some(s2) => undo_stuck(s2, h.drop_last()),
        }
    }
}

/// `t` with `fx` in front of its effects.
pub open spec fn after_effects(
    fx: Seq<UndoEffect>,
    t: Option<(SimState, Seq<SnakeHistoryEvent>, Seq<UndoEffect>)>,
) -> Option<(SimState, Seq<SnakeHistoryEvent>, Seq<UndoEffect>)> {
    match t {
        None => None,
        Some(t) => Some((t.0, t.1, fx + t.2)),
    }
}

/// The stack of history entries; the newest is last.
pub struct SnakeHistory {
    pub move_history: Vec<SnakeHistoryEvent>,
}

impl SnakeHistory {
    pub fn new() -> (r: SnakeHistory)
        ensures
            r.move_history@.len() == 0,
    {
        SnakeHistory { move_history: Vec::new() }
    }

    /// Appends an entry that carries no index delta.
    pub fn push(&mut self, event: MoveHistoryEvent, level_entity: LevelGridEntity)
        ensures
            final(self).move_history@.len() == old(self).move_history@.len() + 1,
            final(self).move_history@.drop_last() == old(self).move_history@,
            final(self).move_history@.last().event == event,
            final(self).move_history@.last().level_entity == level_entity,
            final(self).move_history@.last().walkable_updates@.len() == 0,
    {
        self.move_history.push(SnakeHistoryEvent { event, level_entity, walkable_updates: Vec::new() });
        assert(self.move_history@.drop_last() =~= old(self).move_history@);
    }

    /// Appends an entry with the index deltas that revert it.
    pub fn push_with_updates(
        &mut self,
        event: MoveHistoryEvent,
        level_entity: LevelGridEntity,
        walkable_updates: Vec<LevelEntityUpdateEvent>,
    )
        ensures
            final(self).move_history@ == old(self).move_history@.push(
                SnakeHistoryEvent { event, level_entity, walkable_updates },
            ),
    {
        self.move_history.push(SnakeHistoryEvent { event, level_entity, walkable_updates });
    }

    /// Empties the history, as when a level is loaded.
    pub fn clear(&mut self)
        ensures
            final(self).move_history@.len() == 0,
    {
        self.move_history.clear();
    }

    /// Rolls back one player turn against the level index and the movables, and returns what
    /// the presentation must do. With an empty history nothing changes. Stops with an error
    /// when an entry cannot be reverted.
    pub fn undo_last(&mut self, level: &mut LevelInstance, registry: &mut MovableRegistry) -> (r: Result<
        Vec<UndoEffect>,
        UndoError,
    >)
        requires
            old(registry).wf(),
        ensures
            final(registry).wf(),
            (r is Ok) == (undo_turn(
                SimState { level: old(level)@, registry: old(registry)@ },
                old(self).move_history@,
            ) is Some),
            r matches Ok(fx) ==> ({
                let t = undo_turn(
                    SimState { level: old(level)@, registry: old(registry)@ },
                    old(self).move_history@,
                )->Some_0;
                &&& final(level)@ == t.0.level
                &&& final(registry)@ == t.0.registry
                &&& final(self).move_history@ == t.1
                &&& fx@ == t.2
            }),
            r is Err ==> ({
                let t = undo_stuck(
                    SimState { level: old(level)@, registry: old(registry)@ },
                    old(self).move_history@,
                );
                &&& final(level)@ == t.0.level
                &&& final(registry)@ == t.0.registry
                &&& final(self).move_history@ == t.1
            }),
    {
        let ghost start = SimState { level: level@, registry: registry@ };
        let ghost h0 = self.move_history@;
        let mut effects: Vec<UndoEffect> = Vec::new();
        loop
            invariant
                registry.wf(),
                start == (SimState { level: old(level)@, registry: old(registry)@ }),
                h0 == old(self).move_history@,
                undo_turn(start, h0) is None ==> undo_stuck(
                    SimState { level: level@, registry: registry@ },
                    self.move_history@,
                ) == undo_stuck(start, h0),
                after_effects(
                    effects@,
                    undo_turn(SimState { level: level@, registry: registry@ }, self.move_history@),
                ) == undo_turn(start, h0),
            decreases self.move_history@.len(),
        {
            let ghost cur = SimState { level: level@, registry: registry@ };
            let ghost h = self.move_history@;
            let ghost eb = effects@;
            if self.move_history.len() == 0 {
                assert(undo_turn(cur, h) == Some((cur, h, Seq::<UndoEffect>::empty())));
                assert(effects@ + Seq::<UndoEffect>::empty() =~= effects@);
                assert(undo_turn(
                    start,
                    h0,
                ) is Some);
                return Ok(effects);
            }
            let top = self.move_history.pop().unwrap();
            assert(h.drop_last() =~= self.move_history@);
            let ghost fx = undo_effects(cur, top);
            let le = top.level_entity;
            let ok = match top.event {
                MoveHistoryEvent::PlayerSnakeMove => {
                    assert(h.last().event is PlayerSnakeMove);
                    assert(undo_turn(cur, h) == Some((cur, h.drop_last(), Seq::<UndoEffect>::empty())));
                    assert(effects@ + Seq::<UndoEffect>::empty() =~= effects@);
                    assert(undo_turn(
                        start,
                        h0,
                    ) is Some);
                    return Ok(effects);
                },
                MoveHistoryEvent::SnakeMoveForward(old_tail) => registry.snake_move_back(le.entity, old_tail),
                MoveHistoryEvent::PassiveEntityMove(offset) => {
                    if !(offset.x > i32::MIN && offset.y > i32::MIN && offset.z > i32::MIN) {
                        false
                    } else {
                        registry.translate(le, offset.neg())
                    }
                },
                MoveHistoryEvent::BeginFall(begin) => {
                    if !registry.set_positions(le, &begin.positions) {
                        false
                    } else {
                        if let Some(end) = begin.end {
                            level.undo_updates(&end.walkable_updates);
                        }
                        true
                    }
                },
                MoveHistoryEvent::Grow => {
                    match registry.get_snake(le.entity) {
                        Some(snake) => {
                            let len = snake.len();
                            if len == 0 {
                                false
                            } else {
                                let part = SnakePart { snake_index: snake.index(), part_index: len - 1 };
                                registry.snake_shrink(le.entity);
                                effects.push(UndoEffect::DespawnSnakePart(part));
                                true
                            }
                        },
                        None => false,
                    }
                },
                MoveHistoryEvent::Eat(position) => {
                    effects.push(UndoEffect::SpawnFood(position));
                    true
                },
                MoveHistoryEvent::ExitLevel(snake_entity) => {
                    if registry.set_snake_active(le.entity, true) {
                        effects.push(UndoEffect::ActivateSnake(snake_entity));
                        true
                    } else {
                        false
                    }
                },
            };
            if !ok {
                assert(undo_event(cur, top) is None);
                assert(level@ == cur.level && registry@ == cur.registry);
                assert(undo_stuck(cur, h) == (cur, h.drop_last()));
                assert(undo_turn(cur, h) is None);
                assert(undo_turn(
                    start,
                    h0,
                ) is None);
                return Err(UndoError::InvalidEntity(le));
            }
            level.undo_updates(&top.walkable_updates);
            proof {
                let s2 = SimState { level: level@, registry: registry@ };
                assert(undo_event(cur, top) == Some(s2));
                assert(effects@ =~= eb + fx);
                match undo_turn(s2, self.move_history@) {
                    Some(t) => {
                        assert(eb + (fx + t.2) =~= (eb + fx) + t.2);
                    },
                    None => {},
                }
            }
        }
    }
}

/// Undoing with an empty history changes nothing and tells the presentation nothing.
pub proof fn lemma_undo_empty_history(s: SimState)
    ensures
        undo_turn(s, Seq::empty()) == Some((s, Seq::<SnakeHistoryEvent>::empty(), Seq::<UndoEffect>::empty())),
{
}

} // verus!
