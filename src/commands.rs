//! The command layer: the only way to change the level index, the movables and the history
//! together, so that every change is recorded with what reverts it.
use crate::grid::{
    can_add, can_sub, cell_add, cell_sub, is_direction, Cell, Entity, EntityType,
    LevelEntityUpdateEvent, LevelGridEntity,
};
use crate::level_entities::{can_shift, shifted, GridEntity};
use crate::level_instance::{
    cells_distinct, clear_updates, cleared, fill_updates, filled, lemma_cleared, lemma_filled,
    lemma_revert_clears, lemma_revert_concat, lemma_revert_fill_step, lemma_revert_filled,
    lemma_revert_move, lemma_revert_one, fill_step, fill_updates_newest_first, lemma_shifted_distinct,
    shift_positions,
    revert_updates, reversed, LevelInstance,
};
use crate::registry::{
    cells_can_shift, movable_cells, moved_movable, placed_movable, placed_parts, with_active,
    with_parts, MovableRegistry, SnakeState,
};
use crate::snake::{element_cells, grown, moved_forward, shifted_parts, SnakeElement};
use crate::undo::{
    after_effects, negated, undo_effects, undo_event, undo_stuck, undo_turn, BeginFall, EndFall,
    MoveHistoryEvent, SimState, SnakeHistory, SnakeHistoryEvent, SnakePart, UndoEffect, UndoError,
};
use vstd::prelude::*;

verus! {

/// What a history entry records, with its deltas as a sequence.
pub struct EntryView {
    pub event: MoveHistoryEvent,
    pub level_entity: LevelGridEntity,
    pub updates: Seq<LevelEntityUpdateEvent>,
}

/// The view of a history entry.
pub open spec fn entry_view(e: SnakeHistoryEvent) -> EntryView {
    EntryView { event: e.event, level_entity: e.level_entity, updates: e.walkable_updates@ }
}

/// The views of a list of history entries.
pub open spec fn entry_views(h: Seq<SnakeHistoryEvent>) -> Seq<EntryView> {
    h.map_values(|e: SnakeHistoryEvent| entry_view(e))
}

/// Why a command could not be carried out: the state contradicts the command.
#[derive(Clone, Copy, Debug, PartialEq, Eq, Structural)]
pub enum CommandError {
    /// The movable is not registered, has no segment, overlaps itself, or a cell it should
    /// leave is not recorded as occupied.
    InvalidEntity(LevelGridEntity),
    /// A cell would leave the range of `i32`.
    OutOfRange,
    /// A food cell to eat is not occupied.
    MissingFood(Cell),
    /// No open fall of the entity is recorded.
    NoOpenFall(Entity),
}

/// One player move: the snake that acts, where it goes, what it pushes and what it eats.
#[derive(Clone, Copy, Debug, PartialEq, Eq, Structural)]
pub struct PlayerMoveCommand {
    pub entity: Entity,
    pub direction: Cell,
    pub pushed_entity: Option<LevelGridEntity>,
    pub food: Option<GridEntity>,
}

/// The occupant recorded for a cell of snake `e`.
pub open spec fn snake_occupant(e: Entity) -> LevelGridEntity {
    LevelGridEntity { entity: e, entity_type: EntityType::Snake }
}

/// The push of a move can be carried out: the pushed movable is not the acting snake, is
/// registered, its cells are distinct and all recorded in the index, and moving them does not
/// overflow.
pub open spec fn push_ok(s: SimState, cmd: PlayerMoveCommand) -> bool {
    match cmd.pushed_entity {
        None => true,
        Some(p) => p != snake_occupant(cmd.entity) && movable_cells(s.registry, p) is Some && movable_cells(
            s.registry,
            p,
        )->Some_0.no_duplicates() && (forall|i: int|
            0 <= i < movable_cells(s.registry, p)->Some_0.len() ==> s.level.dom().contains(
                #[trigger] movable_cells(s.registry, p)->Some_0[i],
            )) && can_shift(movable_cells(s.registry, p)->Some_0, cmd.direction),
    }
}

/// The state after the push of a move.
pub open spec fn push_stage(s: SimState, cmd: PlayerMoveCommand) -> SimState {
    match cmd.pushed_entity {
        None => s,
        Some(p) => SimState {
            level: filled(
                cleared(s.level, movable_cells(s.registry, p)->Some_0),
                shifted(movable_cells(s.registry, p)->Some_0, cmd.direction),
                p,
            ),
            registry: moved_movable(s.registry, p, cmd.direction),
        },
    }
}

/// The food of a move, if any, is recorded in the index.
pub open spec fn eat_ok(s: SimState, cmd: PlayerMoveCommand) -> bool {
    match cmd.food {
        None => true,
        Some(f) => s.level.dom().contains(f.position),
    }
}

/// The state after the food of a move is eaten.
pub open spec fn eat_stage(s: SimState, cmd: PlayerMoveCommand) -> SimState {
    match cmd.food {
        None => s,
        Some(f) => SimState { level: s.level.remove(f.position), registry: s.registry },
    }
}

/// The acting snake can step forward: it is registered, has a segment, its tail cell is
/// recorded, and its new head does not overflow and is not its tail cell.
pub open spec fn walk_ok(s: SimState, cmd: PlayerMoveCommand) -> bool {
    &&& s.registry.snakes.dom().contains(cmd.entity)
    &&& s.registry.snakes[cmd.entity].parts.len() > 0
    &&& s.level.dom().contains(s.registry.snakes[cmd.entity].parts.last().0)
    &&& can_add(s.registry.snakes[cmd.entity].parts[0].0, cmd.direction)
    &&& cell_add(s.registry.snakes[cmd.entity].parts[0].0, cmd.direction)
        != s.registry.snakes[cmd.entity].parts.last().0
}

/// The state after the acting snake steps forward.
pub open spec fn walk_stage(s: SimState, cmd: PlayerMoveCommand) -> SimState {
    let parts = s.registry.snakes[cmd.entity].parts;
    SimState {
        level: s.level.remove(parts.last().0).insert(
            cell_add(parts[0].0, cmd.direction),
            snake_occupant(cmd.entity),
        ),
        registry: with_parts(s.registry, cmd.entity, moved_forward(parts, cmd.direction)),
    }
}

/// The snake can grow behind its tail without overflow (or eats nothing).
pub open spec fn grow_ok(s: SimState, cmd: PlayerMoveCommand) -> bool {
    cmd.food is None || can_sub(
        s.registry.snakes[cmd.entity].parts.last().0,
        s.registry.snakes[cmd.entity].parts.last().1,
    )
}

/// The cell a growing snake fills: one step behind its tail.
pub open spec fn grow_cell(s: SimState, e: Entity) -> Cell {
    cell_sub(s.registry.snakes[e].parts.last().0, s.registry.snakes[e].parts.last().1)
}

/// The state after the snake grows, when it ate.
pub open spec fn grow_stage(s: SimState, cmd: PlayerMoveCommand) -> SimState {
    if cmd.food is Some {
        SimState {
            level: s.level.insert(grow_cell(s, cmd.entity), snake_occupant(cmd.entity)),
            registry: with_parts(s.registry, cmd.entity, grown(s.registry.snakes[cmd.entity].parts)),
        }
    } else {
        s
    }
}

/// A move can be carried out from `s`.
pub open spec fn move_ok(s: SimState, cmd: PlayerMoveCommand) -> bool {
    let s1 = push_stage(s, cmd);
    let s2 = eat_stage(s1, cmd);
    let s3 = walk_stage(s2, cmd);
    &&& push_ok(s, cmd)
    &&& eat_ok(s1, cmd)
    &&& walk_ok(s2, cmd)
    &&& grow_ok(s3, cmd)
}

/// The state after a move.
pub open spec fn executed(s: SimState, cmd: PlayerMoveCommand) -> SimState {
    grow_stage(walk_stage(eat_stage(push_stage(s, cmd), cmd), cmd), cmd)
}

/// The turn marker that opens a move.
pub open spec fn marker_entries(cmd: PlayerMoveCommand) -> Seq<EntryView> {
    seq![
        EntryView {
            event: MoveHistoryEvent::PlayerSnakeMove,
            level_entity: snake_occupant(cmd.entity),
            updates: Seq::empty(),
        },
    ]
}

/// The entry of the push of a move, from the state before the push.
pub open spec fn push_entries(s: SimState, cmd: PlayerMoveCommand) -> Seq<EntryView> {
    match cmd.pushed_entity {
        None => Seq::empty(),
        Some(p) => seq![
            EntryView {
                event: MoveHistoryEvent::PassiveEntityMove(cmd.direction),
                level_entity: p,
                updates: fill_updates_newest_first(
                    cleared(s.level, movable_cells(s.registry, p)->Some_0),
                    shifted(movable_cells(s.registry, p)->Some_0, cmd.direction),
                    p,
                ) + reversed(clear_updates(s.level, movable_cells(s.registry, p)->Some_0)),
            },
        ],
    }
}

/// The entry of the meal of a move, from the state before the meal.
pub open spec fn eat_entries(s: SimState, cmd: PlayerMoveCommand) -> Seq<EntryView> {
    match cmd.food {
        None => Seq::empty(),
        Some(f) => seq![
            EntryView {
                event: MoveHistoryEvent::Eat(f.position),
                level_entity: LevelGridEntity { entity: cmd.entity, entity_type: EntityType::Food },
                updates: seq![LevelEntityUpdateEvent::ClearPosition(f.position, s.level[f.position])],
            },
        ],
    }
}

/// The entry of the step forward of a move, from the state before the step.
pub open spec fn walk_entries(s: SimState, cmd: PlayerMoveCommand) -> Seq<EntryView> {
    let parts = s.registry.snakes[cmd.entity].parts;
    seq![
        EntryView {
            event: MoveHistoryEvent::SnakeMoveForward(parts.last()),
            level_entity: snake_occupant(cmd.entity),
            updates: seq![LevelEntityUpdateEvent::ClearPosition(parts.last().0, s.level[parts.last().0])]
                + fill_step(s.level.remove(parts.last().0), cell_add(parts[0].0, cmd.direction)),
        },
    ]
}

/// The entry of the growth of a move, from the state before the growth.
pub open spec fn grow_entries(s: SimState, cmd: PlayerMoveCommand) -> Seq<EntryView> {
    match cmd.food {
        None => Seq::empty(),
        Some(f) => seq![
            EntryView {
                event: MoveHistoryEvent::Grow,
                level_entity: snake_occupant(cmd.entity),
                updates: fill_step(s.level, grow_cell(s, cmd.entity)),
            },
        ],
    }
}

/// The history entries a move records, its turn marker first.
pub open spec fn move_entries(s: SimState, cmd: PlayerMoveCommand) -> Seq<EntryView> {
    let s1 = push_stage(s, cmd);
    let s2 = eat_stage(s1, cmd);
    let s3 = walk_stage(s2, cmd);
    marker_entries(cmd) + push_entries(s, cmd) + eat_entries(s1, cmd) + walk_entries(s2, cmd)
        + grow_entries(s3, cmd)
}

/// The level index, the history and the movables of a level in play.
pub struct SnakeCommands {
    level_instance: LevelInstance,
    history: SnakeHistory,
    movables: MovableRegistry,
}

impl SnakeCommands {
    pub closed spec fn wf(&self) -> bool {
        self.movables.wf()
    }

    /// The level index and the movables.
    pub closed spec fn state(&self) -> SimState {
        SimState { level: self.level_instance@, registry: self.movables@ }
    }

    /// The history entries, oldest first.
    pub closed spec fn entries(&self) -> Seq<SnakeHistoryEvent> {
        self.history.move_history@
    }

    /// Takes charge of a loaded level; the history starts empty.
    pub fn new(level_instance: LevelInstance, movables: MovableRegistry) -> (r: SnakeCommands)
        requires
            movables.wf(),
        ensures
            r.wf(),
            r.state() == (SimState { level: level_instance@, registry: movables@ }),
            r.entries().len() == 0,
    {
        SnakeCommands { level_instance, history: SnakeHistory::new(), movables }
    }

    pub fn level_instance(&self) -> (r: &LevelInstance)
        ensures
            r@ == self.state().level,
    {
        &self.level_instance
    }

    pub fn movables(&self) -> (r: &MovableRegistry)
        ensures
            r@ == self.state().registry,
            self.wf() ==> r.wf(),
    {
        &self.movables
    }

    pub fn history(&self) -> (r: &SnakeHistory)
        ensures
            r.move_history@ == self.entries(),
    {
        &self.history
    }

    /// Starts a player move of snake `entity` along `direction`.
    pub fn player_move(&self, entity: Entity, direction: Cell) -> (r: PlayerMoveCommand)
        ensures
            r == (PlayerMoveCommand { entity, direction, pushed_entity: None, food: None }),
    {
        PlayerMoveCommand { entity, direction, pushed_entity: None, food: None }
    }
}

/// The cells a fall started from, and its landing deltas once completed.
pub open spec fn begin_fall_of(ev: MoveHistoryEvent) -> Option<
    (Seq<Cell>, Option<Seq<LevelEntityUpdateEvent>>),
> {
    match ev {
        MoveHistoryEvent::BeginFall(b) => Some(
            (
                b.positions@,
                match b.end {
                    Some(x) => Some(x.walkable_updates@),
                    None => None,
                },
            ),
        ),
        _ => None,
    }
}

/// An entry of `e` that starts a fall not yet completed.
pub open spec fn is_open_fall(ev: SnakeHistoryEvent, e: Entity) -> bool {
    &&& ev.level_entity.entity == e
    &&& begin_fall_of(ev.event) is Some
    &&& begin_fall_of(ev.event)->Some_0.1 is None
}

/// The position of the most recent open fall of `e` in `h`.
pub open spec fn last_open_fall(h: Seq<SnakeHistoryEvent>, e: Entity) -> Option<int>
    decreases h.len(),
{
    if h.len() == 0 {
        None
    } else if is_open_fall(h.last(), e) {
        Some(h.len() - 1)
    } else {
        last_open_fall(h.drop_last(), e)
    }
}

/// `h1` is `h0` with the most recent open fall of `e` completed by the deltas `u`.
pub open spec fn fall_closed(
    h0: Seq<SnakeHistoryEvent>,
    h1: Seq<SnakeHistoryEvent>,
    e: Entity,
    u: Seq<LevelEntityUpdateEvent>,
) -> bool {
    let i = last_open_fall(h0, e)->Some_0;
    &&& h1.len() == h0.len()
    &&& forall|j: int| 0 <= j < h0.len() && j != i ==> #[trigger] h1[j] == h0[j]
    &&& h1[i].level_entity == h0[i].level_entity
    &&& h1[i].walkable_updates == h0[i].walkable_updates
    &&& begin_fall_of(h1[i].event) == Some((begin_fall_of(h0[i].event)->Some_0.0, Some(u)))
}

proof fn lemma_last_open_fall_bounds(h: Seq<SnakeHistoryEvent>, e: Entity)
    ensures
        last_open_fall(h, e) matches Some(i) ==> 0 <= i < h.len() && is_open_fall(h[i], e),
    decreases h.len(),
{
    if h.len() > 0 && !is_open_fall(h.last(), e) {
        lemma_last_open_fall_bounds(h.drop_last(), e);
    }
}

/// The cells of a movable can be emptied: it is registered, and its cells are distinct and
/// all recorded in the index.
pub open spec fn cells_clearable(s: SimState, e: LevelGridEntity) -> bool {
    &&& movable_cells(s.registry, e) is Some
    &&& movable_cells(s.registry, e)->Some_0.no_duplicates()
    &&& forall|i: int|
        0 <= i < movable_cells(s.registry, e)->Some_0.len() ==> s.level.dom().contains(
            #[trigger] movable_cells(s.registry, e)->Some_0[i],
        )
}

/// `ev` starts a fall of `e` from the cells `ps`, completed by the deltas `end`, and empties
/// those cells from `m`.
pub open spec fn is_fall_entry(
    ev: SnakeHistoryEvent,
    e: LevelGridEntity,
    m: Map<Cell, LevelGridEntity>,
    ps: Seq<Cell>,
    end: Option<Seq<LevelEntityUpdateEvent>>,
) -> bool {
    &&& ev.level_entity == e
    &&& ev.walkable_updates@ == clear_updates(m, ps)
    &&& begin_fall_of(ev.event) == Some((ps, end))
}

/// The state after snake `e` leaves through the goal: out of play, and out of the index
/// unless it was falling.
pub open spec fn exited(s: SimState, e: Entity, falling: bool) -> SimState {
    SimState {
        level: if falling {
            s.level
        } else {
            cleared(s.level, element_cells(s.registry.snakes[e].parts))
        },
        registry: with_active(s.registry, e, false),
    }
}

/// The history entry of snake `e` leaving through the goal.
pub open spec fn exit_entry(s: SimState, e: Entity, falling: bool) -> EntryView {
    EntryView {
        event: MoveHistoryEvent::ExitLevel(e),
        level_entity: snake_occupant(e),
        updates: if falling {
            Seq::empty()
        } else {
            clear_updates(s.level, element_cells(s.registry.snakes[e].parts))
        },
    }
}

impl SnakeCommands {
    /// Takes a snake out of play through the goal. Its cells are emptied, unless it is falling
    /// (a falling snake has none in the index); the entry records what reverts this.
    pub fn exit_level(&mut self, entity: Entity, falling: bool) -> (r: Result<(), CommandError>)
        requires
            old(self).wf(),
        ensures
            final(self).wf(),
            (r is Ok) == (old(self).state().registry.snakes.dom().contains(entity) && (falling
                || cells_clearable(old(self).state(), snake_occupant(entity)))),
            r is Ok ==> final(self).state() == exited(old(self).state(), entity, falling),
            r is Ok ==> final(self).entries().drop_last() == old(self).entries(),
            r is Ok ==> entry_view(final(self).entries().last()) == exit_entry(
                old(self).state(),
                entity,
                falling,
            ),
            r is Err ==> final(self).state() == old(self).state() && final(self).entries()
                == old(self).entries(),
    {
        let occupant = LevelGridEntity::new(entity, EntityType::Snake);
        if !self.movables.contains(occupant) {
            return Err(CommandError::InvalidEntity(occupant));
        }
        let cells = self.movables.get(occupant);
        let updates = if falling {
            Vec::new()
        } else {
            if !cells_distinct(&cells) || !self.level_instance.all_occupied(&cells) {
                return Err(CommandError::InvalidEntity(occupant));
            }
            self.level_instance.clear_posisitons(cells.as_slice())
        };
        self.movables.set_snake_active(entity, false);
        self.history.push_with_updates(MoveHistoryEvent::ExitLevel(entity), occupant, updates);
        proof {
            let h = self.entries();
            assert(h.drop_last() =~= old(self).entries());
            if falling {
                assert(h.last().walkable_updates@ =~= Seq::<LevelEntityUpdateEvent>::empty());
            }
        }
        Ok(())
    }

    /// Starts a fall of a movable: its cells are emptied, and an open fall entry records
    /// them.
    pub fn start_falling(&mut self, entity: LevelGridEntity) -> (r: Result<(), CommandError>)
        requires
            old(self).wf(),
        ensures
            final(self).wf(),
            (r is Ok) == cells_clearable(old(self).state(), entity),
            r is Ok ==> final(self).state() == (SimState {
                level: cleared(old(self).state().level, movable_cells(old(self).state().registry, entity)->Some_0),
                registry: old(self).state().registry,
            }),
            r is Ok ==> final(self).entries().drop_last() == old(self).entries(),
            r is Ok ==> is_fall_entry(
                final(self).entries().last(),
                entity,
                old(self).state().level,
                movable_cells(old(self).state().registry, entity)->Some_0,
                None,
            ),
    {
        if !self.movables.contains(entity) {
            return Err(CommandError::InvalidEntity(entity));
        }
        let cells = self.movables.get(entity);
        if !cells_distinct(&cells) || !self.level_instance.all_occupied(&cells) {
            return Err(CommandError::InvalidEntity(entity));
        }
        let updates = self.level_instance.clear_posisitons(cells.as_slice());
        self.history.push_with_updates(
            MoveHistoryEvent::BeginFall(BeginFall { positions: cells, end: None }),
            entity,
            updates,
        );
        proof {
            assert(self.entries().drop_last() =~= old(self).entries());
        }
        Ok(())
    }

    /// Moves a falling movable one cell down. The index is not touched: a falling movable has
    /// no cell there.
    pub fn fall_one_unit(&mut self, entity: LevelGridEntity) -> (r: Result<(), CommandError>)
        requires
            old(self).wf(),
        ensures
            final(self).wf(),
            (r is Ok) == ((movable_cells(old(self).state().registry, entity) is Some) && can_shift(
                movable_cells(old(self).state().registry, entity)->Some_0,
                Cell { x: 0, y: -1i32, z: 0 },
            )),
            r is Ok ==> final(self).state() == (SimState {
                level: old(self).state().level,
                registry: moved_movable(old(self).state().registry, entity, Cell { x: 0, y: -1i32, z: 0 }),
            }),
            r is Err ==> final(self).state() == old(self).state(),
            final(self).entries() == old(self).entries(),
    {
        if self.movables.translate(entity, Cell::down()) {
            Ok(())
        } else {
            Err(CommandError::OutOfRange)
        }
    }

    /// Finds the most recent open fall of `entity`, if any.
    fn find_open_fall(&self, entity: Entity) -> (r: Option<usize>)
        ensures
            r matches Some(i) ==> last_open_fall(self.entries(), entity) == Some(i as int),
            r is None ==> last_open_fall(self.entries(), entity) is None,
    {
        let h = &self.history.move_history;
        let mut i: usize = h.len();
        proof {
            assert(h@.take(h@.len() as int) =~= h@);
        }
        while i > 0
            invariant
                i <= h@.len(),
                h@ == self.entries(),
                last_open_fall(h@, entity) == last_open_fall(h@.take(i as int), entity),
            decreases i,
        {
            let ghost t = h@.take(i as int);
            assert(t.last() == h@[i - 1]);
            assert(t.drop_last() =~= h@.take(i - 1));
            let ev = &h[i - 1];
            let open = ev.level_entity.entity == entity && match &ev.event {
                MoveHistoryEvent::BeginFall(b) => b.end.is_none(),
                _ => false,
            };
            if open {
                return Some(i - 1);
            }
            i -= 1;
        }
        None
    }

    /// Completes the most recent open fall of `entity` with the deltas `updates`.
    fn close_fall(&mut self, i: usize, updates: Vec<LevelEntityUpdateEvent>)
        requires
            i < old(self).entries().len(),
            old(self).entries()[i as int].event is BeginFall,
        ensures
            final(self).state() == old(self).state(),
            final(self).movables == old(self).movables,
            final(self).entries().len() == old(self).entries().len(),
            forall|j: int|
                0 <= j < old(self).entries().len() && j != i ==> #[trigger] final(self).entries()[j]
                    == old(self).entries()[j],
            final(self).entries()[i as int].level_entity == old(self).entries()[i as int].level_entity,
            final(self).entries()[i as int].walkable_updates == old(self).entries()[i as int].walkable_updates,
            begin_fall_of(final(self).entries()[i as int].event) == Some(
                (begin_fall_of(old(self).entries()[i as int].event)->Some_0.0, Some(updates@)),
            ),
    {
        match &mut self.history.move_history[i].event {
            MoveHistoryEvent::BeginFall(begin) => {
                begin.end = Some(EndFall { walkable_updates: updates });
            },
            _ => {},
        }
    }

    /// Ends the fall of a movable that landed: its cells are filled again, and the deltas
    /// complete its most recent open fall entry, so that one undo reverts the whole fall.
    ///
    /// The movable must be registered and have an open fall: a landing without a fall start
    /// is a logic error (see `has_open_fall`).
    pub fn stop_falling(&mut self, entity: LevelGridEntity)
        requires
            old(self).wf(),
            movable_cells(old(self).state().registry, entity) is Some,
            last_open_fall(old(self).entries(), entity.entity) is Some,
        ensures
            final(self).wf(),
            final(self).state() == (SimState {
                level: filled(
                    old(self).state().level,
                    movable_cells(old(self).state().registry, entity)->Some_0,
                    entity,
                ),
                registry: old(self).state().registry,
            }),
            fall_closed(
                old(self).entries(),
                final(self).entries(),
                entity.entity,
                fill_updates(
                    old(self).state().level,
                    movable_cells(old(self).state().registry, entity)->Some_0,
                    entity,
                ),
            ),
    {
        let cells = self.movables.get(entity);
        let i = self.find_open_fall(entity.entity).unwrap();
        proof {
            lemma_last_open_fall_bounds(self.entries(), entity.entity);
        }
        let updates = self.level_instance.mark_entity_positions(cells.as_slice(), entity);
        self.close_fall(i, updates);
    }

    /// Ends the fall of a movable that landed on spikes: its most recent open fall entry is
    /// completed with no delta, ready to be undone. The index is not touched.
    ///
    /// The entity must have an open fall: ending a fall that never started is a logic error
    /// (see `has_open_fall`).
    pub fn stop_falling_on_spikes(&mut self, entity: Entity)
        requires
            old(self).wf(),
            last_open_fall(old(self).entries(), entity) is Some,
        ensures
            final(self).wf(),
            final(self).state() == old(self).state(),
            fall_closed(old(self).entries(), final(self).entries(), entity, Seq::empty()),
    {
        let i = self.find_open_fall(entity).unwrap();
        proof {
            lemma_last_open_fall_bounds(self.entries(), entity);
        }
        self.close_fall(i, Vec::new());
    }

    /// Whether `entity` has a fall under way in the history.
    pub fn has_open_fall(&self, entity: Entity) -> (r: bool)
        ensures
            r == (last_open_fall(self.entries(), entity) is Some),
    {
        self.find_open_fall(entity).is_some()
    }

    /// Rolls back one player turn; see `SnakeHistory::undo_last`.
    pub fn undo(&mut self) -> (r: Result<Vec<UndoEffect>, UndoError>)
        requires
            old(self).wf(),
        ensures
            final(self).wf(),
            (r is Ok) == (undo_turn(old(self).state(), old(self).entries()) is Some),
            r matches Ok(fx) ==> ({
                let t = undo_turn(old(self).state(), old(self).entries())->Some_0;
                &&& final(self).state() == t.0
                &&& final(self).entries() == t.1
                &&& fx@ == t.2
            }),
            r is Err ==> final(self).state() == undo_stuck(old(self).state(), old(self).entries()).0
                && final(self).entries() == undo_stuck(old(self).state(), old(self).entries()).1,
    {
        self.history.undo_last(&mut self.level_instance, &mut self.movables)
    }

    /// Empties the history, as when a level is loaded again.
    pub fn clear_history(&mut self)
        requires
            old(self).wf(),
        ensures
            final(self).wf(),
            final(self).state() == old(self).state(),
            final(self).entries().len() == 0,
    {
        self.history.clear();
    }
}

impl PlayerMoveCommand {
    /// The same move, pushing `movable`.
    pub fn pushing_entity(self, movable: Option<LevelGridEntity>) -> (r: PlayerMoveCommand)
        ensures
            r == (PlayerMoveCommand { pushed_entity: movable, ..self }),
    {
        PlayerMoveCommand { pushed_entity: movable, ..self }
    }

    /// The same move, eating `food`.
    pub fn eating_food(self, food: Option<GridEntity>) -> (r: PlayerMoveCommand)
        ensures
            r == (PlayerMoveCommand { food, ..self }),
    {
        PlayerMoveCommand { food, ..self }
    }
}

/// True when `c` is one of the cells of `ps`.
pub fn cells_contain(ps: &Vec<Cell>, c: Cell) -> (r: bool)
    ensures
        r == ps@.contains(c),
{
    let mut i: usize = 0;
    while i < ps.len()
        invariant
            i <= ps@.len(),
            forall|j: int| 0 <= j < i ==> ps@[j] != c,
        decreases ps@.len() - i,
    {
        if ps[i] == c {
            assert(ps@[i as int] == c);
            return true;
        }
        i += 1;
    }
    false
}

impl PlayerMoveCommand {
    /// Whether `x` is recorded in the index once the push of the move is done.
    fn recorded_after_push(&self, commands: &SnakeCommands, pushed: &Option<(Vec<Cell>, Vec<Cell>)>, x: Cell) -> (r: bool)
        requires
            push_ok(commands.state(), *self),
            pushed is Some == self.pushed_entity is Some,
            pushed matches Some(v) ==> v.0@ == movable_cells(commands.state().registry, self.pushed_entity->Some_0)->Some_0
                && v.1@ == shifted(v.0@, self.direction),
        ensures
            r == push_stage(commands.state(), *self).level.dom().contains(x),
    {
        match pushed {
            None => !commands.level_instance.is_empty(x),
            Some(v) => {
                proof {
                    lemma_cleared(commands.state().level, v.0@, x);
                    lemma_filled(cleared(commands.state().level, v.0@), v.1@, self.pushed_entity->Some_0, x);
                }
                cells_contain(&v.1, x) || (!cells_contain(&v.0, x) && !commands.level_instance.is_empty(x))
            },
        }
    }

    /// Whether the move can be carried out, as `move_ok` states, and else why not.
    pub fn check(&self, commands: &SnakeCommands) -> (r: Result<(), CommandError>)
        requires
            commands.wf(),
        ensures
            (r is Ok) == move_ok(commands.state(), *self),
    {
        let ghost s = commands.state();
        let entity = self.entity;
        let direction = self.direction;
        let occupant = LevelGridEntity::new(entity, EntityType::Snake);
        let pushed: Option<(Vec<Cell>, Vec<Cell>)> = match self.pushed_entity {
            None => None,
            Some(p) => {
                if p == occupant {
                    return Err(CommandError::InvalidEntity(p));
                }
                if !commands.movables.contains(p) {
                    return Err(CommandError::InvalidEntity(p));
                }
                let cells = commands.movables.get(p);
                if !cells_distinct(&cells) || !commands.level_instance.all_occupied(&cells) {
                    return Err(CommandError::InvalidEntity(p));
                }
                if !cells_can_shift(&cells, direction) {
                    return Err(CommandError::OutOfRange);
                }
                let moved = shift_positions(&cells, direction);
                Some((cells, moved))
            },
        };
        assert(push_ok(s, *self));
        let ghost s1 = push_stage(s, *self);
        if let Some(food) = self.food {
            if !self.recorded_after_push(commands, &pushed, food.position) {
                return Err(CommandError::MissingFood(food.position));
            }
        }
        assert(eat_ok(s1, *self));
        let ghost s2 = eat_stage(s1, *self);
        assert(s2.registry.snakes.dom() == s.registry.snakes.dom());
        assert(s2.registry.snakes.dom().contains(entity) ==> s2.registry.snakes[entity] == s.registry.snakes[entity]);
        let snake = match commands.movables.get_snake(entity) {
            Some(snake) => snake,
            None => return Err(CommandError::InvalidEntity(occupant)),
        };
        if snake.len() == 0 {
            return Err(CommandError::InvalidEntity(occupant));
        }
        let tail = snake.tail_position();
        let tail_recorded = self.recorded_after_push(commands, &pushed, tail) && match self.food {
            Some(food) => food.position != tail,
            None => true,
        };
        if !tail_recorded {
            return Err(CommandError::InvalidEntity(occupant));
        }
        let head = match snake.head_position().checked_add(direction) {
            Some(h) => h,
            None => return Err(CommandError::OutOfRange),
        };
        if head == tail {
            return Err(CommandError::InvalidEntity(occupant));
        }
        assert(walk_ok(s2, *self));
        let ghost s3 = walk_stage(s2, *self);
        if self.food.is_some() {
            let len = snake.len();
            let last = if len >= 2 {
                snake.get_part(len - 2)
            } else {
                (head, direction)
            };
            proof {
                let q = moved_forward(snake@, direction);
                assert(s3.registry.snakes[entity].parts == q);
                if len >= 2 {
                    assert(q.last() == snake@[len - 2]);
                } else {
                    assert(q.last() == (head, direction));
                }
            }
            if last.0.checked_sub(last.1).is_none() {
                return Err(CommandError::OutOfRange);
            }
        }
        Ok(())
    }

    /// Carries out the move as one turn: a turn marker, then the push, the meal, the step
    /// forward and the growth, each changing the index and the movables and recording its
    /// history entry. Fails, leaving the turn unfinished, when the state contradicts the move.
    pub fn execute(&self, commands: &mut SnakeCommands) -> (r: Result<(), CommandError>)
        requires
            old(commands).wf(),
        ensures
            final(commands).wf(),
            (r is Ok) == move_ok(old(commands).state(), *self),
            r is Ok ==> final(commands).state() == executed(old(commands).state(), *self),
            r is Ok ==> final(commands).entries().len() == old(commands).entries().len()
                + move_entries(old(commands).state(), *self).len(),
            r is Ok ==> final(commands).entries().take(old(commands).entries().len() as int)
                == old(commands).entries(),
            r is Ok ==> entry_views(
                final(commands).entries().skip(old(commands).entries().len() as int),
            ) == move_entries(old(commands).state(), *self),
            r is Err ==> final(commands).state() == old(commands).state() && final(commands).entries()
                == old(commands).entries(),
    {
        match self.check(commands) {
            Ok(()) => {},
            Err(e) => return Err(e),
        }
        let ghost s0 = commands.state();
        let ghost h0 = commands.entries();
        let entity = self.entity;
        let direction = self.direction;
        commands.history.push(MoveHistoryEvent::PlayerSnakeMove, LevelGridEntity::new(entity, EntityType::Snake));
        let ghost hm = commands.entries();
        let ghost k = h0.len();
        assert(hm.len() == k + 1);
        assert(hm[k as int] == hm.last());
        assert(hm[k as int].walkable_updates@ =~= Seq::<LevelEntityUpdateEvent>::empty());
        assert(entry_view(hm[k as int]) == marker_entries(*self)[0]);
        assert(entry_views(hm.skip(k as int)) =~= marker_entries(*self));
        assert(hm.take(k as int) =~= h0);
        // The pushed movable goes first, so that the cell ahead of the snake is freed.
        if let Some(p) = self.pushed_entity {
            if !commands.movables.contains(p) {
                return Err(CommandError::InvalidEntity(p));
            }
            let cells = commands.movables.get(p);
            if !cells_distinct(&cells) || !commands.level_instance.all_occupied(&cells) {
                return Err(CommandError::InvalidEntity(p));
            }
            if !cells_can_shift(&cells, direction) {
                return Err(CommandError::OutOfRange);
            }
            let updates = commands.level_instance.move_cells(&cells, p, direction);
            commands.movables.translate(p, direction);
            commands.history.push_with_updates(MoveHistoryEvent::PassiveEntityMove(direction), p, updates);
        }
        let ghost s1 = commands.state();
        let ghost h1 = commands.entries();
        assert(s1 == push_stage(s0, *self));
        assert(entry_views(h1.skip(k as int)) =~= marker_entries(*self) + push_entries(s0, *self));
        if let Some(food) = self.food {
            if commands.level_instance.is_empty(food.position) {
                return Err(CommandError::MissingFood(food.position));
            }
            let updates = commands.level_instance.eat_food(food.position);
            commands.history.push_with_updates(
                MoveHistoryEvent::Eat(food.position),
                LevelGridEntity::new(entity, EntityType::Food),
                updates,
            );
        }
        let ghost s2 = commands.state();
        let ghost h2 = commands.entries();
        assert(s2 == eat_stage(s1, *self));
        assert(entry_views(h2.skip(k as int)) =~= marker_entries(*self) + push_entries(s0, *self)
            + eat_entries(s1, *self));
        let snake = match commands.movables.get_snake(entity) {
            Some(snake) => snake,
            None => return Err(CommandError::InvalidEntity(LevelGridEntity::new(entity, EntityType::Snake))),
        };
        if snake.len() == 0 || commands.level_instance.is_empty(snake.tail_position()) {
            return Err(CommandError::InvalidEntity(LevelGridEntity::new(entity, EntityType::Snake)));
        }
        if snake.head_position().checked_add(direction).is_none() {
            return Err(CommandError::OutOfRange);
        }
        let old_tail = snake.tail();
        let updates = commands.level_instance.move_snake_forward(snake, entity, direction);
        commands.movables.snake_move_forward(entity, direction);
        commands.history.push_with_updates(
            MoveHistoryEvent::SnakeMoveForward(old_tail),
            LevelGridEntity::new(entity, EntityType::Snake),
            updates,
        );
        let ghost s3 = commands.state();
        let ghost h3 = commands.entries();
        assert(s3.level =~= walk_stage(s2, *self).level);
        assert(s3 == walk_stage(s2, *self));
        assert(entry_views(h3.skip(k as int)) =~= marker_entries(*self) + push_entries(s0, *self)
            + eat_entries(s1, *self) + walk_entries(s2, *self));
        if self.food.is_some() {
            let snake = commands.movables.get_snake(entity).unwrap();
            let (tail_position, tail_direction) = snake.tail();
            if tail_position.checked_sub(tail_direction).is_none() {
                return Err(CommandError::OutOfRange);
            }
            let updates = commands.level_instance.grow_snake(snake, entity);
            commands.movables.snake_grow(entity);
            commands.history.push_with_updates(
                MoveHistoryEvent::Grow,
                LevelGridEntity::new(entity, EntityType::Snake),
                updates,
            );
        }
        proof {
            let h = commands.entries();
            assert(h.take(k as int) =~= h0);
            assert(entry_views(h.skip(k as int)) =~= move_entries(s0, *self));
        }
        Ok(())
    }
}

/// What the presentation is told when a move is undone: the grown segment goes, and the food
/// comes back.
pub open spec fn move_effects(s: SimState, cmd: PlayerMoveCommand) -> Seq<UndoEffect> {
    let s3 = walk_stage(eat_stage(push_stage(s, cmd), cmd), cmd);
    match cmd.food {
        None => Seq::empty(),
        Some(f) => seq![
            UndoEffect::DespawnSnakePart(
                SnakePart {
                    snake_index: s3.registry.snakes[cmd.entity].index,
                    part_index: s3.registry.snakes[cmd.entity].parts.len() as usize,
                },
            ),
            UndoEffect::SpawnFood(f.position),
        ],
    }
}

proof fn lemma_undo_step(
    s: SimState,
    h: Seq<SnakeHistoryEvent>,
    n: int,
    s2: SimState,
    fx: Seq<UndoEffect>,
)
    requires
        0 < n <= h.len(),
        !(h[n - 1].event is PlayerSnakeMove),
        undo_event(s, h[n - 1]) == Some(s2),
        undo_effects(s, h[n - 1]) == fx,
    ensures
        undo_turn(s, h.take(n)) == after_effects(fx, undo_turn(s2, h.take(n - 1))),
{
    assert(h.take(n).drop_last() =~= h.take(n - 1));
    assert(h.take(n).last() == h[n - 1]);
}

proof fn lemma_undo_grow(s3: SimState, cmd: PlayerMoveCommand, ev: SnakeHistoryEvent)
    requires
        cmd.food is Some,
        s3.registry.snakes.dom().contains(cmd.entity),
        entry_view(ev) == grow_entries(s3, cmd)[0],
    ensures
        undo_event(grow_stage(s3, cmd), ev) == Some(s3),
        undo_effects(grow_stage(s3, cmd), ev) == seq![
            UndoEffect::DespawnSnakePart(
                SnakePart {
                    snake_index: s3.registry.snakes[cmd.entity].index,
                    part_index: s3.registry.snakes[cmd.entity].parts.len() as usize,
                },
            ),
        ],
{
    let s4 = grow_stage(s3, cmd);
    let e = cmd.entity;
    let parts = s3.registry.snakes[e].parts;
    assert(grown(parts).drop_last() =~= parts);
    assert(s4.registry.snakes.insert(e, crate::registry::SnakeState { parts, ..s4.registry.snakes[e] })
        =~= s3.registry.snakes);
    lemma_revert_fill_step(s3.level, grow_cell(s3, e), snake_occupant(e));
}

proof fn lemma_undo_walk(s2: SimState, cmd: PlayerMoveCommand, ev: SnakeHistoryEvent)
    requires
        walk_ok(s2, cmd),
        entry_view(ev) == walk_entries(s2, cmd)[0],
    ensures
        undo_event(walk_stage(s2, cmd), ev) == Some(s2),
        undo_effects(walk_stage(s2, cmd), ev) == Seq::<UndoEffect>::empty(),
{
    let s3 = walk_stage(s2, cmd);
    let e = cmd.entity;
    let parts = s2.registry.snakes[e].parts;
    let t = parts.last().0;
    let nh = cell_add(parts[0].0, cmd.direction);
    assert(moved_forward(parts, cmd.direction).drop_first().push(parts.last()) =~= parts);
    assert(s3.registry.snakes.insert(e, crate::registry::SnakeState { parts, ..s3.registry.snakes[e] })
        =~= s2.registry.snakes);
    let u = LevelEntityUpdateEvent::ClearPosition(t, s2.level[t]);
    lemma_revert_concat(s3.level, seq![u], fill_step(s2.level.remove(t), nh));
    lemma_revert_one(s3.level, u);
    assert(s3.level.insert(t, s2.level[t]) =~= s2.level.insert(nh, snake_occupant(e)));
    assert(fill_step(s2.level.remove(t), nh) == fill_step(s2.level, nh));
    lemma_revert_fill_step(s2.level, nh, snake_occupant(e));
}

proof fn lemma_undo_eat(s1: SimState, cmd: PlayerMoveCommand, ev: SnakeHistoryEvent)
    requires
        cmd.food is Some,
        eat_ok(s1, cmd),
        entry_view(ev) == eat_entries(s1, cmd)[0],
    ensures
        undo_event(eat_stage(s1, cmd), ev) == Some(s1),
        undo_effects(eat_stage(s1, cmd), ev) == seq![UndoEffect::SpawnFood(cmd.food->Some_0.position)],
{
    let f = cmd.food->Some_0.position;
    let s2 = eat_stage(s1, cmd);
    lemma_revert_one(s2.level, LevelEntityUpdateEvent::ClearPosition(f, s1.level[f]));
    assert(s2.level.insert(f, s1.level[f]) =~= s1.level);
}

proof fn lemma_undo_push(s: SimState, cmd: PlayerMoveCommand, ev: SnakeHistoryEvent)
    requires
        cmd.pushed_entity is Some,
        is_direction(cmd.direction),
        push_ok(s, cmd),
        entry_view(ev) == push_entries(s, cmd)[0],
    ensures
        undo_event(push_stage(s, cmd), ev) == Some(s),
        undo_effects(push_stage(s, cmd), ev) == Seq::<UndoEffect>::empty(),
{
    let p = cmd.pushed_entity->Some_0;
    let d = cmd.direction;
    let s1 = push_stage(s, cmd);
    let c = movable_cells(s.registry, p)->Some_0;
    let nd = negated(d);
    assert(movable_cells(s1.registry, p) == Some(shifted(c, d))) by {
        if p.entity_type == EntityType::Snake {
            assert(element_cells(shifted_parts(s.registry.snakes[p.entity].parts, d)) =~= shifted(c, d));
        } else {
            assert(seq![cell_add(s.registry.boxes[p.entity].position, d)] =~= shifted(c, d));
        }
    }
    assert(can_shift(shifted(c, d), nd)) by {
        assert forall|i: int| 0 <= i < shifted(c, d).len() implies #[trigger] can_add(
            shifted(c, d)[i],
            nd,
        ) by {
            assert(can_add(c[i], d));
        }
    }
    if p.entity_type == EntityType::Snake {
        let parts = s.registry.snakes[p.entity].parts;
        assert forall|i: int| 0 <= i < parts.len() implies can_add(#[trigger] parts[i].0, d) by {
            assert(c[i] == parts[i].0);
        }
        assert(shifted_parts(shifted_parts(parts, d), nd) =~= parts);
        assert(s1.registry.snakes.insert(
            p.entity,
            crate::registry::SnakeState {
                parts: shifted_parts(s1.registry.snakes[p.entity].parts, nd),
                ..s1.registry.snakes[p.entity]
            },
        ) =~= s.registry.snakes);
    } else {
        assert(can_add(c[0], d));
        assert(s1.registry.boxes.insert(
            p.entity,
            GridEntity {
                position: cell_add(s1.registry.boxes[p.entity].position, nd),
                ..s1.registry.boxes[p.entity]
            },
        ) =~= s.registry.boxes);
    }
    lemma_shifted_distinct(c, d);
    lemma_revert_move(s.level, c, shifted(c, d), p);
}

/// Undoing a move right after it was executed gives back the level index, every movable and
/// the history as they were before the move, also when the move entered a goal or a trigger.
/// The presentation is told to drop the grown segment and to bring the food back.
pub proof fn lemma_move_undo_round_trip(
    s: SimState,
    cmd: PlayerMoveCommand,
    h0: Seq<SnakeHistoryEvent>,
    h1: Seq<SnakeHistoryEvent>,
)
    requires
        is_direction(cmd.direction),
        move_ok(s, cmd),
        h1.len() == h0.len() + move_entries(s, cmd).len(),
        h1.take(h0.len() as int) == h0,
        entry_views(h1.skip(h0.len() as int)) == move_entries(s, cmd),
    ensures
        undo_turn(executed(s, cmd), h1) == Some((s, h0, move_effects(s, cmd))),
{
    let k = h0.len() as int;
    let s1 = push_stage(s, cmd);
    let s2 = eat_stage(s1, cmd);
    let s3 = walk_stage(s2, cmd);
    let s4 = executed(s, cmd);
    let np: int = if cmd.pushed_entity is Some { 1 } else { 0 };
    let nf: int = if cmd.food is Some { 1 } else { 0 };
    let me = move_entries(s, cmd);
    assert(me.len() == 2 + np + 2 * nf);
    assert forall|j: int| 0 <= j < me.len() implies entry_view(#[trigger] h1[k + j]) == me[j] by {
        assert(entry_views(h1.skip(k))[j] == entry_view(h1.skip(k)[j]));
    }
    assert(h1.take(h1.len() as int) =~= h1);
    let n4 = h1.len() as int;
    // Growth.
    let n3 = n4 - nf;
    if cmd.food is Some {
        assert(me[me.len() - 1] == grow_entries(s3, cmd)[0]);
        lemma_undo_grow(s3, cmd, h1[n4 - 1]);
        lemma_undo_step(s4, h1, n4, s3, undo_effects(s4, h1[n4 - 1]));
    }
    // Step forward.
    let n2 = n3 - 1;
    assert(me[1 + np + nf] == walk_entries(s2, cmd)[0]);
    assert(h1[n3 - 1] == h1[k + 1 + np + nf]);
    lemma_undo_walk(s2, cmd, h1[n3 - 1]);
    lemma_undo_step(s3, h1, n3, s2, Seq::empty());
    // Meal.
    let n1 = n2 - nf;
    if cmd.food is Some {
        assert(me[1 + np] == eat_entries(s1, cmd)[0]);
        assert(h1[n2 - 1] == h1[k + 1 + np]);
        lemma_undo_eat(s1, cmd, h1[n2 - 1]);
        lemma_undo_step(s2, h1, n2, s1, seq![UndoEffect::SpawnFood(cmd.food->Some_0.position)]);
    }
    // Push.
    let n0 = n1 - np;
    if cmd.pushed_entity is Some {
        assert(me[1] == push_entries(s, cmd)[0]);
        assert(h1[n1 - 1] == h1[k + 1]);
        lemma_undo_push(s, cmd, h1[n1 - 1]);
        lemma_undo_step(s1, h1, n1, s, Seq::empty());
    }
    // The turn marker.
    assert(n0 == k + 1);
    assert(me[0] == marker_entries(cmd)[0]);
    assert(h1[k].event is PlayerSnakeMove);
    assert(h1.take(n0).drop_last() =~= h0);
    assert(h1.take(n0).last() == h1[k]);
    assert(undo_turn(s, h1.take(n0)) == Some((s, h0, Seq::<UndoEffect>::empty())));
    if cmd.food is Some {
        assert(move_effects(s, cmd) =~= seq![
            UndoEffect::DespawnSnakePart(
                SnakePart {
                    snake_index: s3.registry.snakes[cmd.entity].index,
                    part_index: s3.registry.snakes[cmd.entity].parts.len() as usize,
                },
            ),
        ] + (Seq::<UndoEffect>::empty() + (seq![UndoEffect::SpawnFood(cmd.food->Some_0.position)] + (Seq::<UndoEffect>::empty() + Seq::<UndoEffect>::empty()))));
    } else {
        assert(move_effects(s, cmd) =~= Seq::<UndoEffect>::empty() + (Seq::<UndoEffect>::empty() + Seq::<UndoEffect>::empty()));
    }
}

/// A completed fall is reverted by its one entry: from wherever the movable fell to (any
/// cells, as many as it occupies), the index and every movable are back as they were before
/// the fall started. This holds for a fall ended on spikes (no landing delta) and for a
/// landing, whatever the landing cells held.
pub proof fn lemma_fall_round_trip(
    s0: SimState,
    e: LevelGridEntity,
    fallen: Seq<Cell>,
    ev: SnakeHistoryEvent,
    landed: bool,
)
    requires
        cells_clearable(s0, e),
        fallen.len() == movable_cells(s0.registry, e)->Some_0.len(),
        fallen.no_duplicates(),
        is_fall_entry(
            ev,
            e,
            s0.level,
            movable_cells(s0.registry, e)->Some_0,
            Some(
                if landed {
                    fill_updates(cleared(s0.level, movable_cells(s0.registry, e)->Some_0), fallen, e)
                } else {
                    Seq::empty()
                },
            ),
        ),
    ensures
        undo_event(
            SimState {
                level: if landed {
                    filled(cleared(s0.level, movable_cells(s0.registry, e)->Some_0), fallen, e)
                } else {
                    cleared(s0.level, movable_cells(s0.registry, e)->Some_0)
                },
                registry: placed_movable(s0.registry, e, fallen),
            },
            ev,
        ) == Some(s0),
{
    let c = movable_cells(s0.registry, e)->Some_0;
    let r1 = placed_movable(s0.registry, e, fallen);
    let gone = cleared(s0.level, c);
    let level = if landed {
        filled(gone, fallen, e)
    } else {
        gone
    };
    let end = begin_fall_of(ev.event)->Some_0.1->Some_0;
    // The movable goes back to its cells.
    if e.entity_type == EntityType::Snake {
        let parts = s0.registry.snakes[e.entity].parts;
        assert(element_cells(placed_parts(parts, fallen)) =~= fallen);
        assert(placed_parts(placed_parts(parts, fallen), c) =~= parts);
        assert(r1.snakes.insert(
            e.entity,
            SnakeState { parts: placed_parts(r1.snakes[e.entity].parts, c), ..r1.snakes[e.entity] },
        ) =~= s0.registry.snakes);
    } else {
        assert(r1.boxes.insert(e.entity, GridEntity { position: c[0], ..r1.boxes[e.entity] })
            =~= s0.registry.boxes);
    }
    // The landing deltas are reverted, then the cells of the start come back.
    let m1 = revert_updates(level, end);
    assert(m1 =~= gone) by {
        if landed {
            lemma_revert_filled(gone, fallen, e);
        } else {
            assert(end =~= Seq::<LevelEntityUpdateEvent>::empty());
        }
    }
    let m2 = revert_updates(m1, ev.walkable_updates@);
    assert forall|x: Cell| #[trigger] m2.dom().contains(x) == s0.level.dom().contains(x) && (
    m2.dom().contains(x) ==> m2[x] == s0.level[x]) by {
        lemma_revert_clears(gone, s0.level, c, x);
        lemma_cleared(s0.level, c, x);
        if c.contains(x) {
            let j = choose|j: int| 0 <= j < c.len() && c[j] == x;
            assert(s0.level.dom().contains(c[j]));
        }
    }
    assert(m2 =~= s0.level);
}

/// Undoing a turn in which a move was followed by a completed fall (of any movable, ended
/// on spikes or landed) gives back the state and the history from before the
/// move, in one undo.
pub proof fn lemma_move_then_fall_undo_round_trip(
    s: SimState,
    cmd: PlayerMoveCommand,
    h0: Seq<SnakeHistoryEvent>,
    h1: Seq<SnakeHistoryEvent>,
    e: LevelGridEntity,
    fallen: Seq<Cell>,
    ev: SnakeHistoryEvent,
    landed: bool,
)
    requires
        is_direction(cmd.direction),
        move_ok(s, cmd),
        h1.len() == h0.len() + move_entries(s, cmd).len(),
        h1.take(h0.len() as int) == h0,
        entry_views(h1.skip(h0.len() as int)) == move_entries(s, cmd),
        ({
            let sm = executed(s, cmd);
            let c = movable_cells(sm.registry, e)->Some_0;
            &&& cells_clearable(sm, e)
            &&& fallen.len() == c.len()
            &&& fallen.no_duplicates()
            &&& is_fall_entry(
                ev,
                e,
                sm.level,
                c,
                Some(
                    if landed {
                        fill_updates(cleared(sm.level, c), fallen, e)
                    } else {
                        Seq::empty()
                    },
                ),
            )
        }),
    ensures
        ({
            let sm = executed(s, cmd);
            let c = movable_cells(sm.registry, e)->Some_0;
            let after = SimState {
                level: if landed {
                    filled(cleared(sm.level, c), fallen, e)
                } else {
                    cleared(sm.level, c)
                },
                registry: placed_movable(sm.registry, e, fallen),
            };
            undo_turn(after, h1.push(ev)) == Some((s, h0, move_effects(s, cmd)))
        }),
{
    let sm = executed(s, cmd);
    let c = movable_cells(sm.registry, e)->Some_0;
    let after = SimState {
        level: if landed {
            filled(cleared(sm.level, c), fallen, e)
        } else {
            cleared(sm.level, c)
        },
        registry: placed_movable(sm.registry, e, fallen),
    };
    let h2 = h1.push(ev);
    lemma_fall_round_trip(sm, e, fallen, ev, landed);
    lemma_move_undo_round_trip(s, cmd, h0, h1);
    assert(begin_fall_of(ev.event) is Some);
    assert(h2[h2.len() - 1] == ev);
    lemma_undo_step(after, h2, h2.len() as int, sm, Seq::empty());
    assert(h2.take(h2.len() as int) =~= h2);
    assert(h2.take(h2.len() - 1) =~= h1);
    assert(Seq::<UndoEffect>::empty() + move_effects(s, cmd) =~= move_effects(s, cmd));
}

} // verus!
