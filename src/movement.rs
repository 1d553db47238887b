//! Player move decisions and the gravity driver, as steps of a state machine over the
//! command layer; timing and animation are left to the caller.
use crate::commands::{
    cells_clearable, entry_view, entry_views, executed, exit_entry, exited, fall_closed,
    is_fall_entry, last_open_fall, move_entries, move_ok, CommandError, PlayerMoveCommand,
    SnakeCommands,
};
use crate::grid::{can_add, cell_add, is_direction, Cell, Entity, EntityType, LevelGridEntity};
use crate::level_entities::{can_shift, GridEntity};
use crate::level_instance::{
    cleared, entity_at, filled, ground_distance, has_kind, traversable_cell, walkable_cell,
    LevelInstance,
};
use crate::registry::{cells_can_shift, movable_cells, moved_movable};
use crate::snake::{element_cells, standing, Snake};
use crate::undo::{negated, undo_turn, SimState, SnakeHistoryEvent, UndoEffect, UndoError};
use vstd::prelude::*;

verus! {

/// The unit vector pointing up.
pub open spec fn up() -> Cell {
    Cell { x: 0, y: 1, z: 0 }
}

/// The unit vector pointing down.
pub open spec fn down() -> Cell {
    Cell { x: 0, y: -1i32, z: 0 }
}

/// The pushed movable can move along `dir`: every cell it enters is traversable or its own.
pub open spec fn push_allowed(m: Map<Cell, LevelGridEntity>, p: Entity, cells: Seq<Cell>, dir: Cell) -> bool {
    forall|i: int|
        0 <= i < cells.len() ==> #[trigger] traversable_cell(m, cell_add(cells[i], dir))
            || entity_at(m, cell_add(cells[i], dir), p)
}

/// What trying one direction gives.
pub enum Attempt {
    /// The snake stands upright and rises: it jumps.
    Jump,
    /// The move can be carried out.
    Go(PlayerMoveCommand),
    /// The movable in the way is not registered.
    Unknown(LevelGridEntity),
    /// Nothing happens in this direction.
    Blocked,
}

/// What the snake `e` does when it tries to go along `dir`.
pub open spec fn try_direction(s: SimState, e: Entity, dir: Cell, goal: Option<Cell>) -> Attempt {
    let parts = s.registry.snakes[e].parts;
    let head = parts[0].0;
    let new = cell_add(head, dir);
    if !can_add(head, dir) {
        Attempt::Blocked
    } else if dir == up() && standing(parts) && !has_kind(s.level, new, EntityType::Food) && goal
        != Some(new) {
        Attempt::Jump
    } else if entity_at(s.level, new, e) {
        Attempt::Blocked
    } else if s.level.dom().contains(new) && crate::grid::movable_kind(s.level[new].entity_type) {
        let p = s.level[new];
        if movable_cells(s.registry, p) is None {
            Attempt::Unknown(p)
        } else if can_shift(movable_cells(s.registry, p)->Some_0, dir) && push_allowed(
            s.level,
            p.entity,
            movable_cells(s.registry, p)->Some_0,
            dir,
        ) {
            Attempt::Go(
                PlayerMoveCommand {
                    entity: e,
                    direction: dir,
                    pushed_entity: Some(p),
                    food: if has_kind(s.level, new, EntityType::Food) {
                        Some(GridEntity { position: new, entity_type: EntityType::Food })
                    } else {
                        None
                    },
                },
            )
        } else {
            Attempt::Blocked
        }
    } else if !element_cells(parts).contains(new) && walkable_cell(s.level, new) {
        Attempt::Go(
            PlayerMoveCommand {
                entity: e,
                direction: dir,
                pushed_entity: None,
                food: if has_kind(s.level, new, EntityType::Food) {
                    Some(GridEntity { position: new, entity_type: EntityType::Food })
                } else {
                    None
                },
            },
        )
    } else {
        Attempt::Blocked
    }
}

/// What a move request of snake `e` along `dir` gives: nothing when the snake would turn back
/// on itself; else the requested direction, and when nothing happens there, a climb up.
pub open spec fn decide_move(s: SimState, e: Entity, dir: Cell, goal: Option<Cell>) -> Attempt {
    let parts = s.registry.snakes[e].parts;
    if crate::undo::can_negate(parts[0].1) && dir == negated(parts[0].1) {
        Attempt::Blocked
    } else {
        match try_direction(s, e, dir, goal) {
            Attempt::Blocked => try_direction(s, e, up(), goal),
            a => a,
        }
    }
}

/// What a move request led to.
#[derive(Clone, Copy, Debug, PartialEq, Eq, Structural)]
pub enum MoveOutcome {
    /// Nothing happened.
    Ignored,
    /// The snake jumps: the caller starts its rise.
    Jump,
    /// The move was carried out along the direction.
    Moved(PlayerMoveCommand),
}

/// What a gravity step led to.
#[derive(Clone, Copy, Debug, PartialEq, Eq, Structural)]
pub enum GravityOutcome {
    /// The movable stands on the ground.
    Grounded,
    /// The movable started falling and moved one cell down.
    StartedFalling,
    /// The movable moved one more cell down.
    Falling,
    /// The movable landed.
    Landed,
    /// The movable fell on spikes: its fall is completed and must be undone.
    HitSpikes,
}

/// The distance to the ground of the lowest-standing cell of `cells`: the smallest over them.
pub open spec fn min_ground_distance(m: Map<Cell, LevelGridEntity>, cells: Seq<Cell>, e: Entity) -> int
    decreases cells.len(),
{
    if cells.len() <= 1 {
        ground_distance(m, cells[0], e)
    } else {
        let rest = min_ground_distance(m, cells.drop_last(), e);
        let last = ground_distance(m, cells.last(), e);
        if last < rest {
            last
        } else {
            rest
        }
    }
}

/// Every cell of `cells` is high enough above `i32::MIN` to look below it.
pub open spec fn scannable(cells: Seq<Cell>) -> bool {
    forall|i: int| 0 <= i < cells.len() ==> #[trigger] cells[i].y >= i32::MIN + 2
}

/// Some cell of `cells` holds a spike.
pub open spec fn on_spikes(m: Map<Cell, LevelGridEntity>, cells: Seq<Cell>) -> bool {
    exists|i: int| 0 <= i < cells.len() && #[trigger] has_kind(m, cells[i], EntityType::Spike)
}

/// The distance to the ground of the lowest-standing cell of `entity_positions`.
pub fn min_distance_to_ground(level: &LevelInstance, entity_positions: &Vec<Cell>, snake_entity: Entity) -> (r: i32)
    requires
        entity_positions@.len() > 0,
        scannable(entity_positions@),
    ensures
        r == min_ground_distance(level@, entity_positions@, snake_entity),
{
    let mut best = level.get_distance_to_ground(entity_positions[0], snake_entity);
    let mut i: usize = 1;
    proof {
        assert(entity_positions@.take(1).len() == 1);
        assert(entity_positions@.take(1)[0] == entity_positions@[0]);
    }
    while i < entity_positions.len()
        invariant
            1 <= i <= entity_positions@.len(),
            scannable(entity_positions@),
            best == min_ground_distance(level@, entity_positions@.take(i as int), snake_entity),
        decreases entity_positions@.len() - i,
    {
        let d = level.get_distance_to_ground(entity_positions[i], snake_entity);
        proof {
            let t = entity_positions@.take(i + 1);
            assert(t.drop_last() =~= entity_positions@.take(i as int));
            assert(t.last() == entity_positions@[i as int]);
        }
        if d < best {
            best = d;
        }
        i += 1;
    }
    assert(entity_positions@.take(entity_positions@.len() as int) =~= entity_positions@);
    best
}

/// True when every cell of `cells` is high enough above `i32::MIN` to look below it.
pub fn cells_scannable(cells: &Vec<Cell>) -> (r: bool)
    ensures
        r == scannable(cells@),
{
    let mut i: usize = 0;
    while i < cells.len()
        invariant
            i <= cells@.len(),
            forall|j: int| 0 <= j < i ==> #[trigger] cells@[j].y >= i32::MIN + 2,
        decreases cells@.len() - i,
    {
        if cells[i].y < i32::MIN + 2 {
            return false;
        }
        i += 1;
    }
    true
}

/// True when some cell of `cells` holds a spike.
pub fn any_on_spikes(level: &LevelInstance, cells: &Vec<Cell>) -> (r: bool)
    ensures
        r == on_spikes(level@, cells@),
{
    let mut i: usize = 0;
    while i < cells.len()
        invariant
            i <= cells@.len(),
            forall|j: int| 0 <= j < i ==> !#[trigger] has_kind(level@, cells@[j], EntityType::Spike),
        decreases cells@.len() - i,
    {
        if level.is_spike(cells[i]) {
            return true;
        }
        i += 1;
    }
    false
}

/// True when the cells a pushed movable enters along `direction` are all traversable or its
/// own, as `push_allowed` states.
pub fn snake_can_move_forward(
    level_instance: &LevelInstance,
    snake: &Snake,
    other_entity: &Option<(Entity, Vec<Cell>)>,
    direction: Cell,
) -> (r: bool)
    requires
        snake@.len() > 0,
        can_add(snake@[0].0, direction),
        other_entity matches Some(o) ==> can_shift(o.1@, direction),
    ensures
        r == match other_entity {
            Some(o) => push_allowed(level_instance@, o.0, o.1@, direction),
            None => !element_cells(snake@).contains(cell_add(snake@[0].0, direction)) && walkable_cell(
                level_instance@,
                cell_add(snake@[0].0, direction),
            ),
        },
{
    let new_position = snake.head_position().add(direction);
    if let Some(other) = other_entity {
        return level_instance.can_push_entity(other.0, other.1.as_slice(), direction);
    }
    if snake.occupies_position(new_position) || !level_instance.can_walk_or_eat(new_position) {
        return false;
    }
    true
}

/// A move that would push a movable into a cell that is neither traversable nor the
/// movable's own is refused: trying that direction carries out nothing.
pub proof fn lemma_push_blocked(s: SimState, e: Entity, dir: Cell, goal: Option<Cell>)
    requires
        s.registry.snakes.dom().contains(e),
        s.registry.snakes[e].parts.len() > 0,
        can_add(s.registry.snakes[e].parts[0].0, dir),
        ({
            let new = cell_add(s.registry.snakes[e].parts[0].0, dir);
            let p = s.level[new];
            let cells = movable_cells(s.registry, p)->Some_0;
            &&& !(dir == up() && standing(s.registry.snakes[e].parts))
            &&& s.level.dom().contains(new)
            &&& crate::grid::movable_kind(p.entity_type)
            &&& p.entity != e
            &&& movable_cells(s.registry, p) is Some
            &&& exists|i: int|
                0 <= i < cells.len() && !#[trigger] traversable_cell(s.level, cell_add(cells[i], dir))
                    && !entity_at(s.level, cell_add(cells[i], dir), p.entity)
        }),
    ensures
        try_direction(s, e, dir, goal) == Attempt::Blocked,
{
    let new = cell_add(s.registry.snakes[e].parts[0].0, dir);
    let p = s.level[new];
    let cells = movable_cells(s.registry, p)->Some_0;
    let i = choose|i: int|
        0 <= i < cells.len() && !#[trigger] traversable_cell(s.level, cell_add(cells[i], dir))
            && !entity_at(s.level, cell_add(cells[i], dir), p.entity);
    assert(!push_allowed(s.level, p.entity, cells, dir));
}

/// A trigger is pressed when a movable stands on its cell.
pub open spec fn pressed(m: Map<Cell, LevelGridEntity>, trigger: Cell) -> bool {
    m.dom().contains(trigger) && crate::grid::movable_kind(m[trigger].entity_type)
}

/// Whether the trigger at `position` is pressed.
pub fn trigger_pressed(level: &LevelInstance, position: Cell) -> (r: bool)
    ensures
        r == pressed(level@, position),
{
    level.is_movable(position).is_some()
}

/// The goal opens when every trigger of the level is pressed.
pub fn all_triggers_pressed(level: &LevelInstance, triggers: &Vec<Cell>) -> (r: bool)
    ensures
        r == forall|i: int| 0 <= i < triggers@.len() ==> #[trigger] pressed(level@, triggers@[i]),
{
    let mut i: usize = 0;
    while i < triggers.len()
        invariant
            i <= triggers@.len(),
            forall|j: int| 0 <= j < i ==> #[trigger] pressed(level@, triggers@[j]),
        decreases triggers@.len() - i,
    {
        if !trigger_pressed(level, triggers[i]) {
            return false;
        }
        i += 1;
    }
    true
}

/// Height below which a falling snake has left the world, as a spike would end its fall.
pub const FALL_LIMIT_Y: i32 = -2;

/// Whether a falling snake whose head is at `head` has left the world.
pub fn fell_out_of_world(head: Cell) -> (r: bool)
    ensures
        r == (head.y < FALL_LIMIT_Y),
{
    head.y < FALL_LIMIT_Y
}

/// The snake `e` takes move requests: it is not falling, is registered, in play, and has a
/// segment.
pub open spec fn controllable(s: SimState, e: Entity, falling: bool) -> bool {
    &&& !falling
    &&& s.registry.snakes.dom().contains(e)
    &&& s.registry.snakes[e].active
    &&& s.registry.snakes[e].parts.len() > 0
}

impl SnakeCommands {
    /// What snake `entity` does when it tries to go along `dir`, as `try_direction` states.
    pub fn try_direction(&self, snake: &Snake, entity: Entity, dir: Cell, goal: Option<Cell>) -> (r: Attempt)
        requires
            self.wf(),
            self.state().registry.snakes.dom().contains(entity),
            snake@ == self.state().registry.snakes[entity].parts,
            snake@.len() > 0,
        ensures
            r == try_direction(self.state(), entity, dir, goal),
    {
        let head = snake.head_position();
        let new = match head.checked_add(dir) {
            Some(n) => n,
            None => return Attempt::Blocked,
        };
        let level = self.level_instance();
        let is_goal = match goal {
            Some(g) => g == new,
            None => false,
        };
        if dir == Cell::up() && snake.is_standing() && !level.is_food(new) && !is_goal {
            return Attempt::Jump;
        }
        if level.is_entity(new, entity) {
            return Attempt::Blocked;
        }
        let food = if level.is_food(new) {
            Some(GridEntity::new(new, EntityType::Food))
        } else {
            None
        };
        match level.is_movable(new) {
            Some(p) => {
                if !self.movables().contains(p) {
                    return Attempt::Unknown(p);
                }
                let cells = self.movables().get(p);
                if !cells_can_shift(&cells, dir) {
                    return Attempt::Blocked;
                }
                let other = Some((p.entity, cells));
                if snake_can_move_forward(level, snake, &other, dir) {
                    Attempt::Go(PlayerMoveCommand { entity, direction: dir, pushed_entity: Some(p), food })
                } else {
                    Attempt::Blocked
                }
            },
            None => {
                if snake_can_move_forward(level, snake, &None, dir) {
                    Attempt::Go(PlayerMoveCommand { entity, direction: dir, pushed_entity: None, food })
                } else {
                    Attempt::Blocked
                }
            },
        }
    }

    /// Handles a move request of snake `entity` along `direction`: decides as `decide_move`
    /// states and carries out the move it finds. A falling snake, or one out of play, takes
    /// no request, nor does any direction but the six unit vectors. Only a carried-out move
    /// changes anything.
    pub fn snake_movement_control(&mut self, entity: Entity, direction: Cell, goal: Option<Cell>, falling: bool) -> (r: Result<
        MoveOutcome,
        CommandError,
    >)
        requires
            old(self).wf(),
        ensures
            final(self).wf(),
            !(controllable(old(self).state(), entity, falling) && is_direction(direction)) ==> r == Ok::<MoveOutcome, CommandError>(MoveOutcome::Ignored),
            controllable(old(self).state(), entity, falling) && is_direction(direction) ==> match decide_move(old(self).state(), entity, direction, goal) {
                Attempt::Blocked => r == Ok::<MoveOutcome, CommandError>(MoveOutcome::Ignored),
                Attempt::Jump => r == Ok::<MoveOutcome, CommandError>(MoveOutcome::Jump),
                Attempt::Unknown(p) => r == Err::<MoveOutcome, CommandError>(CommandError::InvalidEntity(p)),
                Attempt::Go(cmd) => (r is Ok) == move_ok(old(self).state(), cmd) && (r is Ok ==> r == Ok::<MoveOutcome, CommandError>(MoveOutcome::Moved(cmd))),
            },
            !(r matches Ok(MoveOutcome::Moved(_))) ==> final(self).state() == old(self).state()
                && final(self).entries() == old(self).entries(),
            r matches Ok(MoveOutcome::Moved(cmd)) ==> ({
                &&& final(self).state() == executed(old(self).state(), cmd)
                &&& final(self).entries().take(old(self).entries().len() as int) == old(self).entries()
                &&& final(self).entries().len() == old(self).entries().len() + move_entries(old(self).state(), cmd).len()
                &&& entry_views(final(self).entries().skip(old(self).entries().len() as int)) == move_entries(old(self).state(), cmd)
            }),
    {
        if falling || !direction.is_direction() {
            return Ok(MoveOutcome::Ignored);
        }
        match self.movables().is_snake_active(entity) {
            Some(true) => {},
            _ => return Ok(MoveOutcome::Ignored),
        }
        let snake = self.movables().get_snake(entity).unwrap();
        if snake.len() == 0 {
            return Ok(MoveOutcome::Ignored);
        }
        let head_direction = snake.head_direction();
        if head_direction.x > i32::MIN && head_direction.y > i32::MIN && head_direction.z > i32::MIN
            && direction == head_direction.neg() {
            return Ok(MoveOutcome::Ignored);
        }
        // The requested direction first; when nothing happens there, a climb up.
        let attempt = match self.try_direction(snake, entity, direction, goal) {
            Attempt::Blocked => self.try_direction(snake, entity, Cell::up(), goal),
            a => a,
        };
        match attempt {
            Attempt::Blocked => Ok(MoveOutcome::Ignored),
            Attempt::Jump => Ok(MoveOutcome::Jump),
            Attempt::Unknown(p) => Err(CommandError::InvalidEntity(p)),
            Attempt::Go(cmd) => {
                match cmd.execute(self) {
                    Ok(()) => Ok(MoveOutcome::Moved(cmd)),
                    Err(e) => Err(e),
                }
            },
        }
    }

    /// One gravity step of a movable. Without a fall under way, it starts falling (and drops
    /// one cell) when every cell of it is more than one cell above the ground. With a fall
    /// under way, called when the movable has sunk into the next cell (`fall` is how many
    /// cells it fell): on spikes the fall is completed for an undo; with more than one cell
    /// of air below it drops one more cell; else it lands, and a fall of no cell is nothing.
    pub fn gravity_step(&mut self, entity: LevelGridEntity, fall: Option<i32>) -> (r: Result<
        (GravityOutcome, Option<i32>),
        CommandError,
    >)
        requires
            old(self).wf(),
        ensures
            final(self).wf(),
            ({
                let s = old(self).state();
                let cells = movable_cells(s.registry, entity)->Some_0;
                let below_free = min_ground_distance(s.level, cells, entity.entity) > 1;
                let dropped = SimState { level: s.level, registry: moved_movable(s.registry, entity, down()) };
                if movable_cells(s.registry, entity) is None || cells.len() == 0 {
                    r == Err::<(GravityOutcome, Option<i32>), CommandError>(CommandError::InvalidEntity(entity))
                        && final(self).state() == s && final(self).entries() == old(self).entries()
                } else if !scannable(cells) {
                    r == Err::<(GravityOutcome, Option<i32>), CommandError>(CommandError::OutOfRange)
                        && final(self).state() == s && final(self).entries() == old(self).entries()
                } else {
                    match fall {
                        None => if !below_free {
                            r == Ok::<(GravityOutcome, Option<i32>), CommandError>((GravityOutcome::Grounded, None))
                                && final(self).state() == s && final(self).entries() == old(self).entries()
                        } else {
                            (r is Ok) == (cells_clearable(s, entity) && can_shift(cells, down()))
                                && (r is Ok ==> r == Ok::<(GravityOutcome, Option<i32>), CommandError>((GravityOutcome::StartedFalling, Some(1i32)))
                                && final(self).state() == (SimState {
                                    level: cleared(s.level, cells),
                                    registry: moved_movable(s.registry, entity, down()),
                                })
                                && final(self).entries().drop_last() == old(self).entries()
                                && is_fall_entry(final(self).entries().last(), entity, s.level, cells, None))
                        },
                        Some(g) => if on_spikes(s.level, cells) {
                            (r is Ok) == (last_open_fall(old(self).entries(), entity.entity) is Some)
                                && (r is Ok ==> r == Ok::<(GravityOutcome, Option<i32>), CommandError>((GravityOutcome::HitSpikes, None))
                                && fall_closed(old(self).entries(), final(self).entries(), entity.entity, Seq::empty()))
                                && final(self).state() == s
                        } else if below_free {
                            (r is Ok) == (can_shift(cells, down()) && g < i32::MAX)
                                && (r is Ok ==> r == Ok::<(GravityOutcome, Option<i32>), CommandError>((GravityOutcome::Falling, Some((g + 1) as i32)))
                                && final(self).state() == dropped)
                                && final(self).entries() == old(self).entries()
                        } else if g == 0 {
                            r == Ok::<(GravityOutcome, Option<i32>), CommandError>((GravityOutcome::Landed, None))
                                && final(self).state() == s && final(self).entries() == old(self).entries()
                        } else {
                            (r is Ok) == (last_open_fall(old(self).entries(), entity.entity) is Some)
                                && (r is Ok ==> r == Ok::<(GravityOutcome, Option<i32>), CommandError>((GravityOutcome::Landed, None))
                                && final(self).state() == (SimState {
                                    level: filled(s.level, cells, entity),
                                    registry: s.registry,
                                })
                                && fall_closed(
                                    old(self).entries(),
                                    final(self).entries(),
                                    entity.entity,
                                    crate::level_instance::fill_updates(s.level, cells, entity),
                                ))
                        },
                    }
                }
            }),
    {
        if !self.movables().contains(entity) {
            return Err(CommandError::InvalidEntity(entity));
        }
        let cells = self.movables().get(entity);
        if cells.len() == 0 {
            return Err(CommandError::InvalidEntity(entity));
        }
        if !cells_scannable(&cells) {
            return Err(CommandError::OutOfRange);
        }
        let distance = min_distance_to_ground(self.level_instance(), &cells, entity.entity);
        match fall {
            None => {
                if distance <= 1 {
                    return Ok((GravityOutcome::Grounded, None));
                }
                if !cells_can_shift(&cells, Cell::down()) {
                    return Err(CommandError::OutOfRange);
                }
                match self.start_falling(entity) {
                    Ok(()) => {},
                    Err(e) => return Err(e),
                }
                match self.fall_one_unit(entity) {
                    Ok(()) => {},
                    Err(e) => return Err(e),
                }
                Ok((GravityOutcome::StartedFalling, Some(1)))
            },
            Some(g) => {
                if any_on_spikes(self.level_instance(), &cells) {
                    if !self.has_open_fall(entity.entity) {
                        return Err(CommandError::NoOpenFall(entity.entity));
                    }
                    self.stop_falling_on_spikes(entity.entity);
                    Ok((GravityOutcome::HitSpikes, None))
                } else if distance > 1 {
                    if g == i32::MAX {
                        return Err(CommandError::OutOfRange);
                    }
                    match self.fall_one_unit(entity) {
                        Ok(()) => Ok((GravityOutcome::Falling, Some(g + 1))),
                        Err(e) => Err(e),
                    }
                } else if g == 0 {
                    Ok((GravityOutcome::Landed, None))
                } else {
                    if !self.has_open_fall(entity.entity) {
                        return Err(CommandError::NoOpenFall(entity.entity));
                    }
                    self.stop_falling(entity);
                    Ok((GravityOutcome::Landed, None))
                }
            },
        }
    }

    /// The level-completion step: when the goal is open and a snake in play that is not
    /// falling has its head on it, that snake leaves the level. Gives the snake, and the one
    /// to select next: another snake in play when the leaving one was `selected`, else
    /// `selected` itself.
    pub fn check_for_level_completion(&mut self, goal: Option<Cell>, selected: Entity) -> (r: Result<
        Option<(Entity, Option<Entity>)>,
        CommandError,
    >)
        requires
            old(self).wf(),
        ensures
            final(self).wf(),
            r matches Ok(None) ==> final(self).state() == old(self).state() && final(self).entries()
                == old(self).entries(),
            r == Ok::<Option<(Entity, Option<Entity>)>, CommandError>(None) && goal is Some ==> (forall|e: Entity|
                #[trigger] old(self).state().registry.snakes.dom().contains(e)
                    && old(self).state().registry.snakes[e].active
                    && old(self).state().registry.snakes[e].parts.len() > 0
                    ==> old(self).state().registry.snakes[e].parts[0].0 != goal->Some_0) || (exists|e: Entity|
                #[trigger] old(self).state().registry.snakes.dom().contains(e)
                    && old(self).state().registry.snakes[e].active
                    && old(self).state().registry.snakes[e].parts.len() > 0
                    && old(self).state().registry.snakes[e].parts[0].0 == goal->Some_0
                    && last_open_fall(old(self).entries(), e) is Some),
            r matches Ok(Some(x)) ==> ({
                let s = old(self).state();
                let e = x.0;
                &&& goal == Some(s.registry.snakes[e].parts[0].0)
                &&& s.registry.snakes.dom().contains(e) && s.registry.snakes[e].active
                &&& s.registry.snakes[e].parts.len() > 0
                &&& last_open_fall(old(self).entries(), e) is None
                &&& final(self).state() == exited(s, e, false)
                &&& final(self).entries().drop_last() == old(self).entries()
                &&& entry_view(final(self).entries().last()) == exit_entry(s, e, false)
                &&& (e != selected ==> x.1 == Some(selected))
                &&& (e == selected ==> match x.1 {
                    Some(n) => n != e && final(self).state().registry.snakes.dom().contains(n)
                        && final(self).state().registry.snakes[n].active,
                    None => forall|n: Entity|
                        #[trigger] final(self).state().registry.snakes.dom().contains(n) && n != e
                            ==> !final(self).state().registry.snakes[n].active,
                })
            }),
            goal is None ==> r == Ok::<Option<(Entity, Option<Entity>)>, CommandError>(None),
            r is Err ==> final(self).state() == old(self).state() && final(self).entries()
                == old(self).entries(),
            r is Err ==> exists|e: Entity|
                #[trigger] old(self).state().registry.snakes.dom().contains(e)
                    && old(self).state().registry.snakes[e].active
                    && old(self).state().registry.snakes[e].parts.len() > 0
                    && goal == Some(old(self).state().registry.snakes[e].parts[0].0)
                    && last_open_fall(old(self).entries(), e) is None
                    && !cells_clearable(old(self).state(), crate::commands::snake_occupant(e)),
    {
        let g = match goal {
            Some(g) => g,
            None => return Ok(None),
        };
        let e = match self.movables().snake_at(g) {
            Some(e) => e,
            None => return Ok(None),
        };
        if self.has_open_fall(e) {
            // A snake in the air cannot leave.
            assert(self.state().registry.snakes.dom().contains(e));
            return Ok(None);
        }
        match self.exit_level(e, false) {
            Ok(()) => {},
            Err(err) => return Err(err),
        }
        let next = if e == selected {
            self.movables().other_active_snake(e)
        } else {
            Some(selected)
        };
        Ok(Some((e, next)))
    }

    /// The out-of-world step: when snake `entity` is falling and its head has sunk below
    /// `FALL_LIMIT_Y`, its fall is ended as on spikes and the turn is undone, which puts it
    /// back where the turn started. Gives the effects of the undo, or `None` when the snake
    /// has not left the world.
    pub fn respawn_on_fall(&mut self, entity: Entity) -> (r: Result<Option<Vec<UndoEffect>>, UndoError>)
        requires
            old(self).wf(),
        ensures
            final(self).wf(),
            ({
                let s = old(self).state();
                let h = old(self).entries();
                let out = s.registry.snakes.dom().contains(entity) && s.registry.snakes[entity].parts.len() > 0
                    && s.registry.snakes[entity].parts[0].0.y < FALL_LIMIT_Y && last_open_fall(h, entity) is Some;
                &&& !out ==> r == Ok::<Option<Vec<UndoEffect>>, UndoError>(None) && final(self).state() == s
                    && final(self).entries() == h
                &&& out ==> exists|h1: Seq<SnakeHistoryEvent>|
                    fall_closed(h, h1, entity, Seq::empty()) && (r is Ok) == (undo_turn(s, h1) is Some) && (
                    r is Ok ==> r->Ok_0 is Some && final(self).state() == undo_turn(s, h1)->Some_0.0
                        && final(self).entries() == undo_turn(s, h1)->Some_0.1 && r->Ok_0->Some_0@
                        == undo_turn(s, h1)->Some_0.2)
            }),
    {
        let out = match self.movables().get_snake(entity) {
            Some(snake) => !snake.is_empty() && fell_out_of_world(snake.head_position()),
            None => false,
        };
        if !out || !self.has_open_fall(entity) {
            return Ok(None);
        }
        let ghost s = self.state();
        let ghost h = self.entries();
        self.stop_falling_on_spikes(entity);
        let ghost h1 = self.entries();
        let r = match self.undo() {
            Ok(fx) => Ok(Some(fx)),
            Err(e) => Err(e),
        };
        assert(fall_closed(h, h1, entity, Seq::empty()));
        r
    }
}

} // verus!
