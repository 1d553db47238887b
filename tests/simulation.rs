use cat_snake::commands::{CommandError, PlayerMoveCommand, SnakeCommands};
use cat_snake::grid::{Cell, Entity, EntityType, LevelEntityUpdateEvent, LevelGridEntity};
use cat_snake::level_entities::{GridEntity, Movable};
use cat_snake::level_instance::{LevelInstance, NO_GROUND_DISTANCE};
use cat_snake::movement::{GravityOutcome, MoveOutcome};
use cat_snake::registry::MovableRegistry;
use cat_snake::snake::{Snake, SnakeElement};
use cat_snake::undo::{MoveHistoryEvent, SnakeHistory, SnakePart, UndoEffect, UndoError};

const SNAKE: u64 = 1;
const BOX: u64 = 2;

fn c(x: i32, y: i32, z: i32) -> Cell {
    Cell::new(x, y, z)
}

fn occupant(id: u64, t: EntityType) -> LevelGridEntity {
    LevelGridEntity::new(Entity::new(id), t)
}

fn wall(level: &mut LevelInstance, id: u64, p: Cell) {
    level.mark_position_occupied(p, occupant(id, EntityType::Wall));
}

/// A level with a floor of walls at y = 0 from x = -2 to x = 8, ids from 100.
fn floor_level() -> LevelInstance {
    let mut level = LevelInstance::new();
    for x in -2..=8 {
        wall(&mut level, (100 + x + 2) as u64, c(x, 0, 0));
    }
    level
}

/// Registers a snake (head first) and marks its cells.
fn add_snake(level: &mut LevelInstance, reg: &mut MovableRegistry, id: u64, parts: Vec<SnakeElement>) {
    for (p, _) in &parts {
        level.mark_position_occupied(*p, occupant(id, EntityType::Snake));
    }
    assert!(reg.add_snake(Entity::new(id), Snake::new(&parts, 0)));
}

fn add_box(level: &mut LevelInstance, reg: &mut MovableRegistry, id: u64, p: Cell) {
    level.mark_position_occupied(p, occupant(id, EntityType::Box));
    assert!(reg.add_box(Entity::new(id), GridEntity::new(p, EntityType::Box)));
}

/// The three-segment snake of the first example: cells (0,1,0) to (2,1,0), head at x = 2, facing +X.
fn three_segment_snake() -> Vec<SnakeElement> {
    let x = c(1, 0, 0);
    vec![(c(2, 1, 0), x), (c(1, 1, 0), x), (c(0, 1, 0), x)]
}

fn parts_of(cmds: &SnakeCommands, id: u64) -> Vec<SnakeElement> {
    cmds.movables().get_snake(Entity::new(id)).unwrap().parts().clone()
}

fn cells_of(level: &LevelInstance, cells: &[Cell]) -> Vec<Option<LevelGridEntity>> {
    cells.iter().map(|p| level.get(*p)).collect()
}

fn probe_cells() -> Vec<Cell> {
    let mut v = Vec::new();
    for x in -2..=8 {
        for y in -3..=6 {
            v.push(c(x, y, 0));
        }
    }
    v
}

#[test]
fn level_index_records_and_clears_occupants() {
    let mut level = LevelInstance::new();
    let p = c(3, 4, 5);
    assert!(level.is_empty(p));
    assert_eq!(level.get(p), None);
    level.mark_position_occupied(p, occupant(7, EntityType::Food));
    assert!(!level.is_empty(p));
    assert_eq!(level.get(p), Some(occupant(7, EntityType::Food)));
    assert!(level.is_food(p));
    assert!(!level.is_spike(p));
    assert!(level.can_walk_or_eat(p));
    assert!(!level.is_traversable(p));
    assert!(level.is_entity(p, Entity::new(7)));
    assert!(!level.is_entity(p, Entity::new(8)));
    assert_eq!(level.get(c(3, 4, 6)), None);
    assert_eq!(level.set_empty(p), Some(occupant(7, EntityType::Food)));
    assert!(level.is_empty(p));
    assert_eq!(level.set_empty(p), None);
}

#[test]
fn occupant_kinds_classify_cells() {
    let mut level = LevelInstance::new();
    level.mark_position_occupied(c(0, 0, 0), occupant(1, EntityType::Goal));
    level.mark_position_occupied(c(1, 0, 0), occupant(2, EntityType::Trigger));
    level.mark_position_occupied(c(2, 0, 0), occupant(3, EntityType::Spike));
    level.mark_position_occupied(c(3, 0, 0), occupant(4, EntityType::Box));
    level.mark_position_occupied(c(4, 0, 0), occupant(5, EntityType::Wall));
    assert!(level.is_traversable(c(0, 0, 0)));
    assert!(level.is_traversable(c(1, 0, 0)));
    assert!(level.is_traversable(c(9, 9, 9)));
    assert!(!level.is_traversable(c(2, 0, 0)));
    assert!(level.is_empty_or_spike(c(2, 0, 0)));
    assert!(!level.is_empty_or_spike(c(4, 0, 0)));
    assert_eq!(level.is_movable(c(3, 0, 0)), Some(occupant(4, EntityType::Box)));
    assert_eq!(level.is_movable(c(4, 0, 0)), None);
    assert!(!level.can_walk_or_eat(c(4, 0, 0)));
    assert!(EntityType::Snake.is_movable());
    assert!(!EntityType::Wall.is_movable());
    assert!(EntityType::Goal.is_traversable());
    assert!(!EntityType::Food.is_traversable());
}

#[test]
fn distance_to_ground_counts_cells_and_skips_spikes_and_self() {
    let mut level = floor_level();
    let me = Entity::new(SNAKE);
    // Standing on the floor.
    assert_eq!(level.get_distance_to_ground(c(0, 1, 0), me), 1);
    // Three cells above a wall at height 1.
    wall(&mut level, 80, c(3, 1, 0));
    assert_eq!(level.get_distance_to_ground(c(3, 4, 0), me), 3);
    // A spike is no ground.
    level.mark_position_occupied(c(3, 2, 0), occupant(9, EntityType::Spike));
    assert_eq!(level.get_distance_to_ground(c(3, 4, 0), me), 3);
    // The entity's own cells are no ground either, another's are.
    level.mark_position_occupied(c(3, 3, 0), occupant(SNAKE, EntityType::Snake));
    assert_eq!(level.get_distance_to_ground(c(3, 4, 0), me), 3);
    assert_eq!(level.get_distance_to_ground(c(3, 4, 0), Entity::new(5)), 1);
    // The scan gives up once it reaches height 0: the sentinel.
    assert_eq!(level.get_distance_to_ground(c(0, 3, 0), me), NO_GROUND_DISTANCE);
    assert_eq!(level.get_distance_to_ground(c(20, 5, 0), me), NO_GROUND_DISTANCE);
    assert_eq!(NO_GROUND_DISTANCE, 50);
}

#[test]
fn batch_updates_revert_to_the_previous_index() {
    let mut level = floor_level();
    let b = occupant(BOX, EntityType::Box);
    let cells = vec![c(1, 1, 0), c(2, 1, 0)];
    level.mark_entity_positions(&cells, b);
    let probe = probe_cells();
    let before = cells_of(&level, &probe);
    let updates = level.move_cells(&cells, b, c(1, 0, 0));
    assert_eq!(level.get(c(1, 1, 0)), None);
    assert_eq!(level.get(c(2, 1, 0)), Some(b));
    assert_eq!(level.get(c(3, 1, 0)), Some(b));
    assert_eq!(updates.len(), 4);
    assert_eq!(updates[0], LevelEntityUpdateEvent::FillPosition(c(3, 1, 0)));
    assert_eq!(updates[3], LevelEntityUpdateEvent::ClearPosition(c(1, 1, 0), b));
    level.undo_updates(&updates);
    assert_eq!(cells_of(&level, &probe), before);
    let cleared = level.clear_posisitons(&cells);
    assert_eq!(cleared, vec![
        LevelEntityUpdateEvent::ClearPosition(c(1, 1, 0), b),
        LevelEntityUpdateEvent::ClearPosition(c(2, 1, 0), b),
    ]);
    assert!(level.is_empty(c(1, 1, 0)) && level.is_empty(c(2, 1, 0)));
    level.undo_updates(&cleared);
    assert_eq!(cells_of(&level, &probe), before);
}

#[test]
fn push_check_accepts_own_and_traversable_cells() {
    let mut level = LevelInstance::new();
    let b = Entity::new(BOX);
    level.mark_position_occupied(c(0, 0, 0), occupant(BOX, EntityType::Box));
    level.mark_position_occupied(c(1, 0, 0), occupant(BOX, EntityType::Box));
    let cells = vec![c(0, 0, 0), c(1, 0, 0)];
    assert!(level.can_push_entity(b, &cells, c(1, 0, 0)));
    level.mark_position_occupied(c(2, 0, 0), occupant(9, EntityType::Trigger));
    assert!(level.can_push_entity(b, &cells, c(1, 0, 0)));
    level.mark_position_occupied(c(2, 0, 0), occupant(9, EntityType::Wall));
    assert!(!level.can_push_entity(b, &cells, c(1, 0, 0)));
}

#[test]
fn snake_geometry_moves_grows_and_reverts() {
    let mut snake = Snake::new(&three_segment_snake(), 3);
    assert_eq!(snake.len(), 3);
    assert_eq!(snake.index(), 3);
    assert_eq!(snake.head_position(), c(2, 1, 0));
    assert_eq!(snake.tail_position(), c(0, 1, 0));
    assert!(!snake.is_standing());
    let old_tail = snake.tail();
    snake.move_forward(c(1, 0, 0));
    assert_eq!(snake.head_position(), c(3, 1, 0));
    assert_eq!(snake.tail_position(), c(1, 1, 0));
    assert!(!snake.occupies_position(c(0, 1, 0)));
    snake.grow();
    assert_eq!(snake.len(), 4);
    assert_eq!(snake.tail_position(), c(0, 1, 0));
    snake.shrink();
    snake.move_back(&old_tail);
    assert_eq!(snake.parts(), &three_segment_snake());
    let up = c(0, 1, 0);
    let standing = Snake::new(&vec![(c(0, 3, 0), up), (c(0, 2, 0), up), (c(0, 1, 0), up)], 0);
    assert!(standing.is_standing());
}

/// First example: eat, grow, four history entries, and one undo.
#[test]
fn move_eats_food_grows_and_undoes() {
    let mut level = floor_level();
    let mut reg = MovableRegistry::new();
    add_snake(&mut level, &mut reg, SNAKE, three_segment_snake());
    let food = occupant(50, EntityType::Food);
    level.mark_position_occupied(c(3, 1, 0), food);
    let probe = probe_cells();
    let before = cells_of(&level, &probe);
    let mut cmds = SnakeCommands::new(level, reg);

    let out = cmds.snake_movement_control(Entity::new(SNAKE), c(1, 0, 0), None, false).unwrap();
    let expected_cmd = PlayerMoveCommand {
        entity: Entity::new(SNAKE),
        direction: c(1, 0, 0),
        pushed_entity: None,
        food: Some(GridEntity::new(c(3, 1, 0), EntityType::Food)),
    };
    assert_eq!(out, MoveOutcome::Moved(expected_cmd));
    let parts = parts_of(&cmds, SNAKE);
    let cells: Vec<Cell> = parts.iter().map(|p| p.0).collect();
    assert_eq!(cells, vec![c(3, 1, 0), c(2, 1, 0), c(1, 1, 0), c(0, 1, 0)]);
    let level = cmds.level_instance();
    for p in &cells {
        assert_eq!(level.get(*p), Some(occupant(SNAKE, EntityType::Snake)));
    }
    let history = &cmds.history().move_history;
    assert_eq!(history.len(), 4);
    assert!(matches!(history[0].event, MoveHistoryEvent::PlayerSnakeMove));
    assert!(matches!(history[1].event, MoveHistoryEvent::Eat(p) if p == c(3, 1, 0)));
    assert!(matches!(history[2].event, MoveHistoryEvent::SnakeMoveForward(_)));
    assert!(matches!(history[3].event, MoveHistoryEvent::Grow));

    let effects = cmds.undo().unwrap();
    assert_eq!(effects, vec![
        UndoEffect::DespawnSnakePart(SnakePart { snake_index: 0, part_index: 3 }),
        UndoEffect::SpawnFood(c(3, 1, 0)),
    ]);
    assert_eq!(parts_of(&cmds, SNAKE), three_segment_snake());
    assert_eq!(cmds.level_instance().get(c(3, 1, 0)), Some(food));
    assert_eq!(cells_of(cmds.level_instance(), &probe), before);
    assert_eq!(cmds.history().move_history.len(), 0);
}

/// Second example: a wall ahead (and above) leaves everything as it was.
#[test]
fn move_into_wall_changes_nothing() {
    let mut level = floor_level();
    let mut reg = MovableRegistry::new();
    add_snake(&mut level, &mut reg, SNAKE, three_segment_snake());
    wall(&mut level, 60, c(3, 1, 0));
    wall(&mut level, 61, c(2, 2, 0));
    let probe = probe_cells();
    let before = cells_of(&level, &probe);
    let mut cmds = SnakeCommands::new(level, reg);
    let out = cmds.snake_movement_control(Entity::new(SNAKE), c(1, 0, 0), None, false).unwrap();
    assert_eq!(out, MoveOutcome::Ignored);
    assert_eq!(cmds.history().move_history.len(), 0);
    assert_eq!(cells_of(cmds.level_instance(), &probe), before);
    assert_eq!(parts_of(&cmds, SNAKE), three_segment_snake());
}

#[test]
fn blocked_move_climbs_up_instead() {
    let mut level = floor_level();
    let mut reg = MovableRegistry::new();
    add_snake(&mut level, &mut reg, SNAKE, three_segment_snake());
    wall(&mut level, 60, c(3, 1, 0));
    let mut cmds = SnakeCommands::new(level, reg);
    let out = cmds.snake_movement_control(Entity::new(SNAKE), c(1, 0, 0), None, false).unwrap();
    assert!(matches!(out, MoveOutcome::Moved(cmd) if cmd.direction == c(0, 1, 0)));
    assert_eq!(parts_of(&cmds, SNAKE)[0], (c(2, 2, 0), c(0, 1, 0)));
}

#[test]
fn turning_back_and_falling_snakes_are_ignored() {
    let mut level = floor_level();
    let mut reg = MovableRegistry::new();
    add_snake(&mut level, &mut reg, SNAKE, three_segment_snake());
    let mut cmds = SnakeCommands::new(level, reg);
    let me = Entity::new(SNAKE);
    assert_eq!(cmds.snake_movement_control(me, c(-1, 0, 0), None, false), Ok(MoveOutcome::Ignored));
    assert_eq!(cmds.snake_movement_control(me, c(1, 0, 0), None, true), Ok(MoveOutcome::Ignored));
    assert_eq!(cmds.snake_movement_control(Entity::new(77), c(1, 0, 0), None, false), Ok(MoveOutcome::Ignored));
    assert_eq!(cmds.history().move_history.len(), 0);
}

#[test]
fn standing_snake_jumps_unless_food_or_goal_above() {
    let up = c(0, 1, 0);
    let parts = vec![(c(0, 3, 0), up), (c(0, 2, 0), up), (c(0, 1, 0), up)];
    let mut level = floor_level();
    let mut reg = MovableRegistry::new();
    add_snake(&mut level, &mut reg, SNAKE, parts);
    let mut cmds = SnakeCommands::new(level, reg);
    let me = Entity::new(SNAKE);
    assert_eq!(cmds.snake_movement_control(me, up, None, false), Ok(MoveOutcome::Jump));
    let out = cmds.snake_movement_control(me, up, Some(c(0, 4, 0)), false).unwrap();
    assert!(matches!(out, MoveOutcome::Moved(_)));
}

#[test]
fn push_moves_box_and_undo_restores_it() {
    let mut level = floor_level();
    let mut reg = MovableRegistry::new();
    add_snake(&mut level, &mut reg, SNAKE, three_segment_snake());
    add_box(&mut level, &mut reg, BOX, c(3, 1, 0));
    let probe = probe_cells();
    let before = cells_of(&level, &probe);
    let mut cmds = SnakeCommands::new(level, reg);
    let out = cmds.snake_movement_control(Entity::new(SNAKE), c(1, 0, 0), None, false).unwrap();
    assert!(matches!(out, MoveOutcome::Moved(cmd) if cmd.pushed_entity == Some(occupant(BOX, EntityType::Box))));
    assert_eq!(cmds.movables().get_box(Entity::new(BOX)).unwrap().position, c(4, 1, 0));
    assert_eq!(cmds.level_instance().get(c(4, 1, 0)), Some(occupant(BOX, EntityType::Box)));
    assert_eq!(cmds.level_instance().get(c(3, 1, 0)), Some(occupant(SNAKE, EntityType::Snake)));
    assert_eq!(cmds.history().move_history.len(), 3);
    assert_eq!(cmds.undo(), Ok(vec![]));
    assert_eq!(cmds.movables().get_box(Entity::new(BOX)).unwrap().position, c(3, 1, 0));
    assert_eq!(parts_of(&cmds, SNAKE), three_segment_snake());
    assert_eq!(cells_of(cmds.level_instance(), &probe), before);
}

#[test]
fn push_into_wall_is_refused_without_change() {
    let mut level = floor_level();
    let mut reg = MovableRegistry::new();
    add_snake(&mut level, &mut reg, SNAKE, three_segment_snake());
    add_box(&mut level, &mut reg, BOX, c(3, 1, 0));
    wall(&mut level, 60, c(4, 1, 0));
    wall(&mut level, 61, c(2, 2, 0));
    let probe = probe_cells();
    let before = cells_of(&level, &probe);
    let mut cmds = SnakeCommands::new(level, reg);
    let out = cmds.snake_movement_control(Entity::new(SNAKE), c(1, 0, 0), None, false);
    assert_eq!(out, Ok(MoveOutcome::Ignored));
    assert_eq!(cmds.history().move_history.len(), 0);
    assert_eq!(cells_of(cmds.level_instance(), &probe), before);
    assert_eq!(cmds.movables().get_box(Entity::new(BOX)).unwrap().position, c(3, 1, 0));
}

#[test]
fn undo_with_empty_history_changes_nothing() {
    let mut level = floor_level();
    let mut reg = MovableRegistry::new();
    add_snake(&mut level, &mut reg, SNAKE, three_segment_snake());
    let probe = probe_cells();
    let before = cells_of(&level, &probe);
    let mut cmds = SnakeCommands::new(level, reg);
    assert_eq!(cmds.undo(), Ok(vec![]));
    assert_eq!(cmds.undo(), Ok(vec![]));
    assert_eq!(cells_of(cmds.level_instance(), &probe), before);
    assert_eq!(parts_of(&cmds, SNAKE), three_segment_snake());
    assert_eq!(cmds.history().move_history.len(), 0);
}

#[test]
fn undo_stops_at_the_last_turn_marker() {
    let mut level = floor_level();
    let mut reg = MovableRegistry::new();
    add_snake(&mut level, &mut reg, SNAKE, three_segment_snake());
    let mut cmds = SnakeCommands::new(level, reg);
    let me = Entity::new(SNAKE);
    cmds.snake_movement_control(me, c(1, 0, 0), None, false).unwrap();
    let after_first = parts_of(&cmds, SNAKE);
    cmds.snake_movement_control(me, c(1, 0, 0), None, false).unwrap();
    assert_eq!(cmds.history().move_history.len(), 4);
    cmds.undo().unwrap();
    assert_eq!(parts_of(&cmds, SNAKE), after_first);
    assert_eq!(cmds.history().move_history.len(), 2);
    cmds.undo().unwrap();
    assert_eq!(parts_of(&cmds, SNAKE), three_segment_snake());
}

/// Third example: with no ground below, the fall never lands.
#[test]
fn bottomless_fall_never_lands() {
    let mut level = LevelInstance::new();
    let mut reg = MovableRegistry::new();
    add_box(&mut level, &mut reg, BOX, c(0, 5, 0));
    let mut cmds = SnakeCommands::new(level, reg);
    let b = occupant(BOX, EntityType::Box);
    let (out, mut fall) = cmds.gravity_step(b, None).unwrap();
    assert_eq!(out, GravityOutcome::StartedFalling);
    assert_eq!(fall, Some(1));
    assert!(cmds.level_instance().is_empty(c(0, 5, 0)));
    for tick in 0..60 {
        let (out, next) = cmds.gravity_step(b, fall).unwrap();
        assert_eq!(out, GravityOutcome::Falling);
        assert_eq!(next, Some(tick + 2));
        fall = next;
    }
    assert_eq!(cmds.movables().get_box(Entity::new(BOX)).unwrap().position, c(0, 5 - 61, 0));
    assert_eq!(cmds.history().move_history.len(), 1);
}

/// Fourth example: a fall of exactly three cells is one history entry, undone at once.
#[test]
fn three_cell_fall_is_undone_in_one_step() {
    let mut level = floor_level();
    let mut reg = MovableRegistry::new();
    let x = c(1, 0, 0);
    let parts = vec![(c(1, 4, 0), x), (c(0, 4, 0), x)];
    add_snake(&mut level, &mut reg, SNAKE, parts.clone());
    let probe = probe_cells();
    let before = cells_of(&level, &probe);
    let mut cmds = SnakeCommands::new(level, reg);
    let s = occupant(SNAKE, EntityType::Snake);
    let (out, mut fall) = cmds.gravity_step(s, None).unwrap();
    assert_eq!(out, GravityOutcome::StartedFalling);
    let mut outcomes = vec![];
    loop {
        let (out, next) = cmds.gravity_step(s, fall).unwrap();
        outcomes.push(out);
        if next.is_none() {
            break;
        }
        fall = next;
    }
    assert_eq!(outcomes, vec![GravityOutcome::Falling, GravityOutcome::Falling, GravityOutcome::Landed]);
    assert_eq!(fall, Some(3));
    assert_eq!(parts_of(&cmds, SNAKE)[0].0, c(1, 1, 0));
    assert_eq!(cmds.level_instance().get(c(1, 1, 0)), Some(s));
    assert!(cmds.level_instance().is_empty(c(1, 4, 0)));
    let history = &cmds.history().move_history;
    assert_eq!(history.len(), 1);
    assert!(matches!(&history[0].event, MoveHistoryEvent::BeginFall(b) if b.end.is_some()));
    cmds.undo().unwrap();
    assert_eq!(parts_of(&cmds, SNAKE), parts);
    assert_eq!(cells_of(cmds.level_instance(), &probe), before);
    assert_eq!(cmds.history().move_history.len(), 0);
}

#[test]
fn fall_on_spikes_is_rolled_back_entirely() {
    let mut level = floor_level();
    let mut reg = MovableRegistry::new();
    add_box(&mut level, &mut reg, BOX, c(0, 4, 0));
    level.mark_position_occupied(c(0, 2, 0), occupant(70, EntityType::Spike));
    let probe = probe_cells();
    let before = cells_of(&level, &probe);
    let mut cmds = SnakeCommands::new(level, reg);
    let b = occupant(BOX, EntityType::Box);
    let (out, fall) = cmds.gravity_step(b, None).unwrap();
    assert_eq!(out, GravityOutcome::StartedFalling);
    let (out, fall) = cmds.gravity_step(b, fall).unwrap();
    assert_eq!(out, GravityOutcome::Falling);
    let (out, fall) = cmds.gravity_step(b, fall).unwrap();
    assert_eq!(out, GravityOutcome::HitSpikes);
    assert_eq!(fall, None);
    cmds.undo().unwrap();
    assert_eq!(cmds.movables().get_box(Entity::new(BOX)).unwrap().position, c(0, 4, 0));
    assert_eq!(cells_of(cmds.level_instance(), &probe), before);
}

#[test]
fn grounded_entity_does_not_fall() {
    let mut level = floor_level();
    let mut reg = MovableRegistry::new();
    add_box(&mut level, &mut reg, BOX, c(0, 1, 0));
    let mut cmds = SnakeCommands::new(level, reg);
    let b = occupant(BOX, EntityType::Box);
    assert_eq!(cmds.gravity_step(b, None), Ok((GravityOutcome::Grounded, None)));
    assert_eq!(cmds.gravity_step(b, Some(0)), Ok((GravityOutcome::Landed, None)));
    assert_eq!(cmds.history().move_history.len(), 0);
}

#[test]
fn exit_level_and_undo_bring_the_snake_back() {
    let mut level = floor_level();
    let mut reg = MovableRegistry::new();
    add_snake(&mut level, &mut reg, SNAKE, three_segment_snake());
    let probe = probe_cells();
    let before = cells_of(&level, &probe);
    let mut cmds = SnakeCommands::new(level, reg);
    let me = Entity::new(SNAKE);
    cmds.exit_level(me, false).unwrap();
    assert_eq!(cmds.movables().is_snake_active(me), Some(false));
    assert!(cmds.level_instance().is_empty(c(2, 1, 0)));
    assert_eq!(cmds.undo(), Ok(vec![UndoEffect::ActivateSnake(me)]));
    assert_eq!(cmds.movables().is_snake_active(me), Some(true));
    assert_eq!(cells_of(cmds.level_instance(), &probe), before);
}

#[test]
fn command_errors_name_the_contradiction() {
    let mut level = floor_level();
    let mut reg = MovableRegistry::new();
    add_snake(&mut level, &mut reg, SNAKE, three_segment_snake());
    let mut cmds = SnakeCommands::new(level, reg);
    let stranger = Entity::new(99);
    let cmd = cmds.player_move(stranger, c(1, 0, 0));
    assert_eq!(cmd.execute(&mut cmds), Err(CommandError::InvalidEntity(occupant(99, EntityType::Snake))));
    let hungry = cmds
        .player_move(Entity::new(SNAKE), c(1, 0, 0))
        .eating_food(Some(GridEntity::new(c(3, 1, 0), EntityType::Food)));
    assert_eq!(hungry.execute(&mut cmds), Err(CommandError::MissingFood(c(3, 1, 0))));
    assert!(!cmds.has_open_fall(Entity::new(SNAKE)));
    let pushing_itself = cmds
        .player_move(Entity::new(SNAKE), c(1, 0, 0))
        .pushing_entity(Some(occupant(SNAKE, EntityType::Snake)));
    assert_eq!(
        pushing_itself.execute(&mut cmds),
        Err(CommandError::InvalidEntity(occupant(SNAKE, EntityType::Snake)))
    );
    // A refused move leaves nothing behind, not even its turn marker.
    assert_eq!(cmds.history().move_history.len(), 0);
    assert_eq!(parts_of(&cmds, SNAKE), three_segment_snake());
    assert_eq!(cmds.start_falling(occupant(BOX, EntityType::Box)), Err(CommandError::InvalidEntity(occupant(BOX, EntityType::Box))));

    let mut edge_level = LevelInstance::new();
    let mut edge_reg = MovableRegistry::new();
    let x = c(1, 0, 0);
    add_snake(&mut edge_level, &mut edge_reg, SNAKE, vec![(c(i32::MAX, 1, 0), x)]);
    let mut edge = SnakeCommands::new(edge_level, edge_reg);
    let cmd = edge.player_move(Entity::new(SNAKE), x);
    assert_eq!(cmd.execute(&mut edge), Err(CommandError::OutOfRange));
}

#[test]
fn undo_error_names_the_missing_entity() {
    let mut level = LevelInstance::new();
    let mut reg = MovableRegistry::new();
    let mut history = SnakeHistory::new();
    let ghost_snake = occupant(42, EntityType::Snake);
    history.push(MoveHistoryEvent::PlayerSnakeMove, ghost_snake);
    history.push(MoveHistoryEvent::Grow, ghost_snake);
    assert_eq!(history.undo_last(&mut level, &mut reg), Err(UndoError::InvalidEntity(ghost_snake)));
}

#[test]
fn registry_refuses_duplicate_handles() {
    let mut reg = MovableRegistry::new();
    assert!(reg.add_box(Entity::new(1), GridEntity::new(c(0, 0, 0), EntityType::Box)));
    assert!(!reg.add_box(Entity::new(1), GridEntity::new(c(1, 0, 0), EntityType::Box)));
    assert_eq!(reg.get_box(Entity::new(1)).unwrap().position, c(0, 0, 0));
    assert!(reg.add_snake(Entity::new(1), Snake::new(&three_segment_snake(), 0)));
    assert!(!reg.add_snake(Entity::new(1), Snake::new(&three_segment_snake(), 1)));
    assert!(reg.contains(occupant(1, EntityType::Snake)));
    assert_eq!(reg.get(occupant(1, EntityType::Snake)), vec![c(2, 1, 0), c(1, 1, 0), c(0, 1, 0)]);
    assert!(!reg.contains(occupant(1, EntityType::Wall)));
    assert!(!reg.contains(occupant(2, EntityType::Box)));
}

#[test]
fn move_off_a_ledge_and_fall_are_undone_together() {
    let mut level = LevelInstance::new();
    for x in 0..=3 {
        wall(&mut level, (100 + x) as u64, c(x, 3, 0));
    }
    for x in 4..=8 {
        wall(&mut level, (200 + x) as u64, c(x, 1, 0));
    }
    let mut reg = MovableRegistry::new();
    let x = c(1, 0, 0);
    add_snake(&mut level, &mut reg, SNAKE, vec![(c(3, 4, 0), x)]);
    let probe = probe_cells();
    let before = cells_of(&level, &probe);
    let mut cmds = SnakeCommands::new(level, reg);
    let me = Entity::new(SNAKE);
    let s = occupant(SNAKE, EntityType::Snake);
    assert_eq!(cmds.gravity_step(s, None), Ok((GravityOutcome::Grounded, None)));
    assert!(matches!(cmds.snake_movement_control(me, x, None, false), Ok(MoveOutcome::Moved(_))));
    let (out, mut fall) = cmds.gravity_step(s, None).unwrap();
    assert_eq!(out, GravityOutcome::StartedFalling);
    loop {
        let (out, next) = cmds.gravity_step(s, fall).unwrap();
        if next.is_none() {
            assert_eq!(out, GravityOutcome::Landed);
            break;
        }
        fall = next;
    }
    assert_eq!(parts_of(&cmds, SNAKE), vec![(c(4, 2, 0), x)]);
    assert_eq!(cmds.history().move_history.len(), 3);
    cmds.undo().unwrap();
    assert_eq!(parts_of(&cmds, SNAKE), vec![(c(3, 4, 0), x)]);
    assert_eq!(cells_of(cmds.level_instance(), &probe), before);
    assert_eq!(cmds.history().move_history.len(), 0);
}

#[test]
fn undo_after_stepping_onto_a_trigger_restores_it() {
    let mut level = floor_level();
    let mut reg = MovableRegistry::new();
    let x = c(1, 0, 0);
    add_snake(&mut level, &mut reg, SNAKE, vec![(c(1, 1, 0), x), (c(0, 1, 0), x)]);
    let trigger = occupant(70, EntityType::Trigger);
    level.mark_position_occupied(c(2, 1, 0), trigger);
    let probe = probe_cells();
    let before = cells_of(&level, &probe);
    let mut cmds = SnakeCommands::new(level, reg);
    let out = cmds.snake_movement_control(Entity::new(SNAKE), x, None, false).unwrap();
    assert!(matches!(out, MoveOutcome::Moved(_)));
    assert_eq!(cmds.level_instance().get(c(2, 1, 0)), Some(occupant(SNAKE, EntityType::Snake)));
    cmds.undo().unwrap();
    assert_eq!(cmds.level_instance().get(c(2, 1, 0)), Some(trigger));
    assert_eq!(cells_of(cmds.level_instance(), &probe), before);
}

#[test]
fn undo_after_pushing_a_box_onto_a_goal_restores_it() {
    let mut level = floor_level();
    let mut reg = MovableRegistry::new();
    add_snake(&mut level, &mut reg, SNAKE, three_segment_snake());
    add_box(&mut level, &mut reg, BOX, c(3, 1, 0));
    let goal = occupant(71, EntityType::Goal);
    level.mark_position_occupied(c(4, 1, 0), goal);
    let probe = probe_cells();
    let before = cells_of(&level, &probe);
    let mut cmds = SnakeCommands::new(level, reg);
    cmds.snake_movement_control(Entity::new(SNAKE), c(1, 0, 0), None, false).unwrap();
    assert_eq!(cmds.level_instance().get(c(4, 1, 0)), Some(occupant(BOX, EntityType::Box)));
    cmds.undo().unwrap();
    assert_eq!(cmds.level_instance().get(c(4, 1, 0)), Some(goal));
    assert_eq!(cells_of(cmds.level_instance(), &probe), before);
}

#[test]
fn undo_after_landing_on_a_trigger_restores_it() {
    let mut level = floor_level();
    let mut reg = MovableRegistry::new();
    add_box(&mut level, &mut reg, BOX, c(0, 3, 0));
    let trigger = occupant(72, EntityType::Trigger);
    level.mark_position_occupied(c(0, 1, 0), trigger);
    let probe = probe_cells();
    let before = cells_of(&level, &probe);
    let mut cmds = SnakeCommands::new(level, reg);
    let b = occupant(BOX, EntityType::Box);
    cmds.start_falling(b).unwrap();
    cmds.fall_one_unit(b).unwrap();
    cmds.fall_one_unit(b).unwrap();
    assert!(cmds.has_open_fall(Entity::new(BOX)));
    cmds.stop_falling(b);
    assert_eq!(cmds.level_instance().get(c(0, 1, 0)), Some(b));
    cmds.undo().unwrap();
    assert_eq!(cmds.level_instance().get(c(0, 1, 0)), Some(trigger));
    assert_eq!(cells_of(cmds.level_instance(), &probe), before);
}

#[test]
fn moving_a_snake_keeps_the_directions_of_its_segments() {
    let mut snake = Snake::new(&three_segment_snake(), 0);
    snake.translate(c(0, -1, 0));
    assert_eq!(snake.parts(), &vec![(c(2, 0, 0), c(1, 0, 0)), (c(1, 0, 0), c(1, 0, 0)), (c(0, 0, 0), c(1, 0, 0))]);
    snake.set_positions(&[c(5, 5, 5), c(4, 5, 5), c(3, 5, 5)]);
    assert_eq!(snake.parts()[2], (c(3, 5, 5), c(1, 0, 0)));
    assert_eq!(Movable::entity_type(&snake), EntityType::Snake);
}

#[test]
fn snake_below_the_world_is_put_back() {
    let mut level = LevelInstance::new();
    let mut reg = MovableRegistry::new();
    let x = c(1, 0, 0);
    add_snake(&mut level, &mut reg, SNAKE, vec![(c(0, 2, 0), x)]);
    let probe = probe_cells();
    let before = cells_of(&level, &probe);
    let mut cmds = SnakeCommands::new(level, reg);
    let s = occupant(SNAKE, EntityType::Snake);
    let me = Entity::new(SNAKE);
    let (_, mut fall) = cmds.gravity_step(s, None).unwrap();
    assert_eq!(cmds.respawn_on_fall(me), Ok(None));
    let mut done = false;
    for _ in 0..10 {
        let (_, next) = cmds.gravity_step(s, fall).unwrap();
        fall = next;
        if let Some(_) = cmds.respawn_on_fall(me).unwrap() {
            done = true;
            break;
        }
    }
    assert!(done);
    assert!(!cmds.has_open_fall(me));
    assert_eq!(parts_of(&cmds, SNAKE), vec![(c(0, 2, 0), x)]);
    assert_eq!(cells_of(cmds.level_instance(), &probe), before);
}

#[test]
fn step_forward_records_the_tail_clear_before_the_head_fill() {
    let mut level = floor_level();
    let x = c(1, 0, 0);
    let snake = Snake::new(&vec![(c(1, 1, 0), x), (c(0, 1, 0), x)], 0);
    let me = occupant(SNAKE, EntityType::Snake);
    level.mark_position_occupied(c(1, 1, 0), me);
    level.mark_position_occupied(c(0, 1, 0), me);
    let updates = level.move_snake_forward(&snake, Entity::new(SNAKE), x);
    assert_eq!(updates, vec![
        LevelEntityUpdateEvent::ClearPosition(c(0, 1, 0), me),
        LevelEntityUpdateEvent::FillPosition(c(2, 1, 0)),
    ]);
    let trigger = occupant(70, EntityType::Trigger);
    level.mark_position_occupied(c(3, 1, 0), trigger);
    let moved = Snake::new(&vec![(c(2, 1, 0), x), (c(1, 1, 0), x)], 0);
    let updates = level.move_snake_forward(&moved, Entity::new(SNAKE), x);
    assert_eq!(updates, vec![
        LevelEntityUpdateEvent::ClearPosition(c(1, 1, 0), me),
        LevelEntityUpdateEvent::FillPosition(c(3, 1, 0)),
        LevelEntityUpdateEvent::ClearPosition(c(3, 1, 0), trigger),
    ]);
}

#[test]
fn landing_records_fills_in_cell_order() {
    let mut level = floor_level();
    let mut reg = MovableRegistry::new();
    let x = c(1, 0, 0);
    add_snake(&mut level, &mut reg, SNAKE, vec![(c(1, 3, 0), x), (c(0, 3, 0), x)]);
    let mut cmds = SnakeCommands::new(level, reg);
    let s = occupant(SNAKE, EntityType::Snake);
    let (_, mut fall) = cmds.gravity_step(s, None).unwrap();
    loop {
        let (_, next) = cmds.gravity_step(s, fall).unwrap();
        if next.is_none() {
            break;
        }
        fall = next;
    }
    let history = &cmds.history().move_history;
    assert_eq!(history.len(), 1);
    match &history[0].event {
        MoveHistoryEvent::BeginFall(b) => {
            assert_eq!(b.positions, vec![c(1, 3, 0), c(0, 3, 0)]);
            assert_eq!(b.end.as_ref().unwrap().walkable_updates, vec![
                LevelEntityUpdateEvent::FillPosition(c(1, 1, 0)),
                LevelEntityUpdateEvent::FillPosition(c(0, 1, 0)),
            ]);
        }
        _ => panic!("a fall entry was expected"),
    }
}

#[test]
fn failed_undo_stops_at_the_entry_it_cannot_revert() {
    let mut level = LevelInstance::new();
    let mut reg = MovableRegistry::new();
    let x = c(1, 0, 0);
    add_snake(&mut level, &mut reg, SNAKE, vec![(c(0, 1, 0), x)]);
    let mut history = SnakeHistory::new();
    let ghost_snake = occupant(42, EntityType::Snake);
    history.push(MoveHistoryEvent::PlayerSnakeMove, ghost_snake);
    history.push(MoveHistoryEvent::Grow, ghost_snake);
    history.push_with_updates(
        MoveHistoryEvent::Eat(c(5, 5, 5)),
        occupant(SNAKE, EntityType::Food),
        vec![LevelEntityUpdateEvent::ClearPosition(c(5, 5, 5), occupant(9, EntityType::Food))],
    );
    assert_eq!(history.undo_last(&mut level, &mut reg), Err(UndoError::InvalidEntity(ghost_snake)));
    // The meal above was reverted, the growth was popped, the marker stays.
    assert_eq!(level.get(c(5, 5, 5)), Some(occupant(9, EntityType::Food)));
    assert_eq!(history.move_history.len(), 1);
}
