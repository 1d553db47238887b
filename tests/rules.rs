use cat_snake::commands::SnakeCommands;
use cat_snake::grid::{Cell, Entity, EntityType, LevelGridEntity};
use cat_snake::level_entities::GridEntity;
use cat_snake::level_instance::LevelInstance;
use cat_snake::level_template::{spawn_level_entities, EntityTemplate, LevelError, LevelTemplate};
use cat_snake::movement::{all_triggers_pressed, fell_out_of_world, min_distance_to_ground, trigger_pressed, FALL_LIMIT_Y, MoveOutcome};
use cat_snake::registry::MovableRegistry;
use cat_snake::snake::Snake;

fn c(x: i32, y: i32, z: i32) -> Cell {
    Cell::new(x, y, z)
}

fn template() -> LevelTemplate {
    let x = c(1, 0, 0);
    let mut entities = Vec::new();
    for i in 0..8 {
        entities.push(EntityTemplate { entity_type: EntityType::Wall, grid_position: c(i, 0, 0) });
    }
    entities.push(EntityTemplate { entity_type: EntityType::Box, grid_position: c(4, 1, 0) });
    entities.push(EntityTemplate { entity_type: EntityType::Food, grid_position: c(3, 1, 0) });
    entities.push(EntityTemplate { entity_type: EntityType::Trigger, grid_position: c(6, 1, 0) });
    LevelTemplate {
        snakes: vec![vec![(c(2, 1, 0), x), (c(1, 1, 0), x), (c(0, 1, 0), x)]],
        entities,
    }
}

/// Every recorded snake or box cell belongs to that movable, and every cell of a snake in
/// play or of a box is recorded for it.
fn assert_consistent(cmds: &SnakeCommands, snakes: &[Entity], boxes: &[Entity]) {
    let level = cmds.level_instance();
    for s in snakes {
        if cmds.movables().is_snake_active(*s) != Some(true) {
            continue;
        }
        for (p, _) in cmds.movables().get_snake(*s).unwrap().parts() {
            assert_eq!(level.get(*p), Some(LevelGridEntity::new(*s, EntityType::Snake)));
        }
    }
    for b in boxes {
        let p = cmds.movables().get_box(*b).unwrap().position;
        assert_eq!(level.get(p), Some(LevelGridEntity::new(*b, EntityType::Box)));
    }
    for x in -2..10 {
        for y in -3..8 {
            let p = c(x, y, 0);
            match level.get(p) {
                Some(o) if o.entity_type == EntityType::Snake => {
                    let parts = cmds.movables().get_snake(o.entity).unwrap().parts().clone();
                    assert!(parts.iter().any(|(q, _)| *q == p));
                }
                Some(o) if o.entity_type == EntityType::Box => {
                    assert_eq!(cmds.movables().get_box(o.entity).unwrap().position, p);
                }
                _ => {}
            }
        }
    }
}

#[test]
fn template_loads_entities_then_snakes() {
    let t = template();
    let cmds = spawn_level_entities(&t).unwrap();
    let level = cmds.level_instance();
    assert_eq!(level.get(c(0, 0, 0)), Some(LevelGridEntity::new(Entity::new(0), EntityType::Wall)));
    assert_eq!(level.get(c(4, 1, 0)), Some(LevelGridEntity::new(Entity::new(8), EntityType::Box)));
    assert_eq!(level.get(c(3, 1, 0)), Some(LevelGridEntity::new(Entity::new(9), EntityType::Food)));
    assert_eq!(level.get(c(2, 1, 0)), Some(LevelGridEntity::new(Entity::new(11), EntityType::Snake)));
    assert_eq!(
        cmds.movables().get_box(Entity::new(8)),
        Some(GridEntity::new(c(4, 1, 0), EntityType::Box))
    );
    assert_eq!(cmds.movables().get_snake(Entity::new(11)).unwrap().parts(), &t.snakes[0]);
    assert_eq!(cmds.movables().is_snake_active(Entity::new(11)), Some(true));
    assert_eq!(cmds.history().move_history.len(), 0);
}

#[test]
fn template_with_a_snake_entity_is_refused() {
    let mut t = template();
    t.entities.push(EntityTemplate { entity_type: EntityType::Snake, grid_position: c(9, 9, 9) });
    assert!(matches!(spawn_level_entities(&t), Err(LevelError::SnakeAsEntity(11))));
}

#[test]
fn occupancy_stays_consistent_through_moves_and_undo() {
    let t = template();
    let mut cmds = spawn_level_entities(&t).unwrap();
    let snake = Entity::new(11);
    let boxes = [Entity::new(8)];
    assert_consistent(&cmds, &[snake], &boxes);
    // Eat, then push the box twice, then undo everything.
    for _ in 0..3 {
        let out = cmds.snake_movement_control(snake, c(1, 0, 0), None, false).unwrap();
        assert!(matches!(out, MoveOutcome::Moved(_)));
        assert_consistent(&cmds, &[snake], &boxes);
    }
    assert_eq!(cmds.movables().get_box(Entity::new(8)).unwrap().position, c(6, 1, 0));
    for _ in 0..3 {
        cmds.undo().unwrap();
        assert_consistent(&cmds, &[snake], &boxes);
    }
    assert_eq!(cmds.movables().get_snake(snake).unwrap().parts(), &t.snakes[0]);
}

#[test]
fn triggers_are_pressed_by_movables() {
    let t = template();
    let mut cmds = spawn_level_entities(&t).unwrap();
    let triggers = vec![c(6, 1, 0)];
    assert!(!trigger_pressed(cmds.level_instance(), c(6, 1, 0)));
    assert!(!all_triggers_pressed(cmds.level_instance(), &triggers));
    assert!(all_triggers_pressed(cmds.level_instance(), &vec![]));
    let snake = Entity::new(11);
    for _ in 0..3 {
        cmds.snake_movement_control(snake, c(1, 0, 0), None, false).unwrap();
    }
    assert!(trigger_pressed(cmds.level_instance(), c(6, 1, 0)));
    assert!(all_triggers_pressed(cmds.level_instance(), &triggers));
}

#[test]
fn snake_on_goal_and_next_snake() {
    let x = c(1, 0, 0);
    let mut reg = MovableRegistry::new();
    let a = Entity::new(1);
    let b = Entity::new(2);
    assert!(reg.add_snake(a, Snake::new(&vec![(c(5, 1, 0), x), (c(4, 1, 0), x)], 0)));
    assert!(reg.add_snake(b, Snake::new(&vec![(c(0, 3, 0), x)], 1)));
    assert_eq!(reg.snake_at(c(5, 1, 0)), Some(a));
    assert_eq!(reg.snake_at(c(4, 1, 0)), None);
    assert_eq!(reg.other_active_snake(a), Some(b));
    assert!(reg.set_snake_active(b, false));
    assert_eq!(reg.other_active_snake(a), None);
    assert!(reg.set_snake_active(a, false));
    assert_eq!(reg.snake_at(c(5, 1, 0)), None);
}

#[test]
fn only_unit_directions_are_taken() {
    let t = template();
    let mut cmds = spawn_level_entities(&t).unwrap();
    let snake = Entity::new(11);
    assert_eq!(cmds.snake_movement_control(snake, c(2, 0, 0), None, false), Ok(MoveOutcome::Ignored));
    assert_eq!(cmds.snake_movement_control(snake, c(0, 0, 0), None, false), Ok(MoveOutcome::Ignored));
    assert_eq!(cmds.history().move_history.len(), 0);
}

#[test]
fn falling_below_the_limit_leaves_the_world() {
    assert_eq!(FALL_LIMIT_Y, -2);
    assert!(fell_out_of_world(c(0, -3, 0)));
    assert!(!fell_out_of_world(c(0, -2, 0)));
}

#[test]
fn lowest_distance_to_ground_is_the_minimum() {
    let mut level = LevelInstance::new();
    level.mark_position_occupied(c(0, 1, 0), LevelGridEntity::new(Entity::new(5), EntityType::Wall));
    let cells = vec![c(1, 4, 0), c(0, 4, 0)];
    assert_eq!(min_distance_to_ground(&level, &cells, Entity::new(1)), 3);
    let high = vec![c(1, 4, 0)];
    assert_eq!(min_distance_to_ground(&level, &high, Entity::new(1)), 50);
}

#[test]
fn cell_arithmetic_checks_overflow() {
    assert_eq!(c(1, 2, 3).add(c(1, 0, -1)), c(2, 2, 2));
    assert_eq!(c(1, 2, 3).sub(c(1, 0, -1)), c(0, 2, 4));
    assert_eq!(c(1, -2, 3).neg(), c(-1, 2, -3));
    assert_eq!(c(i32::MAX, 0, 0).checked_add(c(1, 0, 0)), None);
    assert_eq!(c(i32::MIN, 0, 0).checked_sub(c(1, 0, 0)), None);
    assert_eq!(c(4, 0, 0).checked_add(c(1, 0, 0)), Some(c(5, 0, 0)));
    assert!(c(0, 1, 0).is_direction());
    assert!(!c(1, 1, 0).is_direction());
}

#[test]
fn snake_on_the_goal_leaves_and_the_next_is_selected() {
    let x = c(1, 0, 0);
    let mut entities = Vec::new();
    for i in 0..8 {
        entities.push(EntityTemplate { entity_type: EntityType::Wall, grid_position: c(i, 0, 0) });
    }
    entities.push(EntityTemplate { entity_type: EntityType::Goal, grid_position: c(3, 1, 0) });
    let t = LevelTemplate {
        snakes: vec![vec![(c(2, 1, 0), x), (c(1, 1, 0), x)], vec![(c(6, 1, 0), x)]],
        entities,
    };
    let mut cmds = spawn_level_entities(&t).unwrap();
    let first = Entity::new(9);
    let second = Entity::new(10);
    assert_eq!(cmds.check_for_level_completion(Some(c(3, 1, 0)), first), Ok(None));
    assert_eq!(cmds.check_for_level_completion(None, first), Ok(None));
    cmds.snake_movement_control(first, x, None, false).unwrap();
    assert_eq!(cmds.check_for_level_completion(Some(c(3, 1, 0)), first), Ok(Some((first, Some(second)))));
    assert_eq!(cmds.movables().is_snake_active(first), Some(false));
    assert!(cmds.level_instance().is_empty(c(2, 1, 0)));
    cmds.undo().unwrap();
    assert_eq!(cmds.movables().is_snake_active(first), Some(true));
}
