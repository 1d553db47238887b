//! Level templates, and loading one into a fresh simulation.
use crate::commands::SnakeCommands;
use crate::grid::{Cell, Entity, EntityType, LevelGridEntity};
use crate::level_entities::GridEntity;
use crate::level_instance::{filled, lemma_filled, LevelInstance};
use crate::occupancy::{body_ok, occupancy_consistent};
use crate::registry::{MovableRegistry, SnakeState};
use crate::undo::SimState;
use crate::snake::{element_cells, Snake, SnakeElement};
use vstd::prelude::*;

verus! {

/// A placed entity of a level: its kind and its cell.
#[derive(Clone, Copy, Debug, PartialEq, Eq, Structural)]
pub struct EntityTemplate {
    pub entity_type: EntityType,
    pub grid_position: Cell,
}

/// A level: its snakes (segments head first) and its placed entities.
pub struct LevelTemplate {
    pub snakes: Vec<Vec<SnakeElement>>,
    pub entities: Vec<EntityTemplate>,
}

/// Why a level could not be loaded.
#[derive(Clone, Copy, Debug, PartialEq, Eq, Structural)]
pub enum LevelError {
    /// A placed entity is a snake; snakes are listed apart.
    SnakeAsEntity(usize),
    /// Too many entities to number.
    TooManyEntities,
}

/// The handle given to the `i`-th placed entity, then to the snakes after them.
pub open spec fn handle(i: int) -> Entity {
    Entity { id: i as u64 }
}

/// The index after marking the placed entities of `es`, in order.
pub open spec fn placed_level(es: Seq<EntityTemplate>) -> Map<Cell, LevelGridEntity>
    decreases es.len(),
{
    if es.len() == 0 {
        Map::empty()
    } else {
        placed_level(es.drop_last()).insert(
            es.last().grid_position,
            LevelGridEntity { entity: handle(es.len() - 1), entity_type: es.last().entity_type },
        )
    }
}

/// The index after marking the cells of the snakes of `ss` on `m`, snake `j` under handle
/// `base + j`.
pub open spec fn snakes_level(m: Map<Cell, LevelGridEntity>, ss: Seq<Seq<SnakeElement>>, base: int) -> Map<
    Cell,
    LevelGridEntity,
>
    decreases ss.len(),
{
    if ss.len() == 0 {
        m
    } else {
        filled(
            snakes_level(m, ss.drop_last(), base),
            element_cells(ss.last()),
            LevelGridEntity { entity: handle(base + ss.len() - 1), entity_type: EntityType::Snake },
        )
    }
}

/// The bodies of a list of snakes.
pub open spec fn snake_bodies(ss: Seq<Vec<SnakeElement>>) -> Seq<Seq<SnakeElement>> {
    ss.map_values(|v: Vec<SnakeElement>| v@)
}

/// No placed entity is a snake.
pub open spec fn no_snake_entity(es: Seq<EntityTemplate>) -> bool {
    forall|i: int| 0 <= i < es.len() ==> #[trigger] es[i].entity_type != EntityType::Snake
}

/// A level whose cells are all distinct (placed entities and snake segments alike) and
/// whose snake bodies are well formed.
pub open spec fn template_ok(es: Seq<EntityTemplate>, ss: Seq<Seq<SnakeElement>>) -> bool {
    &&& forall|i: int, k: int|
        0 <= i < k < es.len() ==> #[trigger] es[i].grid_position != #[trigger] es[k].grid_position
    &&& forall|j: int, k: int, i: int|
        0 <= j < ss.len() && 0 <= k < ss[j].len() && 0 <= i < es.len() ==> #[trigger] ss[j][k].0
            != #[trigger] es[i].grid_position
    &&& forall|j1: int, k1: int, j2: int, k2: int|
        0 <= j1 < ss.len() && 0 <= j2 < ss.len() && j1 != j2 && 0 <= k1 < ss[j1].len() && 0 <= k2
            < ss[j2].len() ==> #[trigger] ss[j1][k1].0 != #[trigger] ss[j2][k2].0
    &&& forall|j: int| 0 <= j < ss.len() ==> body_ok(#[trigger] ss[j])
}

proof fn lemma_placed_at(es: Seq<EntityTemplate>, i: int)
    requires
        0 <= i < es.len(),
        forall|a: int, b: int|
            0 <= a < b < es.len() ==> #[trigger] es[a].grid_position != #[trigger] es[b].grid_position,
    ensures
        placed_level(es).dom().contains(es[i].grid_position),
        placed_level(es)[es[i].grid_position] == (LevelGridEntity {
            entity: handle(i),
            entity_type: es[i].entity_type,
        }),
    decreases es.len(),
{
    if i < es.len() - 1 {
        lemma_placed_at(es.drop_last(), i);
        assert(es[i].grid_position != es[es.len() - 1].grid_position);
    }
}

proof fn lemma_placed_dom(es: Seq<EntityTemplate>, c: Cell)
    ensures
        placed_level(es).dom().contains(c) ==> exists|i: int| 0 <= i < es.len() && #[trigger] es[i].grid_position == c,
    decreases es.len(),
{
    if es.len() > 0 {
        lemma_placed_dom(es.drop_last(), c);
        if placed_level(es.drop_last()).dom().contains(c) {
            let i = choose|i: int| 0 <= i < es.drop_last().len() && #[trigger] es.drop_last()[i].grid_position == c;
            assert(es[i].grid_position == c);
        }
    }
}

proof fn lemma_snakes_level_at(m: Map<Cell, LevelGridEntity>, ss: Seq<Seq<SnakeElement>>, base: int, j: int, k: int)
    requires
        0 <= j < ss.len(),
        0 <= k < ss[j].len(),
        forall|j1: int, k1: int, j2: int, k2: int|
            0 <= j1 < ss.len() && 0 <= j2 < ss.len() && j1 != j2 && 0 <= k1 < ss[j1].len() && 0 <= k2
                < ss[j2].len() ==> #[trigger] ss[j1][k1].0 != #[trigger] ss[j2][k2].0,
    ensures
        snakes_level(m, ss, base).dom().contains(ss[j][k].0),
        snakes_level(m, ss, base)[ss[j][k].0] == (LevelGridEntity {
            entity: handle(base + j),
            entity_type: EntityType::Snake,
        }),
    decreases ss.len(),
{
    let c = ss[j][k].0;
    let last = ss.len() - 1;
    let occ = LevelGridEntity { entity: handle(base + last), entity_type: EntityType::Snake };
    lemma_filled(snakes_level(m, ss.drop_last(), base), element_cells(ss.last()), occ, c);
    if j == last {
        assert(element_cells(ss.last())[k] == c);
    } else {
        lemma_snakes_level_at(m, ss.drop_last(), base, j, k);
        if element_cells(ss.last()).contains(c) {
            let k2 = choose|k2: int| 0 <= k2 < ss.last().len() && element_cells(ss.last())[k2] == c;
            assert(ss[last][k2].0 != ss[j][k].0);
        }
    }
}

/// `c` is a cell of some snake of `ss`.
pub open spec fn snake_cell(ss: Seq<Seq<SnakeElement>>, c: Cell) -> bool {
    exists|j: int, k: int| 0 <= j < ss.len() && 0 <= k < ss[j].len() && #[trigger] ss[j][k].0 == c
}

proof fn lemma_snakes_level_other(m: Map<Cell, LevelGridEntity>, ss: Seq<Seq<SnakeElement>>, base: int, c: Cell)
    ensures
        !snake_cell(ss, c) ==> snakes_level(m, ss, base).dom().contains(c) == m.dom().contains(c),
        !snake_cell(ss, c) && m.dom().contains(c) ==> snakes_level(m, ss, base)[c] == m[c],
        snakes_level(m, ss, base).dom().contains(c) ==> m.dom().contains(c) || snake_cell(ss, c),
    decreases ss.len(),
{
    if ss.len() > 0 {
        let last = ss.len() - 1;
        let occ = LevelGridEntity { entity: handle(base + last), entity_type: EntityType::Snake };
        lemma_snakes_level_other(m, ss.drop_last(), base, c);
        lemma_filled(snakes_level(m, ss.drop_last(), base), element_cells(ss.last()), occ, c);
        if element_cells(ss.last()).contains(c) {
            let k = choose|k: int| 0 <= k < ss.last().len() && element_cells(ss.last())[k] == c;
            assert(ss[last][k].0 == c);
        }
        if snake_cell(ss.drop_last(), c) {
            let (j, k) = choose|j: int, k: int|
                0 <= j < ss.drop_last().len() && 0 <= k < ss.drop_last()[j].len() && #[trigger] ss.drop_last()[j][k].0 == c;
            assert(ss[j][k].0 == c);
        }
    }
}

/// A level loaded from a well-formed template starts consistent: every snake and box cell is
/// recorded for it, and every recorded snake or box cell belongs to it.
pub proof fn lemma_loaded_level_consistent(
    s: SimState,
    es: Seq<EntityTemplate>,
    ss: Seq<Seq<SnakeElement>>,
)
    requires
        template_ok(es, ss),
        no_snake_entity(es),
        es.len() + ss.len() < u64::MAX,
        s.level == snakes_level(placed_level(es), ss, es.len() as int),
        forall|j: int|
            0 <= j < ss.len() ==> #[trigger] s.registry.snakes[handle(es.len() + j)] == (SnakeState {
                parts: ss[j],
                index: j as i32,
                active: true,
            }) && s.registry.snakes.dom().contains(handle(es.len() + j)),
        forall|i: int|
            0 <= i < es.len() && es[i].entity_type == EntityType::Box ==> #[trigger] s.registry.boxes[handle(i)]
                == (GridEntity { position: es[i].grid_position, entity_type: EntityType::Box })
                && s.registry.boxes.dom().contains(handle(i)),
        forall|e: Entity| #[trigger] s.registry.snakes.dom().contains(e) ==> es.len() <= e.id < es.len() + ss.len(),
        forall|e: Entity|
            #[trigger] s.registry.boxes.dom().contains(e) ==> e.id < es.len() && es[e.id as int].entity_type
                == EntityType::Box,
    ensures
        occupancy_consistent(s, Set::empty()),
{
    let n = es.len() as int;
    let m = s.level;
    let air = Set::<Entity>::empty();
    assert forall|e: Entity| #[trigger] s.registry.snakes.dom().contains(e) implies e == handle(e.id as int) && s.registry.snakes[e]
        == (SnakeState { parts: ss[e.id - n], index: (e.id - n) as i32, active: true }) by {
        assert(handle(n + (e.id - n)) == e);
    }
    assert forall|e: Entity, i: int|
        crate::occupancy::grounded_snake(s.registry, air, e) && 0 <= i < s.registry.snakes[e].parts.len() implies {
        let c = #[trigger] s.registry.snakes[e].parts[i].0;
        m.dom().contains(c) && m[c] == crate::commands::snake_occupant(e)
    } by {
        let j = e.id - n;
        lemma_snakes_level_at(placed_level(es), ss, n, j, i);
    }
    assert forall|e: Entity| #[trigger] crate::occupancy::grounded_box(s.registry, air, e) implies m.dom().contains(
        s.registry.boxes[e].position,
    ) && m[s.registry.boxes[e].position] == (LevelGridEntity { entity: e, entity_type: EntityType::Box }) by {
        let i = e.id as int;
        assert(handle(i) == e);
        let c = es[i].grid_position;
        lemma_placed_at(es, i);
        lemma_snakes_level_other(placed_level(es), ss, n, c);
        if snake_cell(ss, c) {
            let (j, k) = choose|j: int, k: int| 0 <= j < ss.len() && 0 <= k < ss[j].len() && #[trigger] ss[j][k].0 == c;
            assert(ss[j][k].0 != es[i].grid_position);
        }
    }
    assert forall|c: Cell|
        #[trigger] m.dom().contains(c) && (m[c].entity_type == EntityType::Snake || m[c].entity_type == EntityType::Box) implies
        (m[c].entity_type == EntityType::Snake ==> crate::occupancy::grounded_snake(s.registry, air, m[c].entity)
            && element_cells(s.registry.snakes[m[c].entity].parts).contains(c))
        && (m[c].entity_type == EntityType::Box ==> crate::occupancy::grounded_box(s.registry, air, m[c].entity)
            && s.registry.boxes[m[c].entity].position == c) by {
        lemma_snakes_level_other(placed_level(es), ss, n, c);
        if snake_cell(ss, c) {
            let (j, k) = choose|j: int, k: int| 0 <= j < ss.len() && 0 <= k < ss[j].len() && #[trigger] ss[j][k].0 == c;
            lemma_snakes_level_at(placed_level(es), ss, n, j, k);
            assert(element_cells(ss[j])[k] == c);
            assert(s.registry.snakes[handle(n + j)] == (SnakeState { parts: ss[j], index: j as i32, active: true }));
            assert(s.registry.snakes.dom().contains(handle(n + j)));
        } else {
            lemma_placed_dom(es, c);
            let i = choose|i: int| 0 <= i < es.len() && #[trigger] es[i].grid_position == c;
            lemma_placed_at(es, i);
            if m[c].entity_type == EntityType::Box {
                assert(s.registry.boxes.dom().contains(handle(i)));
            }
        }
    }
    assert forall|e: Entity| #[trigger] s.registry.snakes.dom().contains(e) implies body_ok(s.registry.snakes[e].parts) by {
        assert(body_ok(ss[e.id - n]));
    }
    assert forall|e: Entity| #[trigger] s.registry.boxes.dom().contains(e) implies s.registry.boxes[e].entity_type
        == EntityType::Box && !s.registry.snakes.dom().contains(e) by {
        let i = e.id as int;
        assert(handle(i) == e);
        assert(s.registry.boxes[handle(i)] == (GridEntity { position: es[i].grid_position, entity_type: EntityType::Box }));
    }
}

/// Records and registers every snake of `snakes`, snake `j` under handle `n + j`, in play.
fn spawn_snakes(
    level: &mut LevelInstance,
    registry: &mut MovableRegistry,
    snakes: &Vec<Vec<SnakeElement>>,
    n: usize,
)
    requires
        old(registry).wf(),
        n + snakes@.len() < u64::MAX,
        snakes@.len() <= i32::MAX,
        forall|e: Entity| !#[trigger] old(registry)@.snakes.dom().contains(e),
    ensures
        final(registry).wf(),
        final(level)@ == snakes_level(old(level)@, snake_bodies(snakes@), n as int),
        final(registry)@.boxes == old(registry)@.boxes,
        forall|e: Entity| #[trigger] final(registry)@.snakes.dom().contains(e) ==> n <= e.id < n + snakes@.len(),
        forall|k: int|
            0 <= k < snakes@.len() ==> #[trigger] final(registry)@.snakes[handle(n + k)] == (SnakeState {
                parts: snake_bodies(snakes@)[k],
                index: k as i32,
                active: true,
            }) && final(registry)@.snakes.dom().contains(handle(n + k)),
{
    let ghost ss = snake_bodies(snakes@);
    let ghost placed = level@;
    let ghost boxes = registry@.boxes;
    proof {
        assert(ss.take(0) =~= Seq::<Seq<SnakeElement>>::empty());
    }
    let mut j: usize = 0;
    while j < snakes.len()
        invariant
            j <= snakes@.len(),
            n + snakes@.len() < u64::MAX,
            snakes@.len() <= i32::MAX,
            ss == snake_bodies(snakes@),
            placed == old(level)@,
            boxes == old(registry)@.boxes,
            registry.wf(),
            registry@.boxes == boxes,
            level@ == snakes_level(placed, ss.take(j as int), n as int),
            forall|e: Entity| #[trigger] registry@.snakes.dom().contains(e) ==> n <= e.id < n + j,
            forall|k: int|
                0 <= k < j ==> #[trigger] registry@.snakes[handle(n + k)] == (SnakeState {
                    parts: ss[k],
                    index: k as i32,
                    active: true,
                }) && registry@.snakes.dom().contains(handle(n + k)),
        decreases snakes@.len() - j,
    {
        let entity = Entity::new(n as u64 + j as u64);
        let snake = Snake::new(&snakes[j], j as i32);
        let positions = crate::level_entities::Movable::positions(&snake);
        level.mark_entity_positions(positions.as_slice(), LevelGridEntity::new(entity, EntityType::Snake));
        assert(ss[j as int] == snakes@[j as int]@);
        assert(entity == handle(n + j));
        let ghost before = registry@.snakes;
        let ghost st = SnakeState { parts: ss[j as int], index: j as i32, active: true };
        let added = registry.add_snake(entity, snake);
        assert(added);
        assert(registry@.snakes == before.insert(entity, st));
        proof {
            let tk = ss.take(j + 1);
            assert(tk.drop_last() =~= ss.take(j as int));
            assert(tk.last() == ss[j as int]);
        }
        j += 1;
        assert forall|k: int| 0 <= k < j implies #[trigger] registry@.snakes[handle(n + k)] == (SnakeState {
            parts: ss[k],
            index: k as i32,
            active: true,
        }) && registry@.snakes.dom().contains(handle(n + k)) by {
            if k < j - 1 {
                assert(handle(n + k) != entity);
                assert(before[handle(n + k)] == (SnakeState { parts: ss[k], index: k as i32, active: true }));
                assert(before.dom().contains(handle(n + k)));
            }
        }
    }
    assert(ss.take(snakes@.len() as int) =~= ss);
}

/// Loads a level: every placed entity is recorded in the index under handle `i`, in order,
/// each box is registered, and then every snake `j` is recorded and registered, in play,
/// under handle `n + j` with `n` placed entities. The history starts empty. A well-formed
/// template gives a consistent start.
pub fn spawn_level_entities(template: &LevelTemplate) -> (r: Result<SnakeCommands, LevelError>)
    ensures
        (r is Ok) == (no_snake_entity(template.entities@) && template.entities@.len()
            + template.snakes@.len() < u64::MAX && template.snakes@.len() <= i32::MAX),
        r matches Ok(cmds) ==> ({
            let n = template.entities@.len() as int;
            let ss = snake_bodies(template.snakes@);
            &&& cmds.wf()
            &&& cmds.entries().len() == 0
            &&& cmds.state().level == snakes_level(placed_level(template.entities@), ss, n)
            &&& forall|j: int|
                0 <= j < ss.len() ==> #[trigger] cmds.state().registry.snakes[handle(n + j)] == (
                SnakeState { parts: ss[j], index: j as i32, active: true })
                    && cmds.state().registry.snakes.dom().contains(handle(n + j))
            &&& forall|i: int|
                0 <= i < n && template.entities@[i].entity_type == EntityType::Box ==> #[trigger] cmds.state().registry.boxes[handle(i)]
                    == (GridEntity { position: template.entities@[i].grid_position, entity_type: EntityType::Box })
                    && cmds.state().registry.boxes.dom().contains(handle(i))
            &&& forall|e: Entity|
                #[trigger] cmds.state().registry.snakes.dom().contains(e) ==> n <= e.id < n + ss.len()
            &&& forall|e: Entity|
                #[trigger] cmds.state().registry.boxes.dom().contains(e) ==> e.id < n
                    && template.entities@[e.id as int].entity_type == EntityType::Box
            &&& template_ok(template.entities@, ss) ==> occupancy_consistent(cmds.state(), Set::empty())
        }),
{
    let n = template.entities.len();
    if n as u64 >= u64::MAX - (template.snakes.len() as u64) || template.snakes.len() > i32::MAX as usize {
        return Err(LevelError::TooManyEntities);
    }
    let mut level = LevelInstance::new();
    let mut registry = MovableRegistry::new();
    let mut i: usize = 0;
    while i < n
        invariant
            i <= n == template.entities@.len(),
            n + template.snakes@.len() < u64::MAX,
            registry.wf(),
            no_snake_entity(template.entities@.take(i as int)),
            level@ == placed_level(template.entities@.take(i as int)),
            forall|e: Entity| !#[trigger] registry@.snakes.dom().contains(e),
            forall|e: Entity|
                #[trigger] registry@.boxes.dom().contains(e) ==> e.id < i
                    && template.entities@[e.id as int].entity_type == EntityType::Box,
            forall|k: int|
                0 <= k < i && template.entities@[k].entity_type == EntityType::Box ==> #[trigger] registry@.boxes[handle(k)]
                    == (GridEntity { position: template.entities@[k].grid_position, entity_type: EntityType::Box })
                    && registry@.boxes.dom().contains(handle(k)),
        decreases n - i,
    {
        let t = template.entities[i];
        if t.entity_type == EntityType::Snake {
            assert(!no_snake_entity(template.entities@)) by {
                assert(template.entities@[i as int].entity_type == EntityType::Snake);
            }
            return Err(LevelError::SnakeAsEntity(i));
        }
        let entity = Entity::new(i as u64);
        level.mark_position_occupied(t.grid_position, LevelGridEntity::new(entity, t.entity_type));
        if t.entity_type == EntityType::Box {
            registry.add_box(entity, GridEntity::new(t.grid_position, EntityType::Box));
        }
        proof {
            let tk = template.entities@.take(i + 1);
            assert(tk.drop_last() =~= template.entities@.take(i as int));
            assert(tk.last() == t);
            assert forall|k: int| 0 <= k < tk.len() implies #[trigger] tk[k].entity_type != EntityType::Snake by {
                if k < i {
                    assert(template.entities@.take(i as int)[k] == tk[k]);
                }
            }
        }
        i += 1;
    }
    assert(template.entities@.take(n as int) =~= template.entities@);
    let ghost ss = snake_bodies(template.snakes@);
    spawn_snakes(&mut level, &mut registry, &template.snakes, n);
    let cmds = SnakeCommands::new(level, registry);
    proof {
        if template_ok(template.entities@, ss) {
            lemma_loaded_level_consistent(cmds.state(), template.entities@, ss);
        }
    }
    Ok(cmds)
}

} // verus!
