//! Consistency between the level index and the geometry of the movables.
use crate::commands::{
    eat_stage, executed, grow_cell, grow_stage, move_ok, push_stage, walk_stage, PlayerMoveCommand,
    snake_occupant,
};
use crate::grid::{can_add, cell_add, cell_sub, is_direction, Cell, Entity, EntityType, LevelGridEntity};
use crate::level_entities::shifted;
use crate::level_instance::{cleared, filled, lemma_cleared, lemma_filled};
use crate::movement::{controllable, decide_move, push_allowed, try_direction, up, Attempt};
use crate::registry::{movable_cells, RegistryView};
use crate::snake::{element_cells, grown, moved_forward, shifted_parts, SnakeElement};
use crate::undo::SimState;
use vstd::prelude::*;

verus! {

/// A body whose cells are distinct and whose segments follow each other: each one is the
/// next one moved along its own direction.
pub open spec fn body_ok(parts: Seq<SnakeElement>) -> bool {
    &&& element_cells(parts).no_duplicates()
    &&& forall|i: int|
        0 <= i < parts.len() - 1 ==> can_add(parts[i + 1].0, parts[i].1) && #[trigger] parts[i].0
            == cell_add(parts[i + 1].0, parts[i].1)
}

/// A snake in play whose cells are in the index (it is not in the air).
pub open spec fn grounded_snake(r: RegistryView, air: Set<Entity>, e: Entity) -> bool {
    r.snakes.dom().contains(e) && r.snakes[e].active && !air.contains(e)
}

/// A box whose cell is in the index (it is not in the air).
pub open spec fn grounded_box(r: RegistryView, air: Set<Entity>, e: Entity) -> bool {
    r.boxes.dom().contains(e) && !air.contains(e)
}

/// The index and the movables agree: every cell of a grounded snake or box is recorded for
/// it, every recorded snake or box cell belongs to that grounded movable, and every body is
/// well formed. The movables of `air` are falling and have no cell in the index.
pub open spec fn occupancy_consistent(s: SimState, air: Set<Entity>) -> bool {
    &&& forall|e: Entity, i: int|
        grounded_snake(s.registry, air, e) && 0 <= i < s.registry.snakes[e].parts.len() ==> {
            let c = #[trigger] s.registry.snakes[e].parts[i].0;
            s.level.dom().contains(c) && s.level[c] == snake_occupant(e)
        }
    &&& forall|e: Entity|
        #[trigger] grounded_box(s.registry, air, e) ==> s.level.dom().contains(
            s.registry.boxes[e].position,
        ) && s.level[s.registry.boxes[e].position] == (LevelGridEntity {
            entity: e,
            entity_type: EntityType::Box,
        })
    &&& forall|c: Cell|
        #[trigger] s.level.dom().contains(c) && s.level[c].entity_type == EntityType::Snake
            ==> grounded_snake(s.registry, air, s.level[c].entity) && element_cells(
            s.registry.snakes[s.level[c].entity].parts,
        ).contains(c)
    &&& forall|c: Cell|
        #[trigger] s.level.dom().contains(c) && s.level[c].entity_type == EntityType::Box
            ==> grounded_box(s.registry, air, s.level[c].entity)
            && s.registry.boxes[s.level[c].entity].position == c
    &&& forall|e: Entity| #[trigger] s.registry.snakes.dom().contains(e) ==> body_ok(s.registry.snakes[e].parts)
    &&& forall|e: Entity| #[trigger] s.registry.boxes.dom().contains(e) ==> s.registry.boxes[e].entity_type == EntityType::Box
        && !s.registry.snakes.dom().contains(e)
}

/// No movable is recorded at `c`.
pub open spec fn no_movable_at(m: Map<Cell, LevelGridEntity>, c: Cell) -> bool {
    !(m.dom().contains(c) && crate::grid::movable_kind(m[c].entity_type))
}

/// A grounded snake stepping forward into a cell where no movable is recorded, and that is
/// none of its own, keeps the index and the movables consistent.
proof fn lemma_walk_keeps_occupancy(s2: SimState, cmd: PlayerMoveCommand, air: Set<Entity>)
    requires
        occupancy_consistent(s2, air),
        crate::commands::walk_ok(s2, cmd),
        grounded_snake(s2.registry, air, cmd.entity),
        no_movable_at(s2.level, cell_add(s2.registry.snakes[cmd.entity].parts[0].0, cmd.direction)),
        !element_cells(s2.registry.snakes[cmd.entity].parts).contains(
            cell_add(s2.registry.snakes[cmd.entity].parts[0].0, cmd.direction),
        ),
    ensures
        occupancy_consistent(walk_stage(s2, cmd), air),
{
    let e = cmd.entity;
    let d = cmd.direction;
    let p = s2.registry.snakes[e].parts;
    let n = p.len();
    let t = p.last().0;
    let nh = cell_add(p[0].0, d);
    let q = moved_forward(p, d);
    let s3 = walk_stage(s2, cmd);
    let m2 = s2.level;
    let m3 = s3.level;
    assert(m2.dom().contains(p[n - 1].0) && m2[p[n - 1].0] == snake_occupant(e));
    assert(nh != t) by {
        assert(element_cells(p)[n - 1] == t);
    }
    assert forall|k: int| 0 <= k < n - 1 implies #[trigger] p[k].0 != t by {
        assert(element_cells(p)[k] == p[k].0);
        assert(element_cells(p)[n - 1] == t);
    }
    assert forall|k: int| 0 <= k < n implies #[trigger] p[k].0 != nh by {
        assert(element_cells(p)[k] == p[k].0);
    }
    assert(q.len() == n);
    assert forall|k: int| 1 <= k < n implies #[trigger] q[k] == p[k - 1] by {}
    // Cells of the snakes.
    assert forall|f: Entity, i: int|
        grounded_snake(s3.registry, air, f) && 0 <= i < s3.registry.snakes[f].parts.len() implies {
        let c = #[trigger] s3.registry.snakes[f].parts[i].0;
        m3.dom().contains(c) && m3[c] == snake_occupant(f)
    } by {
        if f == e {
            if i > 0 {
                assert(q[i] == p[i - 1]);
                assert(m2.dom().contains(p[i - 1].0) && m2[p[i - 1].0] == snake_occupant(e));
            }
        } else {
            let c = s2.registry.snakes[f].parts[i].0;
            assert(m2.dom().contains(c) && m2[c] == snake_occupant(f));
        }
    }
    assert forall|f: Entity| #[trigger] grounded_box(s3.registry, air, f) implies m3.dom().contains(
        s3.registry.boxes[f].position,
    ) && m3[s3.registry.boxes[f].position] == (LevelGridEntity {
        entity: f,
        entity_type: EntityType::Box,
    }) by {
        assert(grounded_box(s2.registry, air, f));
    }
    assert forall|c: Cell|
        #[trigger] m3.dom().contains(c) && m3[c].entity_type == EntityType::Snake implies grounded_snake(
        s3.registry,
        air,
        m3[c].entity,
    ) && element_cells(s3.registry.snakes[m3[c].entity].parts).contains(c) by {
        if c == nh {
            assert(element_cells(q)[0] == nh);
        } else {
            assert(m2.dom().contains(c) && m2[c].entity_type == EntityType::Snake);
            let f = m2[c].entity;
            if f == e {
                let k = choose|k: int| 0 <= k < n && element_cells(p)[k] == c;
                assert(k != n - 1);
                assert(element_cells(q)[k + 1] == c);
            }
        }
    }
    assert forall|c: Cell|
        #[trigger] m3.dom().contains(c) && m3[c].entity_type == EntityType::Box implies grounded_box(
        s3.registry,
        air,
        m3[c].entity,
    ) && s3.registry.boxes[m3[c].entity].position == c by {
        assert(m2.dom().contains(c) && m2[c].entity_type == EntityType::Box);
    }
    assert forall|f: Entity| #[trigger] s3.registry.snakes.dom().contains(f) implies body_ok(
        s3.registry.snakes[f].parts,
    ) by {
        if f == e {
            assert(body_ok(p));
            assert(element_cells(q).no_duplicates()) by {
                assert forall|a: int, b: int|
                    0 <= a < element_cells(q).len() && 0 <= b < element_cells(q).len() && a != b implies element_cells(q)[a]
                    != element_cells(q)[b] by {
                    if a > 0 && b > 0 {
                        assert(element_cells(p)[a - 1] != element_cells(p)[b - 1]);
                    } else if a == 0 {
                        assert(element_cells(q)[b] == p[b - 1].0);
                    } else {
                        assert(element_cells(q)[a] == p[a - 1].0);
                    }
                }
            }
            assert forall|i: int| 0 <= i < q.len() - 1 implies can_add(q[i + 1].0, q[i].1) && #[trigger] q[i].0 == cell_add(
                q[i + 1].0,
                q[i].1,
            ) by {
                if i > 0 {
                    assert(p[i - 1].0 == cell_add(p[i].0, p[i - 1].1));
                    assert(can_add(p[i].0, p[i - 1].1));
                }
            }
        }
    }
}

/// A grounded snake growing into a cell where no movable is recorded, and that is none of
/// its own, keeps the index and the movables consistent.
#[verifier::rlimit(40)]
proof fn lemma_grow_keeps_occupancy(s3: SimState, cmd: PlayerMoveCommand, air: Set<Entity>)
    requires
        occupancy_consistent(s3, air),
        cmd.food is Some,
        grounded_snake(s3.registry, air, cmd.entity),
        s3.registry.snakes[cmd.entity].parts.len() > 0,
        crate::grid::can_sub(
            s3.registry.snakes[cmd.entity].parts.last().0,
            s3.registry.snakes[cmd.entity].parts.last().1,
        ),
        no_movable_at(s3.level, grow_cell(s3, cmd.entity)),
        !element_cells(s3.registry.snakes[cmd.entity].parts).contains(grow_cell(s3, cmd.entity)),
    ensures
        occupancy_consistent(grow_stage(s3, cmd), air),
{
    let e = cmd.entity;
    let q = s3.registry.snakes[e].parts;
    let n = q.len();
    let g = grow_cell(s3, e);
    let r = grown(q);
    let s4 = grow_stage(s3, cmd);
    let m3 = s3.level;
    let m4 = s4.level;
    assert forall|k: int| 0 <= k < n implies #[trigger] q[k].0 != g by {
        assert(element_cells(q)[k] == q[k].0);
    }
    assert forall|f: Entity, i: int|
        grounded_snake(s4.registry, air, f) && 0 <= i < s4.registry.snakes[f].parts.len() implies {
        let c = #[trigger] s4.registry.snakes[f].parts[i].0;
        m4.dom().contains(c) && m4[c] == snake_occupant(f)
    } by {
        if f == e {
            if i < n {
                assert(r[i] == q[i]);
                assert(m3.dom().contains(q[i].0) && m3[q[i].0] == snake_occupant(e));
            }
        } else {
            let c = s3.registry.snakes[f].parts[i].0;
            assert(m3.dom().contains(c) && m3[c] == snake_occupant(f));
        }
    }
    assert forall|f: Entity| #[trigger] grounded_box(s4.registry, air, f) implies m4.dom().contains(
        s4.registry.boxes[f].position,
    ) && m4[s4.registry.boxes[f].position] == (LevelGridEntity {
        entity: f,
        entity_type: EntityType::Box,
    }) by {
        assert(grounded_box(s3.registry, air, f));
    }
    assert forall|c: Cell|
        #[trigger] m4.dom().contains(c) && m4[c].entity_type == EntityType::Snake implies grounded_snake(
        s4.registry,
        air,
        m4[c].entity,
    ) && element_cells(s4.registry.snakes[m4[c].entity].parts).contains(c) by {
        if c == g {
            assert(element_cells(r)[n as int] == g);
        } else {
            assert(m3.dom().contains(c) && m3[c].entity_type == EntityType::Snake);
            let f = m3[c].entity;
            if f == e {
                let k = choose|k: int| 0 <= k < n && element_cells(q)[k] == c;
                assert(element_cells(r)[k] == c);
            }
        }
    }
    assert forall|c: Cell|
        #[trigger] m4.dom().contains(c) && m4[c].entity_type == EntityType::Box implies grounded_box(
        s4.registry,
        air,
        m4[c].entity,
    ) && s4.registry.boxes[m4[c].entity].position == c by {
        assert(m3.dom().contains(c) && m3[c].entity_type == EntityType::Box);
    }
    assert forall|f: Entity| #[trigger] s4.registry.snakes.dom().contains(f) implies body_ok(
        s4.registry.snakes[f].parts,
    ) by {
        if f == e {
            lemma_grown_body_ok(q);
        }
    }
}

/// A well-formed body that grows into a cell that is none of its own stays well formed.
#[verifier::rlimit(40)]
proof fn lemma_grown_body_ok(q: Seq<SnakeElement>)
    requires
        body_ok(q),
        q.len() > 0,
        crate::grid::can_sub(q.last().0, q.last().1),
        !element_cells(q).contains(cell_sub(q.last().0, q.last().1)),
    ensures
        body_ok(grown(q)),
{
    let n = q.len();
    let g = cell_sub(q.last().0, q.last().1);
    let r = grown(q);
    assert forall|k: int| 0 <= k < n implies #[trigger] q[k].0 != g by {
        assert(element_cells(q)[k] == q[k].0);
    }
    assert(element_cells(r).no_duplicates()) by {
        assert forall|a: int, b: int|
            0 <= a < element_cells(r).len() && 0 <= b < element_cells(r).len() && a != b implies element_cells(r)[a]
            != element_cells(r)[b] by {
            if a < n && b < n {
                assert(element_cells(q)[a] != element_cells(q)[b]);
            } else if a == n {
                assert(element_cells(r)[b] == q[b].0);
            } else {
                assert(element_cells(r)[a] == q[a].0);
            }
        }
    }
    assert forall|i: int| 0 <= i < r.len() - 1 implies #[trigger] can_add(r[i + 1].0, r[i].1) && r[i].0 == cell_add(
        r[i + 1].0,
        r[i].1,
    ) by {
        if i < n - 1 {
            assert(r[i] == q[i] && r[i + 1] == q[i + 1]);
            assert(q[i].0 == cell_add(q[i + 1].0, q[i].1));
            assert(can_add(q[i + 1].0, q[i].1));
        } else {
            assert(r[i] == q[n - 1]);
            assert(r[i + 1] == (g, q[n - 1].1));
            assert(can_add(g, q[n - 1].1));
            assert(q[n - 1].0 == cell_add(g, q[n - 1].1));
        }
    }
    assert(body_ok(r));
}

/// Eating a food keeps the index and the movables consistent.
proof fn lemma_eat_keeps_occupancy(s1: SimState, cmd: PlayerMoveCommand, air: Set<Entity>)
    requires
        occupancy_consistent(s1, air),
        cmd.food matches Some(f) ==> crate::level_instance::has_kind(s1.level, f.position, EntityType::Food),
    ensures
        occupancy_consistent(eat_stage(s1, cmd), air),
{
    if let Some(f) = cmd.food {
        let s2 = eat_stage(s1, cmd);
        let m1 = s1.level;
        let m2 = s2.level;
        assert forall|g: Entity, i: int|
            grounded_snake(s2.registry, air, g) && 0 <= i < s2.registry.snakes[g].parts.len() implies {
            let c = #[trigger] s2.registry.snakes[g].parts[i].0;
            m2.dom().contains(c) && m2[c] == snake_occupant(g)
        } by {
            let c = s1.registry.snakes[g].parts[i].0;
            assert(m1.dom().contains(c) && m1[c] == snake_occupant(g));
        }
        assert forall|g: Entity| #[trigger] grounded_box(s2.registry, air, g) implies m2.dom().contains(
            s2.registry.boxes[g].position,
        ) && m2[s2.registry.boxes[g].position] == (LevelGridEntity {
            entity: g,
            entity_type: EntityType::Box,
        }) by {
            assert(grounded_box(s1.registry, air, g));
        }
        assert forall|c: Cell|
            #[trigger] m2.dom().contains(c) && m2[c].entity_type == EntityType::Snake implies grounded_snake(
            s2.registry,
            air,
            m2[c].entity,
        ) && element_cells(s2.registry.snakes[m2[c].entity].parts).contains(c) by {
            assert(m1.dom().contains(c));
        }
        assert forall|c: Cell|
            #[trigger] m2.dom().contains(c) && m2[c].entity_type == EntityType::Box implies grounded_box(
            s2.registry,
            air,
            m2[c].entity,
        ) && s2.registry.boxes[m2[c].entity].position == c by {
            assert(m1.dom().contains(c));
        }
    }
}

/// Moving cells by `d` is one to one.
proof fn lemma_shift_injective(a: Cell, b: Cell, d: Cell)
    requires
        can_add(a, d),
        can_add(b, d),
        cell_add(a, d) == cell_add(b, d),
    ensures
        a == b,
{
}

/// Pushing a grounded movable along `d`, into cells that are traversable or its own, keeps the
/// index and the movables consistent.
proof fn lemma_push_keeps_occupancy(s: SimState, cmd: PlayerMoveCommand, air: Set<Entity>)
    requires
        occupancy_consistent(s, air),
        cmd.pushed_entity matches Some(p) && ({
            let cells = movable_cells(s.registry, p)->Some_0;
            &&& crate::grid::movable_kind(p.entity_type)
            &&& (p.entity_type == EntityType::Snake ==> grounded_snake(s.registry, air, p.entity))
            &&& (p.entity_type == EntityType::Box ==> grounded_box(s.registry, air, p.entity))
            &&& movable_cells(s.registry, p) is Some
            &&& crate::level_entities::can_shift(cells, cmd.direction)
            &&& push_allowed(s.level, p.entity, cells, cmd.direction)
        }),
    ensures
        occupancy_consistent(push_stage(s, cmd), air),
{
    let p = cmd.pushed_entity->Some_0;
    let d = cmd.direction;
    let cells = movable_cells(s.registry, p)->Some_0;
    let moved = shifted(cells, d);
    let s1 = push_stage(s, cmd);
    let m = s.level;
    let m1 = s1.level;
    let is_snake = p.entity_type == EntityType::Snake;
    // Every cell of the pushed movable is recorded for it.
    assert forall|k: int| 0 <= k < cells.len() implies m.dom().contains(#[trigger] cells[k]) && m[cells[k]] == p by {
        if is_snake {
            assert(cells[k] == s.registry.snakes[p.entity].parts[k].0);
        }
    }
    // A cell recorded for `p` is one of its cells.
    assert forall|c: Cell| m.dom().contains(c) && #[trigger] m[c] == p implies cells.contains(c) by {
        if is_snake {
            assert(m[c].entity_type == EntityType::Snake);
        } else {
            assert(m[c].entity_type == EntityType::Box);
            assert(cells[0] == c);
        }
    }
    // Cells of the other movables stay as they are.
    assert forall|c: Cell| m.dom().contains(c) && crate::grid::movable_kind(m[c].entity_type) && #[trigger] m[c] != p implies m1.dom().contains(c) && m1[c] == m[c] by {
        lemma_cleared(m, cells, c);
        lemma_filled(cleared(m, cells), moved, p, c);
        if cells.contains(c) {
            let k = choose|k: int| 0 <= k < cells.len() && cells[k] == c;
        }
        if moved.contains(c) {
            let k = choose|k: int| 0 <= k < moved.len() && moved[k] == c;
            assert(moved[k] == cell_add(cells[k], d));
            assert(crate::level_instance::traversable_cell(m, cell_add(cells[k], d)) || crate::level_instance::entity_at(m, cell_add(cells[k], d), p.entity));
            if m[c].entity_type == EntityType::Snake {
                if !is_snake {
                    assert(s.registry.boxes.dom().contains(p.entity));
                    assert(grounded_snake(s.registry, air, m[c].entity));
                }
            } else {
                assert(grounded_box(s.registry, air, m[c].entity));
                if is_snake {
                    assert(s.registry.boxes.dom().contains(m[c].entity));
                }
            }
        }
    }
    // The pushed movable now stands on the moved cells.
    assert forall|c: Cell| moved.contains(c) implies m1.dom().contains(c) && #[trigger] m1[c] == p by {
        lemma_filled(cleared(m, cells), moved, p, c);
    }
    let r1 = s1.registry;
    assert forall|f: Entity, i: int|
        grounded_snake(r1, air, f) && 0 <= i < r1.snakes[f].parts.len() implies {
        let c = #[trigger] r1.snakes[f].parts[i].0;
        m1.dom().contains(c) && m1[c] == snake_occupant(f)
    } by {
        if is_snake && f == p.entity {
            assert(moved[i] == r1.snakes[f].parts[i].0);
            assert(moved.contains(moved[i]));
        } else {
            let c = s.registry.snakes[f].parts[i].0;
            assert(m.dom().contains(c) && m[c] == snake_occupant(f));
            assert(m[c] != p);
        }
    }
    assert forall|f: Entity| #[trigger] grounded_box(r1, air, f) implies m1.dom().contains(
        r1.boxes[f].position,
    ) && m1[r1.boxes[f].position] == (LevelGridEntity { entity: f, entity_type: EntityType::Box }) by {
        if !is_snake && f == p.entity {
            assert(moved[0] == r1.boxes[f].position);
            assert(moved.contains(moved[0]));
        } else {
            assert(grounded_box(s.registry, air, f));
            let c = s.registry.boxes[f].position;
            assert(m[c] != p);
        }
    }
    assert forall|c: Cell|
        #[trigger] m1.dom().contains(c) && m1[c].entity_type == EntityType::Snake implies grounded_snake(
        r1,
        air,
        m1[c].entity,
    ) && element_cells(r1.snakes[m1[c].entity].parts).contains(c) by {
        lemma_cleared(m, cells, c);
        lemma_filled(cleared(m, cells), moved, p, c);
        if moved.contains(c) {
            let k = choose|k: int| 0 <= k < moved.len() && moved[k] == c;
            assert(element_cells(r1.snakes[p.entity].parts)[k] == c);
        } else {
            assert(m.dom().contains(c) && m[c].entity_type == EntityType::Snake);
            if m[c] == p {
                assert(cells.contains(c));
            }
        }
    }
    assert forall|c: Cell|
        #[trigger] m1.dom().contains(c) && m1[c].entity_type == EntityType::Box implies grounded_box(
        r1,
        air,
        m1[c].entity,
    ) && r1.boxes[m1[c].entity].position == c by {
        lemma_cleared(m, cells, c);
        lemma_filled(cleared(m, cells), moved, p, c);
        if moved.contains(c) {
            let k = choose|k: int| 0 <= k < moved.len() && moved[k] == c;
        } else {
            assert(m.dom().contains(c) && m[c].entity_type == EntityType::Box);
            if m[c] == p {
                assert(cells.contains(c));
            }
        }
    }
    assert forall|f: Entity| #[trigger] r1.snakes.dom().contains(f) implies body_ok(r1.snakes[f].parts) by {
        if is_snake && f == p.entity {
            let q = s.registry.snakes[f].parts;
            assert forall|k: int| 0 <= k < q.len() implies can_add(#[trigger] q[k].0, d) by {
                assert(cells[k] == q[k].0);
            }
            lemma_shifted_body_ok(q, d);
        }
    }
}

/// A well-formed body moved by `d` without overflow stays well formed.
proof fn lemma_shifted_body_ok(q: Seq<SnakeElement>, d: Cell)
    requires
        body_ok(q),
        forall|k: int| 0 <= k < q.len() ==> can_add(#[trigger] q[k].0, d),
    ensures
        body_ok(shifted_parts(q, d)),
{
    let q1 = shifted_parts(q, d);
    assert forall|a: int, b: int|
        0 <= a < element_cells(q1).len() && 0 <= b < element_cells(q1).len() && a != b implies element_cells(q1)[a]
        != element_cells(q1)[b] by {
        assert(element_cells(q)[a] != element_cells(q)[b]);
        if element_cells(q1)[a] == element_cells(q1)[b] {
            lemma_shift_injective(q[a].0, q[b].0, d);
        }
    }
    assert forall|i: int| 0 <= i < q1.len() - 1 implies can_add(q1[i + 1].0, q1[i].1) && #[trigger] q1[i].0 == cell_add(
        q1[i + 1].0,
        q1[i].1,
    ) by {
        assert(q[i].0 == cell_add(q[i + 1].0, q[i].1));
        assert(can_add(q[i + 1].0, q[i].1));
        assert(can_add(q[i].0, d) && can_add(q[i + 1].0, d));
    }
}

/// The occupancy law for a move that pushes a movable.
#[verifier::rlimit(100)]
#[verifier::spinoff_prover]
proof fn lemma_push_move_keeps_occupancy(s: SimState, air: Set<Entity>, e: Entity, d: Cell, cmd: PlayerMoveCommand)
    requires
        occupancy_consistent(s, air),
        controllable(s, e, air.contains(e)),
        move_ok(s, cmd),
        cmd.entity == e,
        cmd.direction == d,
        can_add(s.registry.snakes[e].parts[0].0, d),
        ({
            let new = cell_add(s.registry.snakes[e].parts[0].0, d);
            let p = s.level[new];
            &&& s.level.dom().contains(new)
            &&& crate::grid::movable_kind(p.entity_type)
            &&& p.entity != e
            &&& cmd.pushed_entity == Some(p)
            &&& cmd.food is None
            &&& movable_cells(s.registry, p) is Some
            &&& crate::level_entities::can_shift(movable_cells(s.registry, p)->Some_0, d)
            &&& push_allowed(s.level, p.entity, movable_cells(s.registry, p)->Some_0, d)
        }),
    ensures
        occupancy_consistent(executed(s, cmd), air),
{
    let m = s.level;
    let pp = s.registry.snakes[e].parts;
    let n = pp.len();
    let head = pp[0].0;
    let new = cell_add(head, d);
    let t = pp.last().0;
    assert(m.dom().contains(head) && m[head] == snake_occupant(e));
    assert(m.dom().contains(pp[n - 1].0) && m[pp[n - 1].0] == snake_occupant(e));
    let s1 = push_stage(s, cmd);
    let s2 = eat_stage(s1, cmd);
    let s3 = walk_stage(s2, cmd);
        let p = m[new];
        let cells = movable_cells(s.registry, p)->Some_0;
        assert(cmd.pushed_entity == Some(p));
        assert(cmd.food is None);
        assert(p.entity != e);
        if p.entity_type == EntityType::Snake {
            assert(grounded_snake(s.registry, air, p.entity));
        } else {
            assert(grounded_box(s.registry, air, p.entity));
        }
        lemma_push_keeps_occupancy(s, cmd, air);
        // The cell ahead of the snake was the pushed movable's, and is now free.
        assert(cells.contains(new)) by {
            if p.entity_type == EntityType::Snake {
                assert(element_cells(s.registry.snakes[p.entity].parts).contains(new));
            } else {
                assert(cells[0] == new);
            }
        }
        assert forall|k: int| 0 <= k < cells.len() implies #[trigger] m[cells[k]] == p by {
            if p.entity_type == EntityType::Snake {
                assert(cells[k] == s.registry.snakes[p.entity].parts[k].0);
            }
        }
        assert(!shifted(cells, d).contains(new)) by {
            if shifted(cells, d).contains(new) {
                let k = choose|k: int| 0 <= k < shifted(cells, d).len() && shifted(cells, d)[k] == new;
                assert(shifted(cells, d)[k] == cell_add(cells[k], d));
                assert(crate::level_entities::can_shift(cells, d));
                assert(can_add(cells[k], d));
                lemma_shift_injective(cells[k], head, d);
                assert(m[cells[k]] == p);
            }
        }
        lemma_cleared(m, cells, new);
        lemma_filled(cleared(m, cells), shifted(cells, d), p, new);
        assert(!s2.level.dom().contains(new));
        assert(!element_cells(pp).contains(new)) by {
            if element_cells(pp).contains(new) {
                let k = choose|k: int| 0 <= k < n && element_cells(pp)[k] == new;
                assert(m[pp[k].0] == snake_occupant(e));
            }
        }
        assert(s2.registry.snakes[e] == s.registry.snakes[e]);
        lemma_walk_keeps_occupancy(s2, cmd, air);
}

/// The occupancy law for a move that pushes nothing.
#[verifier::rlimit(100)]
#[verifier::spinoff_prover]
proof fn lemma_walk_move_keeps_occupancy(s: SimState, air: Set<Entity>, e: Entity, d: Cell, cmd: PlayerMoveCommand)
    requires
        occupancy_consistent(s, air),
        controllable(s, e, air.contains(e)),
        move_ok(s, cmd),
        cmd.entity == e,
        cmd.direction == d,
        can_add(s.registry.snakes[e].parts[0].0, d),
        ({
            let new = cell_add(s.registry.snakes[e].parts[0].0, d);
            &&& no_movable_at(s.level, new)
            &&& cmd.pushed_entity is None
            &&& !element_cells(s.registry.snakes[e].parts).contains(new)
            &&& (cmd.food matches Some(f) ==> f.position == new && crate::level_instance::has_kind(
                s.level,
                new,
                EntityType::Food,
            ))
        }),
    ensures
        occupancy_consistent(executed(s, cmd), air),
{
    let m = s.level;
    let pp = s.registry.snakes[e].parts;
    let n = pp.len();
    let head = pp[0].0;
    let new = cell_add(head, d);
    let t = pp.last().0;
    assert(m.dom().contains(head) && m[head] == snake_occupant(e));
    assert(m.dom().contains(pp[n - 1].0) && m[pp[n - 1].0] == snake_occupant(e));
    let s1 = push_stage(s, cmd);
    let s2 = eat_stage(s1, cmd);
    let s3 = walk_stage(s2, cmd);
        assert(cmd.pushed_entity is None);
        assert(!element_cells(pp).contains(new));
        lemma_eat_keeps_occupancy(s1, cmd, air);
        assert(no_movable_at(s2.level, new));
        lemma_walk_keeps_occupancy(s2, cmd, air);
        if cmd.food is Some {
            let q = moved_forward(pp, d);
            let g = grow_cell(s3, e);
            assert(s3.registry.snakes[e].parts == q);
            assert(element_cells(pp)[n - 1] == t);
            assert(t != new);
            assert(g == t) by {
                if n >= 2 {
                    assert(q.last() == pp[n - 2]);
                    assert(pp[n - 2].0 == cell_add(pp[n - 1].0, pp[n - 2].1));
                    assert(can_add(pp[n - 1].0, pp[n - 2].1));
                } else {
                    assert(q.last() == (new, d));
                }
            }
            assert(!s3.level.dom().contains(t));
            assert(!element_cells(q).contains(t)) by {
                if element_cells(q).contains(t) {
                    let k = choose|k: int| 0 <= k < q.len() && element_cells(q)[k] == t;
                    if k > 0 {
                        assert(element_cells(pp)[k - 1] == t);
                    }
                }
            }
            lemma_grow_keeps_occupancy(s3, cmd, air);
        }
}

/// A move that the control decides (and that can be carried out) keeps the level index and
/// the movables consistent: every cell of a grounded snake or box stays recorded for it, no
/// stale cell is left, and every body stays well formed.
pub proof fn lemma_move_keeps_occupancy(
    s: SimState,
    air: Set<Entity>,
    e: Entity,
    dir: Cell,
    goal: Option<Cell>,
)
    requires
        occupancy_consistent(s, air),
        controllable(s, e, air.contains(e)),
        decide_move(s, e, dir, goal) is Go,
        move_ok(s, decide_move(s, e, dir, goal)->Go_0),
    ensures
        occupancy_consistent(executed(s, decide_move(s, e, dir, goal)->Go_0), air),
{
    let cmd = decide_move(s, e, dir, goal)->Go_0;
    let d = cmd.direction;
    if try_direction(s, e, dir, goal) is Go {
        assert(try_direction(s, e, dir, goal) == Attempt::Go(cmd));
    } else {
        assert(try_direction(s, e, up(), goal) == Attempt::Go(cmd));
    }
    assert(try_direction(s, e, d, goal) == Attempt::Go(cmd));
    let new = cell_add(s.registry.snakes[e].parts[0].0, d);
    if s.level.dom().contains(new) && crate::grid::movable_kind(s.level[new].entity_type) {
        lemma_push_move_keeps_occupancy(s, air, e, d, cmd);
    } else {
        lemma_walk_move_keeps_occupancy(s, air, e, d, cmd);
    }
}

/// The cells of movable `e` are all recorded for it.
proof fn lemma_cells_recorded(s: SimState, air: Set<Entity>, e: LevelGridEntity)
    requires
        occupancy_consistent(s, air),
        movable_cells(s.registry, e) is Some,
        e.entity_type == EntityType::Snake ==> grounded_snake(s.registry, air, e.entity),
        e.entity_type == EntityType::Box ==> grounded_box(s.registry, air, e.entity),
    ensures
        forall|k: int|
            0 <= k < movable_cells(s.registry, e)->Some_0.len() ==> s.level.dom().contains(
                #[trigger] movable_cells(s.registry, e)->Some_0[k],
            ) && s.level[movable_cells(s.registry, e)->Some_0[k]] == e,
{
    let cells = movable_cells(s.registry, e)->Some_0;
    assert forall|k: int| 0 <= k < cells.len() implies s.level.dom().contains(#[trigger] cells[k])
        && s.level[cells[k]] == e by {
        if e.entity_type == EntityType::Snake {
            assert(cells[k] == s.registry.snakes[e.entity].parts[k].0);
        }
    }
}

/// A grounded movable that starts falling leaves the index: with it counted in the air,
/// the index and the movables stay consistent.
pub proof fn lemma_start_fall_keeps_occupancy(s: SimState, air: Set<Entity>, e: LevelGridEntity)
    requires
        occupancy_consistent(s, air),
        movable_cells(s.registry, e) is Some,
        e.entity_type == EntityType::Snake ==> grounded_snake(s.registry, air, e.entity),
        e.entity_type == EntityType::Box ==> grounded_box(s.registry, air, e.entity),
    ensures
        occupancy_consistent(
            SimState { level: cleared(s.level, movable_cells(s.registry, e)->Some_0), registry: s.registry },
            air.insert(e.entity),
        ),
{
    let cells = movable_cells(s.registry, e)->Some_0;
    let m = s.level;
    let m1 = cleared(m, cells);
    let air1 = air.insert(e.entity);
    let s1 = SimState { level: m1, registry: s.registry };
    lemma_cells_recorded(s, air, e);
    assert forall|f: Entity, i: int|
        grounded_snake(s1.registry, air1, f) && 0 <= i < s1.registry.snakes[f].parts.len() implies {
        let c = #[trigger] s1.registry.snakes[f].parts[i].0;
        m1.dom().contains(c) && m1[c] == snake_occupant(f)
    } by {
        let c = s.registry.snakes[f].parts[i].0;
        assert(m.dom().contains(c) && m[c] == snake_occupant(f));
        lemma_cleared(m, cells, c);
        if cells.contains(c) {
            let k = choose|k: int| 0 <= k < cells.len() && cells[k] == c;
            assert(m[cells[k]] == e);
        }
    }
    assert forall|f: Entity| #[trigger] grounded_box(s1.registry, air1, f) implies m1.dom().contains(
        s1.registry.boxes[f].position,
    ) && m1[s1.registry.boxes[f].position] == (LevelGridEntity { entity: f, entity_type: EntityType::Box }) by {
        assert(grounded_box(s.registry, air, f));
        let c = s.registry.boxes[f].position;
        lemma_cleared(m, cells, c);
        if cells.contains(c) {
            let k = choose|k: int| 0 <= k < cells.len() && cells[k] == c;
            assert(m[cells[k]] == e);
        }
    }
    assert forall|c: Cell|
        #[trigger] m1.dom().contains(c) && m1[c].entity_type == EntityType::Snake implies grounded_snake(
        s1.registry,
        air1,
        m1[c].entity,
    ) && element_cells(s1.registry.snakes[m1[c].entity].parts).contains(c) by {
        lemma_cleared(m, cells, c);
        assert(m.dom().contains(c) && m[c].entity_type == EntityType::Snake);
        if m[c].entity == e.entity {
            if e.entity_type == EntityType::Snake {
                let k = choose|k: int| 0 <= k < cells.len() && element_cells(s.registry.snakes[e.entity].parts)[k] == c;
                assert(cells.contains(cells[k]));
            } else {
                assert(s.registry.boxes.dom().contains(e.entity));
            }
        }
    }
    assert forall|c: Cell|
        #[trigger] m1.dom().contains(c) && m1[c].entity_type == EntityType::Box implies grounded_box(
        s1.registry,
        air1,
        m1[c].entity,
    ) && s1.registry.boxes[m1[c].entity].position == c by {
        lemma_cleared(m, cells, c);
        assert(m.dom().contains(c) && m[c].entity_type == EntityType::Box);
        if m[c].entity == e.entity {
            if e.entity_type == EntityType::Box {
                assert(cells[0] == c);
                assert(cells.contains(cells[0]));
            } else {
                assert(s.registry.snakes.dom().contains(e.entity));
            }
        }
    }
}

/// A falling movable that drops one cell keeps the index and the movables consistent.
pub proof fn lemma_fall_step_keeps_occupancy(s: SimState, air: Set<Entity>, e: LevelGridEntity)
    requires
        occupancy_consistent(s, air),
        air.contains(e.entity),
        movable_cells(s.registry, e) is Some,
        crate::level_entities::can_shift(movable_cells(s.registry, e)->Some_0, crate::movement::down()),
    ensures
        occupancy_consistent(
            SimState { level: s.level, registry: crate::registry::moved_movable(s.registry, e, crate::movement::down()) },
            air,
        ),
{
    let d = crate::movement::down();
    let cells = movable_cells(s.registry, e)->Some_0;
    let s1 = SimState { level: s.level, registry: crate::registry::moved_movable(s.registry, e, d) };
    let m = s.level;
    assert forall|f: Entity, i: int|
        grounded_snake(s1.registry, air, f) && 0 <= i < s1.registry.snakes[f].parts.len() implies {
        let c = #[trigger] s1.registry.snakes[f].parts[i].0;
        m.dom().contains(c) && m[c] == snake_occupant(f)
    } by {
        let c = s.registry.snakes[f].parts[i].0;
        assert(m.dom().contains(c) && m[c] == snake_occupant(f));
    }
    assert forall|f: Entity| #[trigger] grounded_box(s1.registry, air, f) implies m.dom().contains(
        s1.registry.boxes[f].position,
    ) && m[s1.registry.boxes[f].position] == (LevelGridEntity { entity: f, entity_type: EntityType::Box }) by {
        assert(grounded_box(s.registry, air, f));
    }
    assert forall|c: Cell|
        #[trigger] m.dom().contains(c) && m[c].entity_type == EntityType::Snake implies grounded_snake(
        s1.registry,
        air,
        m[c].entity,
    ) && element_cells(s1.registry.snakes[m[c].entity].parts).contains(c) by {}
    assert forall|c: Cell|
        #[trigger] m.dom().contains(c) && m[c].entity_type == EntityType::Box implies grounded_box(
        s1.registry,
        air,
        m[c].entity,
    ) && s1.registry.boxes[m[c].entity].position == c by {}
    assert forall|f: Entity| #[trigger] s1.registry.snakes.dom().contains(f) implies body_ok(s1.registry.snakes[f].parts) by {
        if e.entity_type == EntityType::Snake && f == e.entity {
            let q = s.registry.snakes[f].parts;
            assert forall|k: int| 0 <= k < q.len() implies can_add(#[trigger] q[k].0, d) by {
                assert(cells[k] == q[k].0);
            }
            lemma_shifted_body_ok(q, d);
        }
    }
}

/// A falling movable that lands on cells where no movable is recorded is recorded there
/// again: with it out of the air, the index and the movables stay consistent.
pub proof fn lemma_landing_keeps_occupancy(s: SimState, air: Set<Entity>, e: LevelGridEntity)
    requires
        occupancy_consistent(s, air),
        air.contains(e.entity),
        crate::grid::movable_kind(e.entity_type),
        movable_cells(s.registry, e) is Some,
        e.entity_type == EntityType::Snake ==> s.registry.snakes[e.entity].active,
        forall|k: int|
            0 <= k < movable_cells(s.registry, e)->Some_0.len() ==> no_movable_at(
                s.level,
                #[trigger] movable_cells(s.registry, e)->Some_0[k],
            ),
    ensures
        occupancy_consistent(
            SimState { level: filled(s.level, movable_cells(s.registry, e)->Some_0, e), registry: s.registry },
            air.remove(e.entity),
        ),
{
    let cells = movable_cells(s.registry, e)->Some_0;
    let m = s.level;
    let m1 = filled(m, cells, e);
    let air1 = air.remove(e.entity);
    let s1 = SimState { level: m1, registry: s.registry };
    assert forall|f: Entity, i: int|
        grounded_snake(s1.registry, air1, f) && 0 <= i < s1.registry.snakes[f].parts.len() implies {
        let c = #[trigger] s1.registry.snakes[f].parts[i].0;
        m1.dom().contains(c) && m1[c] == snake_occupant(f)
    } by {
        let c = s.registry.snakes[f].parts[i].0;
        lemma_filled(m, cells, e, c);
        if f == e.entity && e.entity_type == EntityType::Snake {
            assert(cells[i] == c);
            assert(cells.contains(cells[i]));
        } else {
            if f == e.entity {
                assert(s.registry.boxes.dom().contains(e.entity));
            }
            assert(m.dom().contains(c) && m[c] == snake_occupant(f));
            if cells.contains(c) {
                let k = choose|k: int| 0 <= k < cells.len() && cells[k] == c;
                assert(no_movable_at(m, cells[k]));
            }
        }
    }
    assert forall|f: Entity| #[trigger] grounded_box(s1.registry, air1, f) implies m1.dom().contains(
        s1.registry.boxes[f].position,
    ) && m1[s1.registry.boxes[f].position] == (LevelGridEntity { entity: f, entity_type: EntityType::Box }) by {
        let c = s.registry.boxes[f].position;
        lemma_filled(m, cells, e, c);
        if f == e.entity && e.entity_type == EntityType::Box {
            assert(cells[0] == c);
            assert(cells.contains(cells[0]));
        } else {
            if f == e.entity {
                assert(s.registry.snakes.dom().contains(e.entity));
            }
            assert(grounded_box(s.registry, air, f));
            if cells.contains(c) {
                let k = choose|k: int| 0 <= k < cells.len() && cells[k] == c;
                assert(no_movable_at(m, cells[k]));
            }
        }
    }
    assert forall|c: Cell|
        #[trigger] m1.dom().contains(c) && m1[c].entity_type == EntityType::Snake implies grounded_snake(
        s1.registry,
        air1,
        m1[c].entity,
    ) && element_cells(s1.registry.snakes[m1[c].entity].parts).contains(c) by {
        lemma_filled(m, cells, e, c);
        if cells.contains(c) {
            let k = choose|k: int| 0 <= k < cells.len() && cells[k] == c;
            assert(element_cells(s.registry.snakes[e.entity].parts)[k] == c);
        } else {
            assert(m.dom().contains(c) && m[c].entity_type == EntityType::Snake);
        }
    }
    assert forall|c: Cell|
        #[trigger] m1.dom().contains(c) && m1[c].entity_type == EntityType::Box implies grounded_box(
        s1.registry,
        air1,
        m1[c].entity,
    ) && s1.registry.boxes[m1[c].entity].position == c by {
        lemma_filled(m, cells, e, c);
        if cells.contains(c) {
            let k = choose|k: int| 0 <= k < cells.len() && cells[k] == c;
        } else {
            assert(m.dom().contains(c) && m[c].entity_type == EntityType::Box);
        }
    }
}

/// A grounded snake that leaves through the goal is taken out of play and out of the index:
/// the index and the movables stay consistent.
pub proof fn lemma_exit_keeps_occupancy(s: SimState, air: Set<Entity>, e: Entity)
    requires
        occupancy_consistent(s, air),
        grounded_snake(s.registry, air, e),
    ensures
        occupancy_consistent(
            SimState {
                level: cleared(s.level, element_cells(s.registry.snakes[e].parts)),
                registry: crate::registry::with_active(s.registry, e, false),
            },
            air,
        ),
{
    let occ = snake_occupant(e);
    let cells = element_cells(s.registry.snakes[e].parts);
    let m = s.level;
    let m1 = cleared(m, cells);
    let s1 = SimState { level: m1, registry: crate::registry::with_active(s.registry, e, false) };
    lemma_cells_recorded(s, air, occ);
    assert(movable_cells(s.registry, occ)->Some_0 == cells);
    assert forall|f: Entity, i: int|
        grounded_snake(s1.registry, air, f) && 0 <= i < s1.registry.snakes[f].parts.len() implies {
        let c = #[trigger] s1.registry.snakes[f].parts[i].0;
        m1.dom().contains(c) && m1[c] == snake_occupant(f)
    } by {
        let c = s.registry.snakes[f].parts[i].0;
        assert(m.dom().contains(c) && m[c] == snake_occupant(f));
        lemma_cleared(m, cells, c);
        if cells.contains(c) {
            let k = choose|k: int| 0 <= k < cells.len() && cells[k] == c;
            assert(m[cells[k]] == occ);
        }
    }
    assert forall|f: Entity| #[trigger] grounded_box(s1.registry, air, f) implies m1.dom().contains(
        s1.registry.boxes[f].position,
    ) && m1[s1.registry.boxes[f].position] == (LevelGridEntity { entity: f, entity_type: EntityType::Box }) by {
        assert(grounded_box(s.registry, air, f));
        let c = s.registry.boxes[f].position;
        lemma_cleared(m, cells, c);
        if cells.contains(c) {
            let k = choose|k: int| 0 <= k < cells.len() && cells[k] == c;
            assert(m[cells[k]] == occ);
        }
    }
    assert forall|c: Cell|
        #[trigger] m1.dom().contains(c) && m1[c].entity_type == EntityType::Snake implies grounded_snake(
        s1.registry,
        air,
        m1[c].entity,
    ) && element_cells(s1.registry.snakes[m1[c].entity].parts).contains(c) by {
        lemma_cleared(m, cells, c);
        assert(m.dom().contains(c) && m[c].entity_type == EntityType::Snake);
    }
    assert forall|c: Cell|
        #[trigger] m1.dom().contains(c) && m1[c].entity_type == EntityType::Box implies grounded_box(
        s1.registry,
        air,
        m1[c].entity,
    ) && s1.registry.boxes[m1[c].entity].position == c by {
        lemma_cleared(m, cells, c);
        assert(m.dom().contains(c) && m[c].entity_type == EntityType::Box);
    }
    assert forall|f: Entity| #[trigger] s1.registry.snakes.dom().contains(f) implies body_ok(s1.registry.snakes[f].parts) by {
        assert(s.registry.snakes.dom().contains(f));
    }
}

} // verus!
