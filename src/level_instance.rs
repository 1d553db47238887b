//! The level's occupancy index: which entity occupies each grid cell.
use crate::grid::{
    can_add, can_sub, cell_add, cell_sub, movable_kind, traversable_kind, Cell, Entity, EntityType,
    LevelEntityUpdateEvent, LevelGridEntity,
};
use crate::level_entities::{can_shift, shifted, Movable};
use crate::snake::Snake;
use bevy::math::IVec3;
use vstd::prelude::*;

verus! {

/// The cell-to-occupant table, held in the engine's hash map keyed by integer vectors.
#[verifier::external_body]
pub struct CellMap {
    cells: bevy::utils::HashMap<IVec3, LevelGridEntity>,
}

/// What a `CellMap` holds, as a map from cell to occupant.
pub uninterp spec fn cell_map_contents(m: CellMap) -> Map<Cell, LevelGridEntity>;

/// A level with no occupied cell.
pub open spec fn empty_level() -> Map<Cell, LevelGridEntity> {
    Map::empty()
}

/// The occupant of `c` in `m`, if any.
pub open spec fn occupant(m: Map<Cell, LevelGridEntity>, c: Cell) -> Option<LevelGridEntity> {
    if m.dom().contains(c) {
        Some(m[c])
    } else {
        None
    }
}

impl CellMap {
    /// Relies on hashbrown's `HashMap::new`: a new map holds no entry.
    #[verifier::external_body]
    fn new() -> (r: CellMap)
        ensures
            cell_map_contents(r) == empty_level(),
    {
        CellMap { cells: bevy::utils::HashMap::new() }
    }

    /// Relies on hashbrown's `HashMap::get`: the value stored under the key, if any.
    /// Keys are integer vectors, equal exactly when their three coordinates are.
    #[verifier::external_body]
    fn get(&self, c: Cell) -> (r: Option<LevelGridEntity>)
        ensures
            r == occupant(cell_map_contents(*self), c),
    {
        self.cells.get(&IVec3::new(c.x, c.y, c.z)).copied()
    }

    /// Relies on hashbrown's `HashMap::insert`: the key now maps to the value,
    /// every other entry is kept.
    #[verifier::external_body]
    fn insert(&mut self, c: Cell, v: LevelGridEntity)
        ensures
            cell_map_contents(*final(self)) == cell_map_contents(*old(self)).insert(c, v),
    {
        self.cells.insert(IVec3::new(c.x, c.y, c.z), v);
    }

    /// Relies on hashbrown's `HashMap::remove`: the entry of the key leaves the map
    /// and its value is returned, every other entry is kept.
    #[verifier::external_body]
    fn remove(&mut self, c: Cell) -> (r: Option<LevelGridEntity>)
        ensures
            r == occupant(cell_map_contents(*old(self)), c),
            cell_map_contents(*final(self)) == cell_map_contents(*old(self)).remove(c),
    {
        self.cells.remove(&IVec3::new(c.x, c.y, c.z))
    }
}

/// The occupancy index of a level.
pub struct LevelInstance {
    occupied_cells: CellMap,
}

impl View for LevelInstance {
    type V = Map<Cell, LevelGridEntity>;

    closed spec fn view(&self) -> Map<Cell, LevelGridEntity> {
        cell_map_contents(self.occupied_cells)
    }
}

/// `c` holds an occupant of kind `t`.
pub open spec fn has_kind(m: Map<Cell, LevelGridEntity>, c: Cell, t: EntityType) -> bool {
    m.dom().contains(c) && m[c].entity_type == t
}

/// Nothing blocks movement into `c`: it is empty, or its occupant is traversable.
pub open spec fn traversable_cell(m: Map<Cell, LevelGridEntity>, c: Cell) -> bool {
    !m.dom().contains(c) || traversable_kind(m[c].entity_type)
}

/// A snake may enter `c`: it is traversable or holds food.
pub open spec fn walkable_cell(m: Map<Cell, LevelGridEntity>, c: Cell) -> bool {
    traversable_cell(m, c) || has_kind(m, c, EntityType::Food)
}

/// `c` is occupied by `e`.
pub open spec fn entity_at(m: Map<Cell, LevelGridEntity>, c: Cell, e: Entity) -> bool {
    m.dom().contains(c) && m[c].entity == e
}

impl LevelInstance {
    pub fn new() -> (r: LevelInstance)
        ensures
            r@ == empty_level(),
    {
        LevelInstance { occupied_cells: CellMap::new() }
    }

    pub fn is_empty(&self, position: Cell) -> (r: bool)
        ensures
            r == !self@.dom().contains(position),
    {
        self.occupied_cells.get(position).is_none()
    }

    pub fn is_empty_or_spike(&self, position: Cell) -> (r: bool)
        ensures
            r == (!self@.dom().contains(position) || has_kind(self@, position, EntityType::Spike)),
    {
        self.is_empty(position) || self.is_spike(position)
    }

    /// Removes the occupant of `position` and returns it.
    pub fn set_empty(&mut self, position: Cell) -> (r: Option<LevelGridEntity>)
        ensures
            r == occupant(old(self)@, position),
            final(self)@ == old(self)@.remove(position),
    {
        self.occupied_cells.remove(position)
    }

    /// Records `value` as the occupant of `position`, replacing any previous one.
    pub fn mark_position_occupied(&mut self, position: Cell, value: LevelGridEntity)
        ensures
            final(self)@ == old(self)@.insert(position, value),
    {
        self.occupied_cells.insert(position, value)
    }

    pub fn get(&self, position: Cell) -> (r: Option<LevelGridEntity>)
        ensures
            r == occupant(self@, position),
    {
        self.occupied_cells.get(position)
    }

    pub fn is_food(&self, position: Cell) -> (r: bool)
        ensures
            r == has_kind(self@, position, EntityType::Food),
    {
        match self.occupied_cells.get(position) {
            None => false,
            Some(entity) => entity.entity_type == EntityType::Food,
        }
    }

    pub fn is_spike(&self, position: Cell) -> (r: bool)
        ensures
            r == has_kind(self@, position, EntityType::Spike),
    {
        match self.occupied_cells.get(position) {
            None => false,
            Some(entity) => entity.entity_type == EntityType::Spike,
        }
    }

    pub fn is_traversable(&self, position: Cell) -> (r: bool)
        ensures
            r == traversable_cell(self@, position),
    {
        match self.occupied_cells.get(position) {
            None => true,
            Some(entity) => entity.is_traversable(),
        }
    }

    pub fn is_entity(&self, position: Cell, entity: Entity) -> (r: bool)
        ensures
            r == entity_at(self@, position, entity),
    {
        match self.occupied_cells.get(position) {
            None => false,
            Some(cell_entity) => cell_entity.entity == entity,
        }
    }

    /// The occupant of `position` when it is a snake or a box.
    pub fn is_movable(&self, position: Cell) -> (r: Option<LevelGridEntity>)
        ensures
            r == (if self@.dom().contains(position) && movable_kind(self@[position].entity_type) {
                Some(self@[position])
            } else {
                None
            }),
    {
        match self.occupied_cells.get(position) {
            Some(entity) => if entity.is_movable() {
                Some(entity)
            } else {
                None
            },
            None => None,
        }
    }

    pub fn can_walk_or_eat(&self, position: Cell) -> (r: bool)
        ensures
            r == walkable_cell(self@, position),
    {
        match self.occupied_cells.get(position) {
            Some(entity) => entity.is_traversable() || entity.entity_type == EntityType::Food,
            None => true,
        }
    }
}

/// Distance reported when no ground lies below a cell.
pub const NO_GROUND_DISTANCE: i32 = 50;

/// `m` with the cells of `ps` emptied, one after the other.
pub open spec fn cleared(m: Map<Cell, LevelGridEntity>, ps: Seq<Cell>) -> Map<Cell, LevelGridEntity>
    decreases ps.len(),
{
    if ps.len() == 0 {
        m
    } else {
        cleared(m, ps.drop_last()).remove(ps.last())
    }
}

/// `m` with every cell of `ps` given the occupant `v`, one after the other.
pub open spec fn filled(m: Map<Cell, LevelGridEntity>, ps: Seq<Cell>, v: LevelGridEntity) -> Map<
    Cell,
    LevelGridEntity,
>
    decreases ps.len(),
{
    if ps.len() == 0 {
        m
    } else {
        filled(m, ps.drop_last(), v).insert(ps.last(), v)
    }
}

/// The deltas recording that the cells of `ps` were cleared from `m`.
pub open spec fn clear_updates(m: Map<Cell, LevelGridEntity>, ps: Seq<Cell>) -> Seq<
    LevelEntityUpdateEvent,
> {
    ps.map_values(|p: Cell| LevelEntityUpdateEvent::ClearPosition(p, m[p]))
}

/// The deltas of filling the cell `p` of `m`: the fill, then the occupant it overwrote, if
/// there was one. Reverted in this order, they give `m` back.
pub open spec fn fill_step(m: Map<Cell, LevelGridEntity>, p: Cell) -> Seq<LevelEntityUpdateEvent> {
    if m.dom().contains(p) {
        seq![LevelEntityUpdateEvent::FillPosition(p), LevelEntityUpdateEvent::ClearPosition(p, m[p])]
    } else {
        seq![LevelEntityUpdateEvent::FillPosition(p)]
    }
}

/// The deltas of giving the cells of `ps` the occupant `v` in `m`, one cell after the other,
/// in the order of the cells.
pub open spec fn fill_updates(m: Map<Cell, LevelGridEntity>, ps: Seq<Cell>, v: LevelGridEntity) -> Seq<
    LevelEntityUpdateEvent,
>
    decreases ps.len(),
{
    if ps.len() == 0 {
        Seq::empty()
    } else {
        fill_updates(m, ps.drop_last(), v) + fill_step(filled(m, ps.drop_last(), v), ps.last())
    }
}

/// The same deltas as `fill_updates`, the last cell first.
pub open spec fn fill_updates_newest_first(
    m: Map<Cell, LevelGridEntity>,
    ps: Seq<Cell>,
    v: LevelGridEntity,
) -> Seq<LevelEntityUpdateEvent>
    decreases ps.len(),
{
    if ps.len() == 0 {
        Seq::empty()
    } else {
        fill_step(filled(m, ps.drop_last(), v), ps.last()) + fill_updates_newest_first(
            m,
            ps.drop_last(),
            v,
        )
    }
}

/// `s` in reverse order.
pub open spec fn reversed<T>(s: Seq<T>) -> Seq<T> {
    Seq::new(s.len(), |j: int| s[s.len() - 1 - j])
}

/// Reverting one delta: a cleared cell gets its occupant back, a filled cell is emptied.
pub open spec fn revert_update(m: Map<Cell, LevelGridEntity>, u: LevelEntityUpdateEvent) -> Map<
    Cell,
    LevelGridEntity,
> {
    match u {
        LevelEntityUpdateEvent::ClearPosition(p, v) => m.insert(p, v),
        LevelEntityUpdateEvent::FillPosition(p) => m.remove(p),
    }
}

/// Reverting a list of deltas, in list order.
pub open spec fn revert_updates(m: Map<Cell, LevelGridEntity>, us: Seq<LevelEntityUpdateEvent>) -> Map<
    Cell,
    LevelGridEntity,
>
    decreases us.len(),
{
    if us.len() == 0 {
        m
    } else {
        revert_update(revert_updates(m, us.drop_last()), us.last())
    }
}

/// A cell that a falling entity passes through: empty, a spike, or part of the entity itself.
pub open spec fn passable(m: Map<Cell, LevelGridEntity>, c: Cell, e: Entity) -> bool {
    !m.dom().contains(c) || has_kind(m, c, EntityType::Spike) || entity_at(m, c, e)
}

/// The cell `d` steps below `c`.
pub open spec fn below(c: Cell, d: int) -> Cell {
    Cell { x: c.x, y: (c.y - d) as i32, z: c.z }
}

/// How many cells below a cell at height `y` are looked at before the scan gives up.
pub open spec fn scan_depth(y: i32) -> int {
    if y - 1 >= 1 {
        y - 1
    } else {
        1
    }
}

/// The distance from `c` down to the ground, as `get_distance_to_ground` reports it.
#[verifier::opaque]
pub open spec fn ground_distance(m: Map<Cell, LevelGridEntity>, c: Cell, e: Entity) -> int {
    if exists|d: int| 1 <= d <= scan_depth(c.y) && !#[trigger] passable(m, below(c, d), e) {
        choose|d: int|
            1 <= d <= scan_depth(c.y) && !passable(m, below(c, d), e) && forall|d2: int|
                1 <= d2 < d ==> #[trigger] passable(m, below(c, d2), e)
    } else {
        NO_GROUND_DISTANCE as int
    }
}

/// The cells of `ps` after clearing: those of `m` not in `ps`, with their occupants.
pub proof fn lemma_cleared(m: Map<Cell, LevelGridEntity>, ps: Seq<Cell>, c: Cell)
    ensures
        cleared(m, ps).dom().contains(c) == (m.dom().contains(c) && !ps.contains(c)),
        cleared(m, ps).dom().contains(c) ==> cleared(m, ps)[c] == m[c],
    decreases ps.len(),
{
    if ps.len() > 0 {
        lemma_cleared(m, ps.drop_last(), c);
        lemma_contains_drop_last(ps, c);
    }
}

/// The cells after filling: those of `m` and those of `ps`, the latter holding `v`.
pub proof fn lemma_filled(m: Map<Cell, LevelGridEntity>, ps: Seq<Cell>, v: LevelGridEntity, c: Cell)
    ensures
        filled(m, ps, v).dom().contains(c) == (m.dom().contains(c) || ps.contains(c)),
        filled(m, ps, v).dom().contains(c) ==> filled(m, ps, v)[c] == (if ps.contains(c) {
            v
        } else {
            m[c]
        }),
    decreases ps.len(),
{
    if ps.len() > 0 {
        lemma_filled(m, ps.drop_last(), v, c);
        lemma_contains_drop_last(ps, c);
    }
}

/// `ps` holds `c` exactly when `ps` without its last cell holds it, or the last cell is `c`.
pub proof fn lemma_contains_drop_last(ps: Seq<Cell>, c: Cell)
    requires
        ps.len() > 0,
    ensures
        ps.contains(c) == (ps.drop_last().contains(c) || ps.last() == c),
{
    if ps.contains(c) {
        let j = choose|j: int| 0 <= j < ps.len() && ps[j] == c;
        if j < ps.len() - 1 {
            assert(ps.drop_last()[j] == c);
        }
    }
    if ps.drop_last().contains(c) {
        let j = choose|j: int| 0 <= j < ps.drop_last().len() && ps.drop_last()[j] == c;
        assert(ps[j] == c);
    }
}

/// A reversed sequence holds the same cells.
pub proof fn lemma_reversed_contains(ps: Seq<Cell>, c: Cell)
    ensures
        reversed(ps).contains(c) == ps.contains(c),
{
    if ps.contains(c) {
        let j = choose|j: int| 0 <= j < ps.len() && ps[j] == c;
        assert(reversed(ps)[ps.len() - 1 - j] == c);
    }
    if reversed(ps).contains(c) {
        let j = choose|j: int| 0 <= j < reversed(ps).len() && reversed(ps)[j] == c;
        assert(ps[ps.len() - 1 - j] == c);
    }
}

/// Reverting two lists one after the other is reverting their concatenation.
pub proof fn lemma_revert_concat(
    m: Map<Cell, LevelGridEntity>,
    a: Seq<LevelEntityUpdateEvent>,
    b: Seq<LevelEntityUpdateEvent>,
)
    ensures
        revert_updates(m, a + b) == revert_updates(revert_updates(m, a), b),
    decreases b.len(),
{
    if b.len() == 0 {
        assert(a + b =~= a);
    } else {
        lemma_revert_concat(m, a, b.drop_last());
        assert((a + b).drop_last() =~= a + b.drop_last());
    }
}

/// Reverting one delta.
pub proof fn lemma_revert_one(m: Map<Cell, LevelGridEntity>, u: LevelEntityUpdateEvent)
    ensures
        revert_updates(m, seq![u]) == revert_update(m, u),
{
    assert(seq![u].drop_last() =~= Seq::<LevelEntityUpdateEvent>::empty());
    assert(revert_updates(m, seq![u].drop_last()) == m);
}

/// Reverting two deltas, in order.
pub proof fn lemma_revert_two(
    m: Map<Cell, LevelGridEntity>,
    u: LevelEntityUpdateEvent,
    v: LevelEntityUpdateEvent,
)
    ensures
        revert_updates(m, seq![u, v]) == revert_update(revert_update(m, u), v),
{
    assert(seq![u, v].drop_last() =~= seq![u]);
    lemma_revert_one(m, u);
}

/// Reversing a concatenation reverses and swaps its parts.
pub proof fn lemma_reversed_concat<T>(a: Seq<T>, b: Seq<T>)
    ensures
        reversed(a + b) == reversed(b) + reversed(a),
{
    assert(reversed(a + b) =~= reversed(b) + reversed(a));
}

/// Undoing the fill of one cell gives the index back, whether or not the cell held an
/// occupant before.
pub proof fn lemma_revert_fill_step(m: Map<Cell, LevelGridEntity>, p: Cell, v: LevelGridEntity)
    ensures
        revert_updates(m.insert(p, v), fill_step(m, p)) == m,
{
    if m.dom().contains(p) {
        lemma_revert_two(
            m.insert(p, v),
            LevelEntityUpdateEvent::FillPosition(p),
            LevelEntityUpdateEvent::ClearPosition(p, m[p]),
        );
        assert(m.insert(p, v).remove(p).insert(p, m[p]) =~= m);
    } else {
        lemma_revert_one(m.insert(p, v), LevelEntityUpdateEvent::FillPosition(p));
        assert(m.insert(p, v).remove(p) =~= m);
    }
}

/// What reverting the fill deltas of one cell does at a cell `c`: the filled cell gets back
/// what `m` held there; any other cell is left as it is.
proof fn lemma_revert_step_at(x: Map<Cell, LevelGridEntity>, m: Map<Cell, LevelGridEntity>, p: Cell, c: Cell)
    ensures
        ({
            let r = revert_updates(x, fill_step(m, p));
            &&& c == p ==> (r.dom().contains(c) == m.dom().contains(c) && (r.dom().contains(c) ==> r[c] == m[c]))
            &&& c != p ==> (r.dom().contains(c) == x.dom().contains(c) && (r.dom().contains(c) ==> r[c] == x[c]))
        }),
{
    if m.dom().contains(p) {
        lemma_revert_two(x, LevelEntityUpdateEvent::FillPosition(p), LevelEntityUpdateEvent::ClearPosition(p, m[p]));
    } else {
        lemma_revert_one(x, LevelEntityUpdateEvent::FillPosition(p));
    }
}

/// What reverting the fill deltas of distinct cells does at a cell `c`, in either order: a
/// filled cell gets back what `m` held there; any other cell is left as it is.
pub proof fn lemma_revert_fills_at(
    x: Map<Cell, LevelGridEntity>,
    m: Map<Cell, LevelGridEntity>,
    ps: Seq<Cell>,
    v: LevelGridEntity,
    c: Cell,
)
    requires
        ps.no_duplicates(),
    ensures
        ({
            let r = revert_updates(x, fill_updates(m, ps, v));
            &&& ps.contains(c) ==> (r.dom().contains(c) == m.dom().contains(c) && (r.dom().contains(c) ==> r[c] == m[c]))
            &&& !ps.contains(c) ==> (r.dom().contains(c) == x.dom().contains(c) && (r.dom().contains(c) ==> r[c] == x[c]))
        }),
        ({
            let r = revert_updates(x, fill_updates_newest_first(m, ps, v));
            &&& ps.contains(c) ==> (r.dom().contains(c) == m.dom().contains(c) && (r.dom().contains(c) ==> r[c] == m[c]))
            &&& !ps.contains(c) ==> (r.dom().contains(c) == x.dom().contains(c) && (r.dom().contains(c) ==> r[c] == x[c]))
        }),
    decreases ps.len(),
{
    if ps.len() == 0 {
        assert(revert_updates(x, Seq::<LevelEntityUpdateEvent>::empty()) == x);
    } else {
        let d = ps.drop_last();
        let last = ps.last();
        let fm = filled(m, d, v);
        assert(d.no_duplicates()) by {
            assert forall|a: int, b: int| 0 <= a < d.len() && 0 <= b < d.len() && a != b implies d[a] != d[b] by {
                assert(ps[a] != ps[b]);
            }
        }
        assert(!d.contains(last)) by {
            if d.contains(last) {
                let j = choose|j: int| 0 <= j < d.len() && d[j] == last;
                assert(ps[j] == ps[ps.len() - 1]);
            }
        }
        lemma_contains_drop_last(ps, c);
        lemma_filled(m, d, v, last);
        // In the order of the cells.
        lemma_revert_concat(x, fill_updates(m, d, v), fill_step(fm, last));
        let y = revert_updates(x, fill_updates(m, d, v));
        lemma_revert_fills_at(x, m, d, v, c);
        lemma_revert_step_at(y, fm, last, c);
        // The last cell first.
        lemma_revert_concat(x, fill_step(fm, last), fill_updates_newest_first(m, d, v));
        let z = revert_updates(x, fill_step(fm, last));
        lemma_revert_step_at(x, fm, last, c);
        lemma_revert_fills_at(z, m, d, v, c);
    }
}

/// Undoing the fills of `mark_entity_positions` on distinct cells gives the index back,
/// whatever the cells held.
pub proof fn lemma_revert_filled(m: Map<Cell, LevelGridEntity>, ps: Seq<Cell>, v: LevelGridEntity)
    requires
        ps.no_duplicates(),
    ensures
        revert_updates(filled(m, ps, v), fill_updates(m, ps, v)) == m,
        revert_updates(filled(m, ps, v), fill_updates_newest_first(m, ps, v)) == m,
{
    let f = filled(m, ps, v);
    assert forall|c: Cell| #[trigger] revert_updates(f, fill_updates(m, ps, v)).dom().contains(c)
        == m.dom().contains(c) && (m.dom().contains(c) ==> revert_updates(f, fill_updates(m, ps, v))[c] == m[c]) by {
        lemma_revert_fills_at(f, m, ps, v, c);
        lemma_filled(m, ps, v, c);
    }
    assert forall|c: Cell| #[trigger] revert_updates(f, fill_updates_newest_first(m, ps, v)).dom().contains(c)
        == m.dom().contains(c) && (m.dom().contains(c) ==> revert_updates(f, fill_updates_newest_first(m, ps, v))[c] == m[c]) by {
        lemma_revert_fills_at(f, m, ps, v, c);
        lemma_filled(m, ps, v, c);
    }
    assert(revert_updates(f, fill_updates(m, ps, v)) =~= m);
    assert(revert_updates(f, fill_updates_newest_first(m, ps, v)) =~= m);
}

/// Moving distinct cells by a fixed offset keeps them distinct.
pub proof fn lemma_shifted_distinct(ps: Seq<Cell>, offset: Cell)
    requires
        ps.no_duplicates(),
        can_shift(ps, offset),
    ensures
        shifted(ps, offset).no_duplicates(),
{
    assert forall|a: int, b: int|
        0 <= a < ps.len() && 0 <= b < ps.len() && a != b implies shifted(ps, offset)[a] != shifted(ps, offset)[b] by {
        assert(can_add(ps[a], offset) && can_add(ps[b], offset));
        assert(ps[a] != ps[b]);
    }
}

/// Undoing the clears of `clear_posisitons`, newest first, gives the index back.
pub proof fn lemma_revert_cleared(m: Map<Cell, LevelGridEntity>, ps: Seq<Cell>)
    requires
        ps.no_duplicates(),
        forall|i: int| 0 <= i < ps.len() ==> m.dom().contains(#[trigger] ps[i]),
    ensures
        revert_updates(cleared(m, ps), reversed(clear_updates(m, ps))) == m,
    decreases ps.len(),
{
    if ps.len() == 0 {
        assert(reversed(clear_updates(m, ps)) =~= Seq::<LevelEntityUpdateEvent>::empty());
    } else {
        let d = ps.drop_last();
        let last = ps.last();
        let u = LevelEntityUpdateEvent::ClearPosition(last, m[last]);
        assert(clear_updates(m, ps) =~= clear_updates(m, d) + seq![u]);
        lemma_reversed_concat(clear_updates(m, d), seq![u]);
        assert(reversed(seq![u]) =~= seq![u]);
        lemma_revert_concat(cleared(m, ps), seq![u], reversed(clear_updates(m, d)));
        lemma_revert_one(cleared(m, ps), u);
        assert(!d.contains(last)) by {
            if d.contains(last) {
                let j = choose|j: int| 0 <= j < d.len() && d[j] == last;
                assert(ps[j] == ps[ps.len() - 1]);
            }
        }
        lemma_cleared(m, d, last);
        assert(m.dom().contains(ps[ps.len() - 1]));
        assert(cleared(m, ps).insert(last, m[last]) =~= cleared(m, d));
        assert(d.no_duplicates()) by {
            assert forall|a: int, b: int| 0 <= a < d.len() && 0 <= b < d.len() && a != b implies d[a] != d[b] by {
                assert(ps[a] != ps[b]);
            }
        }
        assert forall|i: int| 0 <= i < d.len() implies m.dom().contains(#[trigger] d[i]) by {
            assert(d[i] == ps[i]);
        }
        lemma_revert_cleared(m, d);
    }
}

/// Reverting clears puts the recorded occupants back and keeps the rest.
pub proof fn lemma_revert_clears(
    m: Map<Cell, LevelGridEntity>,
    m0: Map<Cell, LevelGridEntity>,
    ps: Seq<Cell>,
    c: Cell,
)
    ensures
        revert_updates(m, clear_updates(m0, ps)).dom().contains(c) == (m.dom().contains(c)
            || ps.contains(c)),
        revert_updates(m, clear_updates(m0, ps)).dom().contains(c) ==> revert_updates(
            m,
            clear_updates(m0, ps),
        )[c] == (if ps.contains(c) {
            m0[c]
        } else {
            m[c]
        }),
    decreases ps.len(),
{
    if ps.len() > 0 {
        lemma_revert_clears(m, m0, ps.drop_last(), c);
        lemma_contains_drop_last(ps, c);
        assert(clear_updates(m0, ps).drop_last() =~= clear_updates(m0, ps.drop_last()));
    }
}

/// Moving cells by `move_cells` and reverting the deltas it returns gives the index back.
pub proof fn lemma_revert_move(
    m: Map<Cell, LevelGridEntity>,
    ps: Seq<Cell>,
    qs: Seq<Cell>,
    v: LevelGridEntity,
)
    requires
        ps.no_duplicates(),
        qs.no_duplicates(),
        forall|i: int| 0 <= i < ps.len() ==> m.dom().contains(#[trigger] ps[i]),
    ensures
        revert_updates(
            filled(cleared(m, ps), qs, v),
            fill_updates_newest_first(cleared(m, ps), qs, v) + reversed(clear_updates(m, ps)),
        ) == m,
{
    lemma_revert_concat(
        filled(cleared(m, ps), qs, v),
        fill_updates_newest_first(cleared(m, ps), qs, v),
        reversed(clear_updates(m, ps)),
    );
    lemma_revert_filled(cleared(m, ps), qs, v);
    lemma_revert_cleared(m, ps);
}

/// The cells of `ps` moved by `offset`.
pub fn shift_positions(ps: &Vec<Cell>, offset: Cell) -> (r: Vec<Cell>)
    requires
        can_shift(ps@, offset),
    ensures
        r@ == shifted(ps@, offset),
{
    let mut r: Vec<Cell> = Vec::new();
    let mut i: usize = 0;
    while i < ps.len()
        invariant
            i <= ps@.len(),
            can_shift(ps@, offset),
            r@ =~= shifted(ps@, offset).take(i as int),
        decreases ps@.len() - i,
    {
        assert(can_add(ps@[i as int], offset));
        r.push(ps[i].add(offset));
        i += 1;
        assert(r@ =~= shifted(ps@, offset).take(i as int));
    }
    assert(r@ =~= shifted(ps@, offset));
    r
}

/// True when no cell appears twice in `ps`.
pub fn cells_distinct(ps: &Vec<Cell>) -> (r: bool)
    ensures
        r == ps@.no_duplicates(),
{
    let mut i: usize = 0;
    while i < ps.len()
        invariant
            i <= ps@.len(),
            forall|a: int, b: int| 0 <= a < b < ps@.len() && a < i ==> ps@[a] != ps@[b],
        decreases ps@.len() - i,
    {
        let mut j: usize = i + 1;
        while j < ps.len()
            invariant
                i < ps@.len(),
                i + 1 <= j <= ps@.len(),
                forall|a: int, b: int| 0 <= a < b < ps@.len() && a < i ==> ps@[a] != ps@[b],
                forall|b: int| i < b < j ==> ps@[i as int] != ps@[b],
            decreases ps@.len() - j,
        {
            if ps[i] == ps[j] {
                return false;
            }
            j += 1;
        }
        i += 1;
    }
    true
}

/// `us` in reverse order.
fn reverse_updates(us: &Vec<LevelEntityUpdateEvent>) -> (r: Vec<LevelEntityUpdateEvent>)
    ensures
        r@ == reversed(us@),
{
    let mut r: Vec<LevelEntityUpdateEvent> = Vec::new();
    let mut i: usize = us.len();
    while i > 0
        invariant
            i <= us@.len(),
            r@ =~= reversed(us@).take(us@.len() - i),
        decreases i,
    {
        i -= 1;
        r.push(us[i]);
        assert(r@ =~= reversed(us@).take(us@.len() - i));
    }
    assert(r@ =~= reversed(us@));
    r
}

impl LevelInstance {
    /// Moves a snake forward: its old tail cell is emptied and the cell ahead of its head is
    /// filled, overwriting what stood there. Returns the deltas that undo this: the tail's
    /// clear, the head's fill, and the occupant the head overwrote, if any.
    pub fn move_snake_forward(&mut self, snake: &Snake, entity: Entity, direction: Cell) -> (r: Vec<
        LevelEntityUpdateEvent,
    >)
        requires
            snake@.len() > 0,
            old(self)@.dom().contains(snake@.last().0),
            can_add(snake@[0].0, direction),
        ensures
            final(self)@ == old(self)@.remove(snake@.last().0).insert(
                cell_add(snake@[0].0, direction),
                LevelGridEntity { entity, entity_type: EntityType::Snake },
            ),
            r@ == seq![LevelEntityUpdateEvent::ClearPosition(snake@.last().0, old(self)@[snake@.last().0])]
                + fill_step(old(self)@.remove(snake@.last().0), cell_add(snake@[0].0, direction)),
    {
        let new_position = snake.head_position().add(direction);
        let tail_position = snake.tail_position();
        let old_value = self.set_empty(tail_position).unwrap();
        let overwritten = self.get(new_position);
        self.mark_position_occupied(new_position, LevelGridEntity::new(entity, EntityType::Snake));
        let mut updates: Vec<LevelEntityUpdateEvent> = Vec::with_capacity(3);
        updates.push(LevelEntityUpdateEvent::ClearPosition(tail_position, old_value));
        updates.push(LevelEntityUpdateEvent::FillPosition(new_position));
        if let Some(previous) = overwritten {
            updates.push(LevelEntityUpdateEvent::ClearPosition(new_position, previous));
        }
        assert(updates@ =~= seq![LevelEntityUpdateEvent::ClearPosition(snake@.last().0, old(self)@[snake@.last().0])]
            + fill_step(old(self)@.remove(snake@.last().0), cell_add(snake@[0].0, direction)));
        updates
    }

    /// Empties every cell of `positions`, in order. Returns the deltas that undo this.
    pub fn clear_posisitons(&mut self, positions: &[Cell]) -> (r: Vec<LevelEntityUpdateEvent>)
        requires
            positions@.no_duplicates(),
            forall|i: int| 0 <= i < positions@.len() ==> old(self)@.dom().contains(#[trigger] positions@[i]),
        ensures
            final(self)@ == cleared(old(self)@, positions@),
            r@ == clear_updates(old(self)@, positions@),
    {
        let mut updates: Vec<LevelEntityUpdateEvent> = Vec::with_capacity(positions.len());
        let mut i: usize = 0;
        while i < positions.len()
            invariant
                i <= positions@.len(),
                positions@.no_duplicates(),
                forall|j: int| 0 <= j < positions@.len() ==> old(self)@.dom().contains(#[trigger] positions@[j]),
                self@ == cleared(old(self)@, positions@.take(i as int)),
                updates@ =~= clear_updates(old(self)@, positions@.take(i as int)),
            decreases positions@.len() - i,
        {
            let position = positions[i];
            proof {
                lemma_cleared(old(self)@, positions@.take(i as int), position);
                if positions@.take(i as int).contains(position) {
                    let j = choose|j: int| 0 <= j < i && positions@.take(i as int)[j] == position;
                    assert(positions@[j] == positions@[i as int]);
                }
            }
            let old_value = self.set_empty(position).unwrap();
            updates.push(LevelEntityUpdateEvent::ClearPosition(position, old_value));
            proof {
                assert(positions@.take(i + 1).drop_last() =~= positions@.take(i as int));
            }
            i += 1;
            assert(updates@ =~= clear_updates(old(self)@, positions@.take(i as int)));
        }
        assert(positions@.take(positions@.len() as int) =~= positions@);
        updates
    }

    /// Gives every cell of `positions` the occupant `entity`, overwriting what stood there.
    /// Returns the deltas that undo this, in the order of the cells: each fill, followed by
    /// the occupant it overwrote, if any.
    pub fn mark_entity_positions(&mut self, positions: &[Cell], entity: LevelGridEntity) -> (r: Vec<
        LevelEntityUpdateEvent,
    >)
        ensures
            final(self)@ == filled(old(self)@, positions@, entity),
            r@ == fill_updates(old(self)@, positions@, entity),
    {
        let mut updates: Vec<LevelEntityUpdateEvent> = Vec::with_capacity(positions.len());
        let mut i: usize = 0;
        while i < positions.len()
            invariant
                i <= positions@.len(),
                self@ == filled(old(self)@, positions@.take(i as int), entity),
                updates@ == fill_updates(old(self)@, positions@.take(i as int), entity),
            decreases positions@.len() - i,
        {
            let position = positions[i];
            let ghost before = self@;
            let overwritten = self.get(position);
            self.mark_position_occupied(position, entity);
            updates.push(LevelEntityUpdateEvent::FillPosition(position));
            if let Some(previous) = overwritten {
                updates.push(LevelEntityUpdateEvent::ClearPosition(position, previous));
            }
            proof {
                let t = positions@.take(i + 1);
                assert(t.drop_last() =~= positions@.take(i as int));
                assert(t.last() == position);
                assert(updates@ =~= fill_updates(old(self)@, positions@.take(i as int), entity)
                    + fill_step(before, position));
            }
            i += 1;
        }
        assert(positions@.take(positions@.len() as int) =~= positions@);
        updates
    }

    /// As `mark_entity_positions`, with the deltas of the last cell first.
    fn mark_positions_newest_first(&mut self, positions: &[Cell], entity: LevelGridEntity) -> (r: Vec<
        LevelEntityUpdateEvent,
    >)
        ensures
            final(self)@ == filled(old(self)@, positions@, entity),
            r@ == fill_updates_newest_first(old(self)@, positions@, entity),
    {
        let mut updates: Vec<LevelEntityUpdateEvent> = Vec::with_capacity(positions.len());
        let mut i: usize = 0;
        while i < positions.len()
            invariant
                i <= positions@.len(),
                self@ == filled(old(self)@, positions@.take(i as int), entity),
                updates@ == fill_updates_newest_first(old(self)@, positions@.take(i as int), entity),
            decreases positions@.len() - i,
        {
            let position = positions[i];
            let ghost before = self@;
            let overwritten = self.get(position);
            self.mark_position_occupied(position, entity);
            if let Some(previous) = overwritten {
                updates.insert(0, LevelEntityUpdateEvent::ClearPosition(position, previous));
            }
            updates.insert(0, LevelEntityUpdateEvent::FillPosition(position));
            proof {
                let t = positions@.take(i + 1);
                assert(t.drop_last() =~= positions@.take(i as int));
                assert(t.last() == position);
                assert(updates@ =~= fill_step(before, position) + fill_updates_newest_first(
                    old(self)@,
                    positions@.take(i as int),
                    entity,
                ));
            }
            i += 1;
        }
        assert(positions@.take(positions@.len() as int) =~= positions@);
        updates
    }

    /// Moves an entity by `offset`: all its old cells are emptied before any new cell is
    /// filled. Returns the deltas that undo this, in the order to apply them: the fills
    /// first, newest first, then the clears, newest first.
    pub fn move_entity<M: Movable>(&mut self, movable: &M, entity: LevelGridEntity, offset: Cell) -> (r: Vec<
        LevelEntityUpdateEvent,
    >)
        requires
            movable.cells().no_duplicates(),
            forall|i: int|
                0 <= i < movable.cells().len() ==> old(self)@.dom().contains(
                    #[trigger] movable.cells()[i],
                ),
            can_shift(movable.cells(), offset),
        ensures
            final(self)@ == filled(
                cleared(old(self)@, movable.cells()),
                shifted(movable.cells(), offset),
                entity,
            ),
            r@ == fill_updates_newest_first(
                cleared(old(self)@, movable.cells()),
                shifted(movable.cells(), offset),
                entity,
            ) + reversed(clear_updates(old(self)@, movable.cells())),
    {
        let positions = movable.positions();
        self.move_cells(&positions, entity, offset)
    }

    /// Moves the cells `positions` of `entity` by `offset`, as `move_entity` does.
    pub fn move_cells(&mut self, positions: &Vec<Cell>, entity: LevelGridEntity, offset: Cell) -> (r: Vec<
        LevelEntityUpdateEvent,
    >)
        requires
            positions@.no_duplicates(),
            forall|i: int|
                0 <= i < positions@.len() ==> old(self)@.dom().contains(#[trigger] positions@[i]),
            can_shift(positions@, offset),
        ensures
            final(self)@ == filled(
                cleared(old(self)@, positions@),
                shifted(positions@, offset),
                entity,
            ),
            r@ == fill_updates_newest_first(cleared(old(self)@, positions@), shifted(positions@, offset), entity)
                + reversed(clear_updates(old(self)@, positions@)),
    {
        let clears = self.clear_posisitons(positions.as_slice());
        let new_positions = shift_positions(positions, offset);
        let mut updates = self.mark_positions_newest_first(new_positions.as_slice(), entity);
        let mut reversed_clears = reverse_updates(&clears);
        updates.append(&mut reversed_clears);
        updates
    }

    /// True when every cell of `positions` is occupied.
    pub fn all_occupied(&self, positions: &Vec<Cell>) -> (r: bool)
        ensures
            r == (forall|i: int| 0 <= i < positions@.len() ==> self@.dom().contains(#[trigger] positions@[i])),
    {
        let mut i: usize = 0;
        while i < positions.len()
            invariant
                i <= positions@.len(),
                forall|j: int| 0 <= j < i ==> self@.dom().contains(#[trigger] positions@[j]),
            decreases positions@.len() - i,
        {
            if self.is_empty(positions[i]) {
                return false;
            }
            i += 1;
        }
        true
    }

    /// Empties the cell of an eaten food. Returns the delta that undoes this.
    pub fn eat_food(&mut self, position: Cell) -> (r: Vec<LevelEntityUpdateEvent>)
        requires
            old(self)@.dom().contains(position),
        ensures
            final(self)@ == old(self)@.remove(position),
            r@ == seq![LevelEntityUpdateEvent::ClearPosition(position, old(self)@[position])],
    {
        let old_value = self.set_empty(position).unwrap();
        let r = vec![LevelEntityUpdateEvent::ClearPosition(position, old_value)];
        assert(r@ =~= seq![LevelEntityUpdateEvent::ClearPosition(position, old(self)@[position])]);
        r
    }

    /// Fills the cell behind the tail of a snake that grows, overwriting what stood there.
    /// Returns the deltas that undo this: the fill, and the occupant it overwrote, if any.
    pub fn grow_snake(&mut self, snake: &Snake, entity: Entity) -> (r: Vec<LevelEntityUpdateEvent>)
        requires
            snake@.len() > 0,
            can_sub(snake@.last().0, snake@.last().1),
        ensures
            final(self)@ == old(self)@.insert(
                cell_sub(snake@.last().0, snake@.last().1),
                LevelGridEntity { entity, entity_type: EntityType::Snake },
            ),
            r@ == fill_step(old(self)@, cell_sub(snake@.last().0, snake@.last().1)),
    {
        let (tail_position, tail_direction) = snake.tail();
        let new_part_position = tail_position.sub(tail_direction);
        let overwritten = self.get(new_part_position);
        self.mark_position_occupied(new_part_position, LevelGridEntity::new(entity, EntityType::Snake));
        let mut r: Vec<LevelEntityUpdateEvent> = Vec::with_capacity(2);
        r.push(LevelEntityUpdateEvent::FillPosition(new_part_position));
        if let Some(previous) = overwritten {
            r.push(LevelEntityUpdateEvent::ClearPosition(new_part_position, previous));
        }
        assert(r@ =~= fill_step(old(self)@, cell_sub(snake@.last().0, snake@.last().1)));
        r
    }

    /// Reverts a list of deltas, in list order.
    pub fn undo_updates(&mut self, updates: &Vec<LevelEntityUpdateEvent>)
        ensures
            final(self)@ == revert_updates(old(self)@, updates@),
    {
        let mut i: usize = 0;
        while i < updates.len()
            invariant
                i <= updates@.len(),
                self@ == revert_updates(old(self)@, updates@.take(i as int)),
            decreases updates@.len() - i,
        {
            match updates[i] {
                LevelEntityUpdateEvent::ClearPosition(position, value) => {
                    self.mark_position_occupied(position, value);
                },
                LevelEntityUpdateEvent::FillPosition(position) => {
                    self.set_empty(position);
                },
            }
            proof {
                assert(updates@.take(i + 1).drop_last() =~= updates@.take(i as int));
            }
            i += 1;
        }
        assert(updates@.take(updates@.len() as int) =~= updates@);
    }

    /// True when every cell of `entity_positions`, moved by `direction`, is traversable or
    /// already belongs to `entity`.
    pub fn can_push_entity(&self, entity: Entity, entity_positions: &[Cell], direction: Cell) -> (r: bool)
        requires
            can_shift(entity_positions@, direction),
        ensures
            r == (forall|i: int|
                0 <= i < entity_positions@.len() ==> #[trigger] traversable_cell(
                    self@,
                    cell_add(entity_positions@[i], direction),
                ) || entity_at(self@, cell_add(entity_positions@[i], direction), entity)),
    {
        let mut i: usize = 0;
        while i < entity_positions.len()
            invariant
                i <= entity_positions@.len(),
                can_shift(entity_positions@, direction),
                forall|j: int|
                    0 <= j < i ==> #[trigger] traversable_cell(
                        self@,
                        cell_add(entity_positions@[j], direction),
                    ) || entity_at(self@, cell_add(entity_positions@[j], direction), entity),
            decreases entity_positions@.len() - i,
        {
            assert(can_add(entity_positions@[i as int], direction));
            let target = entity_positions[i].add(direction);
            if !(self.is_traversable(target) || self.is_entity(target, entity)) {
                return false;
            }
            i += 1;
        }
        true
    }

    /// How far the ground is below `position`: the number of steps down to the first cell
    /// that is neither empty, a spike, nor part of `snake_entity`. When no such cell is
    /// found above height 1, `NO_GROUND_DISTANCE`.
    pub fn get_distance_to_ground(&self, position: Cell, snake_entity: Entity) -> (r: i32)
        requires
            position.y >= i32::MIN + 2,
        ensures
            r == ground_distance(self@, position, snake_entity),
            (exists|d: int|
                1 <= d <= scan_depth(position.y) && !#[trigger] passable(
                    self@,
                    below(position, d),
                    snake_entity,
                )) ==> 1 <= r <= scan_depth(position.y) && !passable(
                self@,
                below(position, r as int),
                snake_entity,
            ) && forall|d: int|
                1 <= d < r ==> #[trigger] passable(self@, below(position, d), snake_entity),
            (forall|d: int|
                1 <= d <= scan_depth(position.y) ==> #[trigger] passable(
                    self@,
                    below(position, d),
                    snake_entity,
                )) ==> r == NO_GROUND_DISTANCE,
    {
        let mut distance: i32 = 1;
        let mut current_position = Cell::new(position.x, position.y - 1, position.z);
        assert(current_position == below(position, 1));
        while self.is_empty_or_spike(current_position) || self.is_entity(current_position, snake_entity)
            invariant
                1 <= distance <= scan_depth(position.y),
                current_position == below(position, distance as int),
                current_position.y == position.y - distance,
                distance == 1 || current_position.y > 0,
                position.y >= i32::MIN + 2,
                forall|d: int|
                    1 <= d < distance ==> #[trigger] passable(self@, below(position, d), snake_entity),
            decreases current_position.y - i32::MIN,
        {
            current_position = Cell::new(current_position.x, current_position.y - 1, current_position.z);
            distance += 1;
            assert(current_position == below(position, distance as int));
            if current_position.y <= 0 {
                assert forall|d: int|
                    1 <= d <= scan_depth(position.y) implies #[trigger] passable(
                    self@,
                    below(position, d),
                    snake_entity,
                ) by {
                    assert(d < distance);
                }
                proof {
                    reveal(ground_distance);
                }
                return NO_GROUND_DISTANCE;
            }
        }
        assert(!passable(self@, below(position, distance as int), snake_entity));
        let ghost g = ground_distance(self@, position, snake_entity);
        assert(g == distance) by {
            reveal(ground_distance);
            assert(1 <= g <= scan_depth(position.y) && !passable(self@, below(position, g), snake_entity));
            if g < distance {
                assert(passable(self@, below(position, g), snake_entity));
            }
            if distance < g {
                assert(passable(self@, below(position, distance as int), snake_entity));
            }
        }
        distance
    }
}

} // verus!
