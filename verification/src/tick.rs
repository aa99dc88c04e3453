//! One tick of the world, phase by phase: forces are sent, cells move and
//! pay, cells eat, the dead leave, the living replicate, food is laid down.

use crate::cell::{
    distance_sq, lemma_add_forces_frame, spec_add_forces, spec_can_replicate, spec_distance_sq,
    spec_in_world, spec_is_child, spec_is_dead, spec_paid, spec_rested, spec_same_but_forces,
    spec_updated, Cell, CellView,
};
use crate::cell_manager::{CellManager, Food};
use crate::id::lemma_given_back;
use crate::collections::{map_get, map_get_mut, map_keys, map_len};
use crate::config::{
    BUCKET_COUNT, DEFAULT_CELL_FOOD_VALUE, DEFAULT_FOOD_VALUE, FOOD_ADDED_PER_FRAME, FOOD_FORCE,
    FORCE_MAX_RANGE_SQ, MAX_CELLS, MAX_FOOD, WORLD_EXTENT,
};
use crate::fixed::{spec_plus, Fixed};
use crate::grid::{
    gather, lemma_push_contains, spec_adjacent, spec_bucket_index, spec_disjoint, spec_near,
    spec_on_grid, SpatialGrid,
};
use crate::random::draw_between;
use rand::rngs::ThreadRng;
use vstd::prelude::*;

verus! {

/// `start` and each of `values`, added in order.
pub open spec fn spec_fed(start: Fixed, values: Seq<Fixed>) -> Fixed
    decreases values.len(),
{
    if values.len() == 0 {
        start
    } else {
        spec_plus(spec_fed(start, values.drop_last()), values.last())
    }
}

/// What the food items `ids` are worth, in order.
pub open spec fn spec_values_of(food: Map<u64, Food>, ids: Seq<u64>) -> Seq<Fixed> {
    Seq::new(ids.len(), |i: int| food[ids[i]].2)
}

impl CellManager {
    /// Whether a force sent from the point (`x`, `y`) gets to the cell
    /// `target`: the cell lies in a bucket that touches the bucket of the
    /// point, and within the range of forces.
    pub open spec fn spec_in_force_range(&self, x: Fixed, y: Fixed, target: u64) -> bool {
        &&& self.cells@.contains_key(target)
        &&& spec_adjacent(
            spec_bucket_index(x, y),
            spec_bucket_index(self.cells@[target].x, self.cells@[target].y),
        )
        &&& spec_distance_sq(self.cells@[target].x, self.cells@[target].y, x, y)
            < FORCE_MAX_RANGE_SQ
    }

    /// Whether the force of the food item `source` gets to the cell `target`.
    pub open spec fn spec_food_reaches(&self, source: u64, target: u64) -> bool {
        self.food@.contains_key(source) && self.spec_in_force_range(
            self.food@[source].0,
            self.food@[source].1,
            target,
        )
    }

    /// Whether the emissions of the cell `source` get to the cell `target`.
    pub open spec fn spec_cell_reaches(&self, source: u64, target: u64) -> bool {
        source != target && self.cells@.contains_key(source) && self.spec_in_force_range(
            self.cells@[source].x,
            self.cells@[source].y,
            target,
        )
    }

    /// The cell `target` once the first `upto` of the food items `food_keys`
    /// have sent their force: each that gets to the cell has sent it the
    /// food force from where it lies, with its value for magnitude.
    pub open spec fn spec_after_food(&self, food_keys: Seq<u64>, upto: nat, target: u64) -> CellView
        decreases upto,
    {
        if upto == 0 {
            self.cells@[target]@
        } else {
            let before = self.spec_after_food(food_keys, (upto - 1) as nat, target);
            let source = food_keys[upto - 1];
            if self.spec_food_reaches(source, target) {
                spec_add_forces(
                    before,
                    seq![(FOOD_FORCE, self.food@[source].2)],
                    self.food@[source].0,
                    self.food@[source].1,
                )
            } else {
                before
            }
        }
    }

    /// The cell that is `start` once the first `upto` of the cells
    /// `cell_keys` have sent their emissions to the cell `target`: each that
    /// is there and gets to the cell has sent them from where it lies.
    pub open spec fn spec_after_cells(
        &self,
        start: CellView,
        cell_keys: Seq<u64>,
        upto: nat,
        target: u64,
    ) -> CellView
        decreases upto,
    {
        if upto == 0 {
            start
        } else {
            let before = self.spec_after_cells(start, cell_keys, (upto - 1) as nat, target);
            let source = cell_keys[upto - 1];
            if self.spec_cell_reaches(source, target) {
                spec_add_forces(
                    before,
                    self.cells@[source].emissions@,
                    self.cells@[source].x,
                    self.cells@[source].y,
                )
            } else {
                before
            }
        }
    }

    /// Whether nothing gets to the cell `target`: no force of a food item,
    /// and no emission of a cell that `cell_keys` lists.
    pub open spec fn spec_out_of_reach(&self, cell_keys: Seq<u64>, target: u64) -> bool {
        &&& forall|source: u64| !#[trigger] self.spec_food_reaches(source, target)
        &&& forall|source: u64|
            cell_keys.contains(source) ==> !#[trigger] self.spec_cell_reaches(source, target)
    }

    /// Under a sound world, the cells that the grid lists near the bucket of
    /// a point are the cells that lie in a bucket touching it.
    pub proof fn lemma_near_cells(&self, x: Fixed, y: Fixed, id: u64)
        requires
            self.wf(),
            spec_on_grid(x),
            spec_on_grid(y),
        ensures
            spec_near(self.grid.cells(), spec_bucket_index(x, y), id) <==> self.cells@.contains_key(
                id,
            ) && spec_adjacent(
                spec_bucket_index(x, y),
                spec_bucket_index(self.cells@[id].x, self.cells@[id].y),
            ),
    {
        let index = spec_bucket_index(x, y);
        if spec_near(self.grid.cells(), index, id) {
            let b = choose|b: int| #[trigger]
                spec_adjacent(index, b) && self.grid.cells()[b].contains(id);
            assert(self.grid.cells()[b].contains(id));
        }
        if self.cells@.contains_key(id) && spec_adjacent(
            index,
            spec_bucket_index(self.cells@[id].x, self.cells@[id].y),
        ) {
            let b = spec_bucket_index(self.cells@[id].x, self.cells@[id].y);
            assert(self.grid.cells()[b].contains(id));
        }
    }

    /// Whether the cell `eater` can eat the food item `item`: the item lies
    /// in a bucket that touches the bucket of the cell, and no farther off
    /// than the size of the cell lets it reach.
    pub open spec fn spec_can_eat(&self, eater: u64, item: u64) -> bool {
        &&& self.cells@.contains_key(eater)
        &&& self.food@.contains_key(item)
        &&& spec_adjacent(
            spec_bucket_index(self.cells@[eater].x, self.cells@[eater].y),
            spec_bucket_index(self.food@[item].0, self.food@[item].1),
        )
        &&& spec_distance_sq(
            self.cells@[eater].x,
            self.cells@[eater].y,
            self.food@[item].0,
            self.food@[item].1,
        ) <= self.cells@[eater].size
    }

    /// Under a sound world, the food items that the grid lists near the
    /// bucket of a point are the items that lie in a bucket touching it.
    pub proof fn lemma_near_food(&self, x: Fixed, y: Fixed, id: u64)
        requires
            self.wf(),
            spec_on_grid(x),
            spec_on_grid(y),
        ensures
            spec_near(self.grid.food(), spec_bucket_index(x, y), id) <==> self.food@.contains_key(
                id,
            ) && spec_adjacent(
                spec_bucket_index(x, y),
                spec_bucket_index(self.food@[id].0, self.food@[id].1),
            ),
    {
        let index = spec_bucket_index(x, y);
        if spec_near(self.grid.food(), index, id) {
            let b = choose|b: int| #[trigger]
                spec_adjacent(index, b) && self.grid.food()[b].contains(id);
            assert(self.grid.food()[b].contains(id));
        }
        if self.food@.contains_key(id) && spec_adjacent(
            index,
            spec_bucket_index(self.food@[id].0, self.food@[id].1),
        ) {
            let b = spec_bucket_index(self.food@[id].0, self.food@[id].1);
            assert(self.grid.food()[b].contains(id));
        }
    }

    /// Under a sound world, no cell and no food item lies in two buckets.
    pub proof fn lemma_buckets_disjoint(&self)
        requires
            self.wf(),
        ensures
            spec_disjoint(self.grid.cells()),
            spec_disjoint(self.grid.food()),
    {
    }

    /// Whether the food item `item` is what the cell `dead` leaves behind:
    /// it lies where the cell lay and is worth
    /// [`DEFAULT_CELL_FOOD_VALUE`].
    pub open spec fn spec_is_deposit_of(cells: Map<u64, Cell>, dead: u64, item: Food) -> bool {
        &&& cells.contains_key(dead)
        &&& spec_is_dead(cells[dead]@)
        &&& item == (cells[dead].x, cells[dead].y, DEFAULT_CELL_FOOD_VALUE)
    }

    /// Whether the cell `dead` has left a food item behind: one that is in
    /// `food` and was not in `food_before`.
    pub open spec fn spec_has_deposit(
        food_before: Map<u64, Food>,
        food: Map<u64, Food>,
        cells: Map<u64, Cell>,
        dead: u64,
    ) -> bool {
        exists|item: u64|
            !food_before.contains_key(item) && food.contains_key(item)
                && #[trigger] CellManager::spec_is_deposit_of(cells, dead, food[item])
    }

    /// Whether `child` can be what the cell `parent` of `cells` makes: the
    /// parent has the food to replicate, and the child is a child of it.
    pub open spec fn spec_born_of(cells: Map<u64, Cell>, parent: u64, child: Cell) -> bool {
        &&& cells.contains_key(parent)
        &&& spec_can_replicate(cells[parent]@)
        &&& spec_is_child(cells[parent]@, child.id, child@)
    }

    /// Whether the `k`-th of the cells `cell_keys` dies in the fourth phase
    /// of a tick: it is there, it is dead, and it is not listed before.
    pub open spec fn spec_dies_at(&self, cell_keys: Seq<u64>, k: int) -> bool {
        &&& self.cells@.contains_key(cell_keys[k])
        &&& spec_is_dead(self.cells@[cell_keys[k]]@)
        &&& !cell_keys.take(k).contains(cell_keys[k])
    }

    /// How many of the first `upto` of the cells `cell_keys` leave food
    /// behind: those that die while the world holds less than [`MAX_FOOD`]
    /// food items, what was left behind before them counted in, and while
    /// an identifier is left for the item.
    pub open spec fn spec_deposits(&self, cell_keys: Seq<u64>, upto: nat) -> nat
        decreases upto,
    {
        if upto == 0 {
            0
        } else {
            let so_far = self.spec_deposits(cell_keys, (upto - 1) as nat);
            if self.spec_dies_at(cell_keys, upto - 1) && self.food@.len() + so_far < MAX_FOOD
                && self.food_id_manager.spec_available() > so_far {
                so_far + 1
            } else {
                so_far
            }
        }
    }

    /// Whether the `k`-th of the cells `cell_keys` leaves food behind.
    pub open spec fn spec_leaves_deposit(&self, cell_keys: Seq<u64>, k: int) -> bool {
        &&& self.spec_dies_at(cell_keys, k)
        &&& self.food@.len() + self.spec_deposits(cell_keys, k as nat) < MAX_FOOD
        &&& self.food_id_manager.spec_available() > self.spec_deposits(cell_keys, k as nat)
    }

    /// How many of the first `upto` of the cells `cell_keys` replicate:
    /// those that have the food for it while the world holds less than
    /// [`MAX_CELLS`] cells, the children born before counted in, and while
    /// an identifier is left for the child.
    pub open spec fn spec_births(&self, cell_keys: Seq<u64>, upto: nat) -> nat
        decreases upto,
    {
        if upto == 0 {
            0
        } else {
            let so_far = self.spec_births(cell_keys, (upto - 1) as nat);
            if spec_can_replicate(self.cells@[cell_keys[upto - 1]]@) && self.cells@.len() + so_far
                < MAX_CELLS && self.cell_id_manager.spec_available() > so_far {
                so_far + 1
            } else {
                so_far
            }
        }
    }

    /// Whether the `k`-th of the cells `cell_keys` replicates.
    pub open spec fn spec_gives_birth(&self, cell_keys: Seq<u64>, k: int) -> bool {
        &&& spec_can_replicate(self.cells@[cell_keys[k]]@)
        &&& self.cells@.len() + self.spec_births(cell_keys, k as nat) < MAX_CELLS
        &&& self.cell_id_manager.spec_available() > self.spec_births(cell_keys, k as nat)
    }

    /// Lets the cell `target`, if there is one, receive `forces` from the
    /// point (`x`, `y`): provided that it lies within the range of forces.
    pub fn reach(&mut self, target: u64, forces: &[(u16, Fixed)], x: Fixed, y: Fixed)
        requires
            old(self).wf(),
        ensures
            final(self).wf(),
            final(self).food == old(self).food,
            final(self).grid == old(self).grid,
            final(self).cell_id_manager == old(self).cell_id_manager,
            final(self).food_id_manager == old(self).food_id_manager,
            final(self).cells@ == if old(self).cells@.contains_key(target) && spec_distance_sq(
                old(self).cells@[target].x,
                old(self).cells@[target].y,
                x,
                y,
            ) < FORCE_MAX_RANGE_SQ {
                old(self).cells@.insert(target, final(self).cells@[target])
            } else {
                old(self).cells@
            },
            old(self).cells@.contains_key(target) && spec_distance_sq(
                old(self).cells@[target].x,
                old(self).cells@[target].y,
                x,
                y,
            ) < FORCE_MAX_RANGE_SQ ==> final(self).cells@[target]@ == crate::cell::spec_add_forces(
                old(self).cells@[target]@,
                forces@,
                x,
                y,
            ),
    {
        let within = match map_get(&self.cells, &target) {
            Some(cell) => distance_sq(cell.x, cell.y, x, y) < FORCE_MAX_RANGE_SQ,
            None => false,
        };
        if within {
            let cell = map_get_mut(&mut self.cells, &target);
            cell.add_forces(forces, x, y);
            proof {
                lemma_add_forces_frame(old(self).cells@[target]@, forces@, x, y);
                assert(self.cells@.dom() =~= old(self).cells@.dom());
                assert(self.cells_indexed());
            }
        }
    }

    /// The first phase of a tick. Each food item sends the food force, with
    /// its value for magnitude, to the cells in the buckets that touch its
    /// own and within the range of forces; each cell that `cell_keys` lists
    /// sends its emissions to the other cells there.
    ///
    /// Nothing changes but the food reserve, the next position and the
    /// forces received of cells.
    pub fn emit_forces(&mut self, cell_keys: &Vec<u64>)
        requires
            old(self).wf(),
        ensures
            spec_emitted(*old(self), cell_keys@, *final(self)),
    {
        let food_keys = map_keys(&self.food);
        let mut k: usize = 0;
        while k < food_keys.len()
            invariant
                k <= food_keys@.len(),
                old(self).wf(),
                self.wf(),
                self.food == old(self).food,
                self.grid == old(self).grid,
                self.cell_id_manager == old(self).cell_id_manager,
                self.food_id_manager == old(self).food_id_manager,
                self.cells@.dom() == old(self).cells@.dom(),
                forall|id: u64| #[trigger]
                    old(self).cells@.contains_key(id) ==> spec_same_but_forces(
                        old(self).cells@[id]@,
                        self.cells@[id]@,
                    ),
                forall|id: u64|
                    old(self).cells@.contains_key(id) && #[trigger] old(self).spec_out_of_reach(
                        cell_keys@,
                        id,
                    ) ==> self.cells@[id] == old(self).cells@[id],
                forall|id: u64| #[trigger]
                    old(self).cells@.contains_key(id) ==> self.cells@[id]@
                        == old(self).spec_after_food(food_keys@, k as nat, id),
            decreases food_keys@.len() - k,
        {
            let source = match map_get(&self.food, &food_keys[k]) {
                Some(item) => Some(*item),
                None => None,
            };
            if let Some((x, y, value)) = source {
                let mut forces: Vec<(u16, Fixed)> = Vec::new();
                forces.push((FOOD_FORCE, value));
                let index = SpatialGrid::get_cell_grid_index(x, y);
                proof {
                    self.grid.lemma_listed_on_grid(index as int);
                    self.lemma_buckets_disjoint();
                    assert(forces@ =~= seq![(FOOD_FORCE, value)]);
                }
                let targets = gather(&self.grid.grid, &self.grid.relation[index], None);
                let ghost before = *self;
                self.send(&targets, forces.as_slice(), x, y);
                proof {
                    assert forall|id: u64|
                        old(self).cells@.contains_key(id) implies (targets@.contains(id)
                        && spec_distance_sq(before.cells@[id].x, before.cells@[id].y, x, y)
                        < FORCE_MAX_RANGE_SQ) == old(self).spec_food_reaches(
                        food_keys@[k as int],
                        id,
                    ) by {
                        before.grid.lemma_listed_is_near(before.grid.cells(), index as int, id);
                        before.lemma_near_cells(x, y, id);
                    }
                    assert forall|id: u64|
                        old(self).cells@.contains_key(id) && #[trigger] old(self).spec_out_of_reach(
                            cell_keys@,
                            id,
                        ) implies self.cells@[id] == old(self).cells@[id] by {
                        assert(!old(self).spec_food_reaches(food_keys@[k as int], id));
                    }
                    assert forall|id: u64| #[trigger]
                        old(self).cells@.contains_key(id) implies spec_same_but_forces(
                        old(self).cells@[id]@,
                        self.cells@[id]@,
                    ) by {
                        lemma_add_forces_frame(before.cells@[id]@, forces@, x, y);
                    }
                }
            }
            k += 1;
        }
        let ghost fed = *self;
        let mut k: usize = 0;
        while k < cell_keys.len()
            invariant
                k <= cell_keys@.len(),
                old(self).wf(),
                self.wf(),
                self.food == old(self).food,
                self.grid == old(self).grid,
                self.cell_id_manager == old(self).cell_id_manager,
                self.food_id_manager == old(self).food_id_manager,
                self.cells@.dom() == old(self).cells@.dom(),
                forall|id: u64| #[trigger]
                    old(self).cells@.contains_key(id) ==> spec_same_but_forces(
                        old(self).cells@[id]@,
                        self.cells@[id]@,
                    ),
                forall|id: u64|
                    old(self).cells@.contains_key(id) && #[trigger] old(self).spec_out_of_reach(
                        cell_keys@,
                        id,
                    ) ==> self.cells@[id] == old(self).cells@[id],
                forall|id: u64| #[trigger]
                    old(self).cells@.contains_key(id) ==> self.cells@[id]@
                        == old(self).spec_after_cells(
                        old(self).spec_after_food(food_keys@, food_keys@.len(), id),
                        cell_keys@,
                        k as nat,
                        id,
                    ),
            decreases cell_keys@.len() - k,
        {
            let id = cell_keys[k];
            let source = match map_get(&self.cells, &id) {
                Some(cell) => Some((cell.x, cell.y, cell.get_emissions())),
                None => None,
            };
            if let Some((x, y, emissions)) = source {
                proof {
                    self.lemma_buckets_disjoint();
                }
                let targets = self.grid.get_cell_neighbors(x, y, id);
                let ghost before = *self;
                self.send(&targets, emissions.as_slice(), x, y);
                proof {
                    assert(cell_keys@.contains(id));
                    assert(emissions@ == old(self).cells@[id].emissions@);
                    assert forall|target: u64|
                        old(self).cells@.contains_key(target) implies (targets@.contains(target)
                        && spec_distance_sq(
                        before.cells@[target].x,
                        before.cells@[target].y,
                        x,
                        y,
                    ) < FORCE_MAX_RANGE_SQ) == old(self).spec_cell_reaches(id, target) by {
                        before.lemma_near_cells(x, y, target);
                    }
                    assert forall|target: u64|
                        old(self).cells@.contains_key(target)
                            && #[trigger] old(self).spec_out_of_reach(cell_keys@, target)
                            implies self.cells@[target] == old(self).cells@[target] by {
                        assert(!old(self).spec_cell_reaches(id, target));
                    }
                    assert forall|target: u64| #[trigger]
                        old(self).cells@.contains_key(target) implies spec_same_but_forces(
                        old(self).cells@[target]@,
                        self.cells@[target]@,
                    ) by {
                        lemma_add_forces_frame(before.cells@[target]@, emissions@, x, y);
                    }
                }
            }
            k += 1;
        }
        proof {
            assert(spec_sent_in_order(*old(self), food_keys@, cell_keys@, *self));
        }
    }

    /// Lets each of the cells `targets` that is there and within the range
    /// of forces receive `forces` from the point (`x`, `y`).
    pub fn send(&mut self, targets: &Vec<u64>, forces: &[(u16, Fixed)], x: Fixed, y: Fixed)
        requires
            old(self).wf(),
            targets@.no_duplicates(),
        ensures
            final(self).wf(),
            forall|id: u64| #[trigger]
                old(self).cells@.contains_key(id) ==> final(self).cells@[id]@
                    == if targets@.contains(
                    id,
                ) && spec_distance_sq(old(self).cells@[id].x, old(self).cells@[id].y, x, y)
                    < FORCE_MAX_RANGE_SQ {
                    spec_add_forces(old(self).cells@[id]@, forces@, x, y)
                } else {
                    old(self).cells@[id]@
                },
            final(self).food == old(self).food,
            final(self).grid == old(self).grid,
            final(self).cell_id_manager == old(self).cell_id_manager,
            final(self).food_id_manager == old(self).food_id_manager,
            final(self).cells@.dom() == old(self).cells@.dom(),
            forall|id: u64| #[trigger]
                old(self).cells@.contains_key(id) ==> spec_same_but_forces(
                    old(self).cells@[id]@,
                    final(self).cells@[id]@,
                ),
            forall|id: u64| #[trigger]
                old(self).cells@.contains_key(id) && !(targets@.contains(id) && spec_distance_sq(
                    old(self).cells@[id].x,
                    old(self).cells@[id].y,
                    x,
                    y,
                ) < FORCE_MAX_RANGE_SQ) ==> final(self).cells@[id] == old(self).cells@[id],
    {
        let mut t: usize = 0;
        while t < targets.len()
            invariant
                t <= targets@.len(),
                targets@.no_duplicates(),
                forall|id: u64| #[trigger]
                    old(self).cells@.contains_key(id) ==> self.cells@[id]@ == if targets@.take(
                        t as int,
                    ).contains(id) && spec_distance_sq(
                        old(self).cells@[id].x,
                        old(self).cells@[id].y,
                        x,
                        y,
                    ) < FORCE_MAX_RANGE_SQ {
                        spec_add_forces(old(self).cells@[id]@, forces@, x, y)
                    } else {
                        old(self).cells@[id]@
                    },
                self.wf(),
                self.food == old(self).food,
                self.grid == old(self).grid,
                self.cell_id_manager == old(self).cell_id_manager,
                self.food_id_manager == old(self).food_id_manager,
                self.cells@.dom() == old(self).cells@.dom(),
                forall|id: u64| #[trigger]
                    old(self).cells@.contains_key(id) ==> spec_same_but_forces(
                        old(self).cells@[id]@,
                        self.cells@[id]@,
                    ),
                forall|id: u64| #[trigger]
                    old(self).cells@.contains_key(id) && !(targets@.contains(id)
                        && spec_distance_sq(
                        old(self).cells@[id].x,
                        old(self).cells@[id].y,
                        x,
                        y,
                    ) < FORCE_MAX_RANGE_SQ) ==> self.cells@[id] == old(self).cells@[id],
            decreases targets@.len() - t,
        {
            let ghost before = self.cells@;
            let target = targets[t];
            assert(targets@.contains(target));
            proof {
                let seen = targets@.take(t as int);
                assert(!seen.contains(target)) by {
                    if seen.contains(target) {
                        let j = choose|j: int| 0 <= j < seen.len() && seen[j] == target;
                        assert(targets@[j] == targets@[t as int]);
                    }
                }
                assert(targets@.take(t + 1) =~= seen.push(target));
                assert forall|other: u64|
                    targets@.take(t + 1).contains(other) <==> seen.contains(other) || other
                        == target by {
                    lemma_push_contains(seen, target, other);
                }
            }
            self.reach(target, forces, x, y);
            proof {
                if before.contains_key(target) {
                    lemma_add_forces_frame(before[target]@, forces@, x, y);
                }
                assert(self.cells@.dom() =~= before.dom());
            }
            t += 1;
        }
        proof {
            assert(targets@.take(t as int) =~= targets@);
        }
    }

    /// Lets the cell `id`, if there is one, live a tick of its own, and
    /// moves it on the grid to where it has gone.
    pub fn step_cell(&mut self, id: u64)
        requires
            old(self).wf(),
        ensures
            final(self).wf(),
            final(self).food == old(self).food,
            final(self).grid.food_grid == old(self).grid.food_grid,
            final(self).cell_id_manager == old(self).cell_id_manager,
            final(self).food_id_manager == old(self).food_id_manager,
            final(self).cells@ == if old(self).cells@.contains_key(id) {
                old(self).cells@.insert(id, final(self).cells@[id])
            } else {
                old(self).cells@
            },
            old(self).cells@.contains_key(id) ==> final(self).cells@[id]@ == spec_updated(
                old(self).cells@[id]@,
            ),
    {
        let present = match map_get(&self.cells, &id) {
            Some(_) => true,
            None => false,
        };
        if present {
            let cell = map_get_mut(&mut self.cells, &id);
            let (prev_x, prev_y) = cell.update();
            let (x, y) = (cell.x, cell.y);
            self.grid.move_cell(prev_x, prev_y, x, y, id);
            proof {
                assert(self.cells@.dom() =~= old(self).cells@.dom());
                let was = spec_bucket_index(prev_x, prev_y);
                let now = spec_bucket_index(x, y);
                assert(old(self).grid.cells()[was].contains(id));
                assert forall|b: int, other: u64| 0 <= b < BUCKET_COUNT implies (
                #[trigger] self.grid.cells()[b].contains(other) <==> self.cells@.contains_key(other)
                    && spec_bucket_index(self.cells@[other].x, self.cells@[other].y) == b) by {
                    assert(old(self).grid.cells()[b].contains(other)
                        <==> old(self).cells@.contains_key(other) && spec_bucket_index(
                        old(self).cells@[other].x,
                        old(self).cells@[other].y,
                    ) == b);
                }
                assert(self.cells_indexed());
                assert(self.grid.food() == old(self).grid.food());
                assert(self.food_indexed());
            }
        }
    }

    /// The second phase of a tick. Each cell that `cell_keys` lists goes to
    /// its next position, where that lies in the world, pays for the tick
    /// and ages; the grid follows.
    pub fn integrate(&mut self, cell_keys: &Vec<u64>)
        requires
            old(self).wf(),
            cell_keys@.no_duplicates(),
        ensures
            spec_integrated(*old(self), cell_keys@, *final(self)),
    {
        let mut k: usize = 0;
        while k < cell_keys.len()
            invariant
                k <= cell_keys@.len(),
                cell_keys@.no_duplicates(),
                self.wf(),
                self.food == old(self).food,
                self.grid.food_grid == old(self).grid.food_grid,
                self.cell_id_manager == old(self).cell_id_manager,
                self.food_id_manager == old(self).food_id_manager,
                self.cells@.dom() == old(self).cells@.dom(),
                forall|id: u64| #[trigger]
                    old(self).cells@.contains_key(id) ==> self.cells@[id]@ == if cell_keys@.take(
                        k as int,
                    ).contains(id) {
                        spec_updated(old(self).cells@[id]@)
                    } else {
                        old(self).cells@[id]@
                    },
            decreases cell_keys@.len() - k,
        {
            let id = cell_keys[k];
            let ghost before = self.cells@;
            proof {
                let seen = cell_keys@.take(k as int);
                assert(!seen.contains(id)) by {
                    if seen.contains(id) {
                        let j = choose|j: int| 0 <= j < seen.len() && seen[j] == id;
                        assert(cell_keys@[j] == cell_keys@[k as int]);
                    }
                }
                assert(cell_keys@.take(k + 1) =~= seen.push(id));
                assert forall|other: u64| cell_keys@.take(k + 1).contains(other) <==> seen.contains(
                    other,
                ) || other == id by {
                    crate::grid::lemma_push_contains(seen, id, other);
                }
            }
            self.step_cell(id);
            proof {
                assert(self.cells@.dom() =~= before.dom());
            }
            k += 1;
        }
        proof {
            assert(cell_keys@.take(k as int) =~= cell_keys@);
        }
    }

    /// Lets the cell `cell_id`, if there is one, eat every food item that it
    /// can eat. What it eats is added to its food reserve, item by item, and
    /// leaves the world.
    pub fn attempt_to_eat(&mut self, cell_id: u64)
        requires
            old(self).wf(),
        ensures
            spec_ate(*old(self), cell_id, *final(self)),
    {
        let here = match map_get(&self.cells, &cell_id) {
            Some(cell) => Some((cell.x, cell.y, cell.size)),
            None => None,
        };
        if let Some((x, y, size)) = here {
            proof {
                self.lemma_buckets_disjoint();
            }
            let neighbors = self.grid.get_food_neighbors(x, y);
            let ghost mut order: Seq<u64> = Seq::empty();
            let mut k: usize = 0;
            while k < neighbors.len()
                invariant
                    k <= neighbors@.len(),
                    neighbors@.no_duplicates(),
                    old(self).wf(),
                    old(self).cells@.contains_key(cell_id),
                    x == old(self).cells@[cell_id].x,
                    y == old(self).cells@[cell_id].y,
                    size == old(self).cells@[cell_id].size,
                    forall|item: u64|
                        neighbors@.contains(item) <==> spec_near(
                            old(self).grid.food(),
                            spec_bucket_index(x, y),
                            item,
                        ),
                    self.wf(),
                    self.cell_id_manager == old(self).cell_id_manager,
                    self.cells@.dom() == old(self).cells@.dom(),
                    forall|other: u64| #[trigger]
                        old(self).cells@.contains_key(other) && other != cell_id
                            ==> self.cells@[other] == old(self).cells@[other],
                    self.cells@[cell_id] == (Cell {
                        food: self.cells@[cell_id].food,
                        ..old(self).cells@[cell_id]
                    }),
                    forall|item: u64| #[trigger]
                        self.food@.contains_key(item) <==> old(self).food@.contains_key(item) && !(
                        neighbors@.take(k as int).contains(item) && old(self).spec_can_eat(
                            cell_id,
                            item,
                        )),
                    forall|item: u64| #[trigger]
                        self.food@.contains_key(item) ==> self.food@[item] == old(self).food@[item],
                    forall|item: u64|
                        neighbors@.take(k as int).contains(item) && old(self).spec_can_eat(
                            cell_id,
                            item,
                        ) ==> !#[trigger] self.food_id_manager.spec_issued().contains(item),
                    forall|item: u64|
                        !old(self).food_id_manager.spec_issued().contains(item)
                            ==> !#[trigger] self.food_id_manager.spec_issued().contains(item),
                    order.no_duplicates(),
                    forall|item: u64|
                        order.contains(item) <==> neighbors@.take(k as int).contains(item)
                            && old(self).spec_can_eat(cell_id, item),
                    self.cells@[cell_id].food == spec_fed(
                        old(self).cells@[cell_id].food,
                        spec_values_of(old(self).food@, order),
                    ),
                decreases neighbors@.len() - k,
            {
                let food_id = neighbors[k];
                let ghost seen = neighbors@.take(k as int);
                proof {
                    assert(neighbors@.contains(food_id));
                    old(self).lemma_near_food(x, y, food_id);
                    assert(!seen.contains(food_id)) by {
                        if seen.contains(food_id) {
                            let j = choose|j: int| 0 <= j < seen.len() && seen[j] == food_id;
                            assert(neighbors@[j] == neighbors@[k as int]);
                        }
                    }
                    assert(neighbors@.take(k + 1) =~= seen.push(food_id));
                    assert forall|item: u64|
                        neighbors@.take(k + 1).contains(item) <==> seen.contains(item) || item
                            == food_id by {
                        lemma_push_contains(seen, food_id, item);
                    }
                }
                let found = match map_get(&self.food, &food_id) {
                    Some(item) => Some(*item),
                    None => None,
                };
                if let Some((food_x, food_y, value)) = found {
                    if distance_sq(x, y, food_x, food_y) <= size {
                        let ghost eaten = order;
                        let ghost reserve = self.cells@[cell_id].food;
                        let cell = map_get_mut(&mut self.cells, &cell_id);
                        cell.add_food(value);
                        proof {
                            assert(self.cells@.dom() =~= old(self).cells@.dom());
                            assert(self.cells_indexed());
                        }
                        let ghost ids_before = self.food_id_manager;
                        self.remove_food(food_id);
                        proof {
                            lemma_given_back(ids_before, self.food_id_manager, food_id);
                            order = eaten.push(food_id);
                            assert(!eaten.contains(food_id));
                            assert forall|i: int, j: int|
                                0 <= i < order.len() && 0 <= j < order.len() && i
                                    != j implies order[i] != order[j] by {
                                if i < eaten.len() {
                                    assert(eaten.contains(eaten[i]));
                                }
                                if j < eaten.len() {
                                    assert(eaten.contains(eaten[j]));
                                }
                            }
                            assert forall|item: u64|
                                order.contains(item) <==> eaten.contains(item) || item
                                    == food_id by {
                                lemma_push_contains(eaten, food_id, item);
                            }
                            let values = spec_values_of(old(self).food@, order);
                            assert(values.drop_last() =~= spec_values_of(old(self).food@, eaten));
                            assert(values.last() == value);
                        }
                    }
                }
                k += 1;
            }
            proof {
                assert(neighbors@.take(k as int) =~= neighbors@);
                assert forall|item: u64| #[trigger]
                    self.food@.contains_key(item) <==> old(self).food@.contains_key(item)
                        && !old(self).spec_can_eat(cell_id, item) by {
                    old(self).lemma_near_food(x, y, item);
                }
                assert forall|item: u64|
                    order.contains(item) <==> old(self).spec_can_eat(cell_id, item) by {
                    old(self).lemma_near_food(x, y, item);
                }
                assert forall|item: u64| old(self).spec_can_eat(cell_id, item)
                    implies !#[trigger] self.food_id_manager.spec_issued().contains(
                    item,
                ) by {
                    old(self).lemma_near_food(x, y, item);
                }
            }
        }
    }

    /// The third phase of a tick. Each cell that `cell_keys` lists eats
    /// every food item that it can eat and that no cell before it in the
    /// list has eaten.
    ///
    /// Afterwards no food item is left that a listed cell can eat.
    pub fn feed(&mut self, cell_keys: &Vec<u64>)
        requires
            old(self).wf(),
        ensures
            spec_fed_all(*old(self), cell_keys@, *final(self)),
    {
        let ghost mut stations: Seq<CellManager> = seq![*self];
        let mut k: usize = 0;
        while k < cell_keys.len()
            invariant
                k <= cell_keys@.len(),
                stations.len() == k + 1,
                stations[0] == *old(self),
                stations[k as int] == *self,
                forall|j: int|
                    0 <= j < k ==> spec_ate(#[trigger] stations[j], cell_keys@[j], stations[j + 1]),
                old(self).wf(),
                self.wf(),
                self.cell_id_manager == old(self).cell_id_manager,
                self.cells@.dom() == old(self).cells@.dom(),
                forall|id: u64| #[trigger]
                    old(self).cells@.contains_key(id) ==> self.cells@[id] == (Cell {
                        food: self.cells@[id].food,
                        ..old(self).cells@[id]
                    }),
                forall|id: u64| #[trigger]
                    old(self).cells@.contains_key(id) && !cell_keys@.contains(id)
                        ==> self.cells@[id] == old(self).cells@[id],
                forall|item: u64| #[trigger]
                    self.food@.contains_key(item) ==> old(self).food@.contains_key(item)
                        && self.food@[item] == old(self).food@[item],
                forall|item: u64| #[trigger]
                    old(self).food@.contains_key(item) && !self.food@.contains_key(item)
                        ==> exists|eater: u64|
                        cell_keys@.contains(eater) && #[trigger] old(self).spec_can_eat(
                            eater,
                            item,
                        ),
                forall|j: int, item: u64|
                    0 <= j < k ==> !#[trigger] self.spec_can_eat(cell_keys@[j], item),
                forall|item: u64|
                    old(self).food@.contains_key(item) && !self.food@.contains_key(item)
                        ==> !#[trigger] self.food_id_manager.spec_issued().contains(item),
            decreases cell_keys@.len() - k,
        {
            let id = cell_keys[k];
            let ghost before = *self;
            assert(cell_keys@.contains(id));
            self.attempt_to_eat(id);
            proof {
                let so_far = stations;
                stations = so_far.push(*self);
                assert forall|j: int| 0 <= j < k + 1 implies spec_ate(
                    #[trigger] stations[j],
                    cell_keys@[j],
                    stations[j + 1],
                ) by {
                    if j < k {
                        assert(stations[j] == so_far[j]);
                        assert(stations[j + 1] == so_far[j + 1]);
                    }
                }
                assert forall|j: int, item: u64| 0 <= j < k + 1
                    implies !#[trigger] self.spec_can_eat(
                    cell_keys@[j],
                    item,
                ) by {
                    if self.spec_can_eat(cell_keys@[j], item) {
                        assert(self.food@.contains_key(item));
                        assert(before.food@.contains_key(item));
                        assert(before.spec_can_eat(cell_keys@[j], item));
                    }
                }
                assert forall|item: u64| #[trigger]
                    old(self).food@.contains_key(item) && !self.food@.contains_key(
                        item,
                    ) implies exists|eater: u64|
                    cell_keys@.contains(eater)
                        && #[trigger] old(self).spec_can_eat(eater, item) by {
                    if before.food@.contains_key(item) {
                        assert(before.spec_can_eat(id, item));
                        assert(old(self).spec_can_eat(id, item));
                    }
                }
            }
            k += 1;
        }
        proof {
            assert forall|eater: u64, item: u64| cell_keys@.contains(eater)
                implies !#[trigger] self.spec_can_eat(
                eater,
                item,
            ) by {
                let j = choose|j: int| 0 <= j < cell_keys@.len() && cell_keys@[j] == eater;
                assert(!self.spec_can_eat(cell_keys@[j], item));
            }
            assert(spec_ate_in_turn(*old(self), cell_keys@, stations, *self));
        }
    }

    /// The fourth phase of a tick. Each cell that `cell_keys` lists and that
    /// is dead leaves the world, and leaves a food item where it lay: unless
    /// the world holds [`MAX_FOOD`] items by then, or no identifier is left
    /// for the item.
    pub fn cull(&mut self, cell_keys: &Vec<u64>)
        requires
            old(self).wf(),
        ensures
            spec_culled(*old(self), cell_keys@, *final(self)),
    {
        let ghost roomy = old(self).food@.len() + cell_keys@.len() <= MAX_FOOD
            && old(self).food_id_manager.spec_available() >= cell_keys@.len();
        let mut k: usize = 0;
        while k < cell_keys.len()
            invariant
                k <= cell_keys@.len(),
                old(self).wf(),
                self.wf(),
                roomy == (old(self).food@.len() + cell_keys@.len() <= MAX_FOOD
                    && old(self).food_id_manager.spec_available() >= cell_keys@.len()),
                forall|id: u64| #[trigger]
                    self.cells@.contains_key(id) <==> old(self).cells@.contains_key(id) && !(
                    cell_keys@.take(k as int).contains(id) && spec_is_dead(old(self).cells@[id]@)),
                forall|id: u64| #[trigger]
                    self.cells@.contains_key(id) ==> self.cells@[id] == old(self).cells@[id],
                forall|item: u64| #[trigger]
                    old(self).food@.contains_key(item) ==> self.food@.contains_key(item)
                        && self.food@[item] == old(self).food@[item],
                forall|item: u64| #[trigger]
                    self.food@.contains_key(item) && !old(self).food@.contains_key(item)
                        ==> exists|dead: u64|
                        cell_keys@.contains(dead) && #[trigger] CellManager::spec_is_deposit_of(
                            old(self).cells@,
                            dead,
                            self.food@[item],
                        ),
                forall|id: u64|
                    old(self).cells@.contains_key(id) && cell_keys@.take(k as int).contains(id)
                        && spec_is_dead(old(self).cells@[id]@)
                        ==> !#[trigger] self.cell_id_manager.spec_issued().contains(id),
                self.food@.len() == old(self).food@.len() + old(self).spec_deposits(
                    cell_keys@,
                    k as nat,
                ),
                self.food_id_manager.spec_available() == old(self).food_id_manager.spec_available()
                    - old(self).spec_deposits(cell_keys@, k as nat),
                old(self).spec_deposits(cell_keys@, k as nat) <= k,
                forall|j: int|
                    0 <= j < k && #[trigger] old(self).spec_leaves_deposit(cell_keys@, j)
                        ==> CellManager::spec_has_deposit(
                        old(self).food@,
                        self.food@,
                        old(self).cells@,
                        cell_keys@[j],
                    ),
                roomy ==> forall|dead: u64|
                    cell_keys@.take(k as int).contains(dead) && old(self).cells@.contains_key(dead)
                        && spec_is_dead(old(self).cells@[dead]@)
                        ==> #[trigger] CellManager::spec_has_deposit(
                        old(self).food@,
                        self.food@,
                        old(self).cells@,
                        dead,
                    ),
            decreases cell_keys@.len() - k,
        {
            let id = cell_keys[k];
            let ghost seen = cell_keys@.take(k as int);
            proof {
                assert(cell_keys@.contains(id));
                assert(cell_keys@.take(k + 1) =~= seen.push(id));
                assert forall|other: u64|
                    cell_keys@.take(k + 1).contains(other) <==> seen.contains(other) || other
                        == id by {
                    lemma_push_contains(seen, id, other);
                }
            }
            let dead_at = match map_get(&self.cells, &id) {
                Some(cell) => if cell.is_dead() {
                    Some((cell.x, cell.y))
                } else {
                    None
                },
                None => None,
            };
            let ghost food_before = self.food@;
            let ghost mut deposit: Option<u64> = None;
            if let Some((x, y)) = dead_at {
                if map_len(&self.food) < MAX_FOOD {
                    let laid = self.add_food(x, y, DEFAULT_CELL_FOOD_VALUE);
                    proof {
                        deposit = laid;
                        if let Some(item) = laid {
                            assert(CellManager::spec_is_deposit_of(
                                old(self).cells@,
                                id,
                                self.food@[item],
                            ));
                            assert(!old(self).food@.contains_key(item));
                        }
                    }
                }
                let ghost ids_before = self.cell_id_manager;
                self.remove_cell(id);
                proof {
                    lemma_given_back(ids_before, self.cell_id_manager, id);
                }
            }
            proof {
                assert((dead_at is Some) == old(self).spec_dies_at(cell_keys@, k as int));
                assert forall|j: int|
                    0 <= j < k + 1 && #[trigger] old(self).spec_leaves_deposit(
                        cell_keys@,
                        j,
                    ) implies CellManager::spec_has_deposit(
                    old(self).food@,
                    self.food@,
                    old(self).cells@,
                    cell_keys@[j],
                ) by {
                    if j < k {
                        assert(CellManager::spec_has_deposit(
                            old(self).food@,
                            food_before,
                            old(self).cells@,
                            cell_keys@[j],
                        ));
                        let item = choose|item: u64|
                            !old(self).food@.contains_key(item) && food_before.contains_key(item)
                                && #[trigger] CellManager::spec_is_deposit_of(
                                old(self).cells@,
                                cell_keys@[j],
                                food_before[item],
                            );
                        assert(self.food@.contains_key(item) && self.food@[item]
                            == food_before[item]);
                        assert(CellManager::spec_is_deposit_of(
                            old(self).cells@,
                            cell_keys@[j],
                            self.food@[item],
                        ));
                    } else {
                        let item = deposit->Some_0;
                        assert(CellManager::spec_is_deposit_of(
                            old(self).cells@,
                            id,
                            self.food@[item],
                        ));
                    }
                }
                if roomy {
                    assert forall|dead: u64|
                        cell_keys@.take(k + 1).contains(dead) && old(self).cells@.contains_key(dead)
                            && spec_is_dead(
                            old(self).cells@[dead]@,
                        ) implies #[trigger] CellManager::spec_has_deposit(
                        old(self).food@,
                        self.food@,
                        old(self).cells@,
                        dead,
                    ) by {
                        if seen.contains(dead) {
                            assert(CellManager::spec_has_deposit(
                                old(self).food@,
                                food_before,
                                old(self).cells@,
                                dead,
                            ));
                            let item = choose|item: u64|
                                !old(self).food@.contains_key(item) && food_before.contains_key(
                                    item,
                                ) && #[trigger] CellManager::spec_is_deposit_of(
                                    old(self).cells@,
                                    dead,
                                    food_before[item],
                                );
                            assert(self.food@.contains_key(item) && self.food@[item]
                                == food_before[item]);
                            assert(CellManager::spec_is_deposit_of(
                                old(self).cells@,
                                dead,
                                self.food@[item],
                            ));
                        } else {
                            assert(dead == id);
                            assert(dead_at is Some);
                            assert(food_before.len() < MAX_FOOD);
                            let item = deposit->Some_0;
                            assert(CellManager::spec_is_deposit_of(
                                old(self).cells@,
                                dead,
                                self.food@[item],
                            ));
                        }
                    }
                }
            }
            k += 1;
        }
        proof {
            assert(cell_keys@.take(k as int) =~= cell_keys@);
        }
    }

    /// The fifth phase of a tick. Each cell that `cell_keys` lists and that
    /// has the food to replicate makes a child and pays for it: unless the
    /// world holds [`MAX_CELLS`] cells by then, or no identifier is left for
    /// the child. Every listed cell forgets the forces that it received.
    ///
    /// The list names cells that are there, each once: so no child made in
    /// this phase is among them.
    pub fn replicate(&mut self, cell_keys: &Vec<u64>)
        requires
            old(self).wf(),
            cell_keys@.no_duplicates(),
            forall|j: int|
                0 <= j < cell_keys@.len()
                    ==> old(self).cells@.contains_key(#[trigger] cell_keys@[j]),
        ensures
            spec_replicated(*old(self), cell_keys@, *final(self)),
    {
        let mut k: usize = 0;
        while k < cell_keys.len()
            invariant
                k <= cell_keys@.len(),
                cell_keys@.no_duplicates(),
                forall|j: int|
                    0 <= j < cell_keys@.len() ==> old(self).cells@.contains_key(
                        #[trigger] cell_keys@[j],
                    ),
                old(self).wf(),
                self.wf(),
                self.food == old(self).food,
                self.food_id_manager == old(self).food_id_manager,
                forall|id: u64| #[trigger]
                    old(self).cells@.contains_key(id) ==> self.cells@.contains_key(id),
                forall|id: u64| #[trigger]
                    old(self).cells@.contains_key(id) && !cell_keys@.take(k as int).contains(id)
                        ==> self.cells@[id] == old(self).cells@[id],
                forall|j: int|
                    0 <= j < k ==> self.cells@[#[trigger] cell_keys@[j]]@
                        == if old(self).spec_gives_birth(cell_keys@, j) {
                        spec_rested(spec_paid(old(self).cells@[cell_keys@[j]]@))
                    } else {
                        spec_rested(old(self).cells@[cell_keys@[j]]@)
                    },
                self.cells@.len() == old(self).cells@.len() + old(self).spec_births(
                    cell_keys@,
                    k as nat,
                ),
                self.cell_id_manager.spec_available() == old(self).cell_id_manager.spec_available()
                    - old(self).spec_births(cell_keys@, k as nat),
                forall|id: u64| #[trigger]
                    self.cells@.contains_key(id) && !old(self).cells@.contains_key(id)
                        ==> exists|parent: u64|
                        cell_keys@.contains(parent) && #[trigger] CellManager::spec_born_of(
                            old(self).cells@,
                            parent,
                            self.cells@[id],
                        ),
                self.cells@.len() <= old(self).cells@.len() || self.cells@.len() <= MAX_CELLS,
            decreases cell_keys@.len() - k,
        {
            let id = cell_keys[k];
            let ghost seen = cell_keys@.take(k as int);
            let ghost before = self.cells@;
            let ghost food_listed = self.grid.food();
            proof {
                assert(cell_keys@.contains(id));
                assert(!seen.contains(id)) by {
                    if seen.contains(id) {
                        let j = choose|j: int| 0 <= j < seen.len() && seen[j] == id;
                        assert(cell_keys@[j] == cell_keys@[k as int]);
                    }
                }
                assert(cell_keys@.take(k + 1) =~= seen.push(id));
                assert forall|other: u64|
                    cell_keys@.take(k + 1).contains(other) <==> seen.contains(other) || other
                        == id by {
                    lemma_push_contains(seen, id, other);
                }
            }
            let able = match map_get(&self.cells, &id) {
                Some(cell) => Some(cell.can_replicate()),
                None => None,
            };
            if let Some(can) = able {
                if can && map_len(&self.cells) < MAX_CELLS && self.cell_id_manager.can_issue() {
                    let child_id = self.cell_id_manager.get_id();
                    let cell = map_get_mut(&mut self.cells, &id);
                    let child = cell.replicate(child_id);
                    cell.reset();
                    proof {
                        assert(self.cells@.dom() =~= before.dom());
                        assert(self.cells_indexed());
                        assert(child.id == child_id);
                        assert(spec_in_world(child.x) && spec_in_world(child.y));
                    }
                    let ghost born = child;
                    self.add_cell(child);
                    proof {
                        assert(self.cells@.dom() =~= before.dom().insert(child_id));
                        assert(self.grid.food() == food_listed);
                        assert(self.food_indexed());
                        assert(old(self).cells@.contains_key(id));
                        assert(before[id] == old(self).cells@[id]);
                        assert(spec_is_child(before[id]@, child_id, born@));
                        assert(CellManager::spec_born_of(old(self).cells@, id, born));
                    }
                } else {
                    let cell = map_get_mut(&mut self.cells, &id);
                    cell.reset();
                    proof {
                        assert(self.cells@.dom() =~= before.dom());
                        assert(self.cells_indexed());
                    }
                }
            }
            proof {
                assert(before.contains_key(id) && before[id] == old(self).cells@[id]);
                assert forall|j: int| 0 <= j < k + 1 implies self.cells@[#[trigger] cell_keys@[j]]@
                    == if old(self).spec_gives_birth(cell_keys@, j) {
                    spec_rested(spec_paid(old(self).cells@[cell_keys@[j]]@))
                } else {
                    spec_rested(old(self).cells@[cell_keys@[j]]@)
                } by {
                    if j < k {
                        assert(cell_keys@[j] != cell_keys@[k as int]);
                        assert(self.cells@[cell_keys@[j]] == before[cell_keys@[j]]);
                    }
                }
            }
            k += 1;
        }
        proof {
            assert(cell_keys@.take(k as int) =~= cell_keys@);
        }
    }

    /// The last phase of a tick. Unless the world holds [`MAX_FOOD`] food
    /// items or more, [`FOOD_ADDED_PER_FRAME`] items of
    /// [`DEFAULT_FOOD_VALUE`] are laid down at places drawn from the world:
    /// fewer only where identifiers run out.
    pub fn replenish(&mut self, rng: &mut ThreadRng)
        requires
            old(self).wf(),
        ensures
            spec_replenished(*old(self), *final(self)),
    {
        if map_len(&self.food) < MAX_FOOD {
            let mut laid: usize = 0;
            while laid < FOOD_ADDED_PER_FRAME
                invariant
                    laid <= FOOD_ADDED_PER_FRAME,
                    self.wf(),
                    self.cells == old(self).cells,
                    self.cell_id_manager == old(self).cell_id_manager,
                    forall|id: u64| #[trigger]
                        old(self).food@.contains_key(id) ==> self.food@.contains_key(id)
                            && self.food@[id] == old(self).food@[id],
                    forall|id: u64| #[trigger]
                        self.food@.contains_key(id) && !old(self).food@.contains_key(id) ==> {
                            &&& spec_in_world(self.food@[id].0)
                            &&& spec_in_world(self.food@[id].1)
                            &&& self.food@[id].2 == DEFAULT_FOOD_VALUE
                        },
                    old(self).food_id_manager.spec_available() >= FOOD_ADDED_PER_FRAME ==> {
                        &&& self.food@.len() == old(self).food@.len() + laid
                        &&& self.food_id_manager.spec_available()
                            == old(self).food_id_manager.spec_available() - laid
                    },
                decreases FOOD_ADDED_PER_FRAME - laid,
            {
                let x = draw_between(rng, 0, WORLD_EXTENT - 1);
                let y = draw_between(rng, 0, WORLD_EXTENT - 1);
                self.add_food(x, y, DEFAULT_FOOD_VALUE);
                laid += 1;
            }
        }
    }

    /// Moves the world on by one tick: forces are sent, cells move and pay,
    /// cells eat, the dead leave, the living replicate, food is laid down.
    ///
    /// The cells go through the first four phases in one order, which is
    /// that in which the map of cells hands out its keys; those that are
    /// left go through the fifth in such an order again.
    pub fn update(&mut self)
        requires
            old(self).wf(),
        ensures
            final(self).wf(),
            spec_ticked(*old(self), *final(self)),
    {
        let mut rng = rand::thread_rng();
        let cell_keys = map_keys(&self.cells);
        self.emit_forces(&cell_keys);
        let ghost emitted = *self;
        self.integrate(&cell_keys);
        let ghost integrated = *self;
        self.feed(&cell_keys);
        let ghost fed = *self;
        self.cull(&cell_keys);
        let ghost culled = *self;
        let survivors = map_keys(&self.cells);
        proof {
            assert forall|j: int| 0 <= j < survivors@.len() implies self.cells@.contains_key(
                #[trigger] survivors@[j],
            ) by {
                assert(survivors@.to_set().contains(survivors@[j]));
            }
        }
        self.replicate(&survivors);
        let ghost replicated = *self;
        self.replenish(&mut rng);
        proof {
            assert(spec_tick_steps(
                *old(self),
                cell_keys@,
                emitted,
                integrated,
                fed,
                culled,
                survivors@,
                replicated,
                *self,
            ));
        }
    }
}

/// Whether `after` can be `before` once its food and the cells that `cell_keys`
/// lists have sent their forces: nothing has changed but the food reserve,
/// the next position and the forces received of cells, and of these nothing
/// for a cell that no force got to.
pub open spec fn spec_emitted(before: CellManager, cell_keys: Seq<u64>,
    after: CellManager) -> bool {
    &&& after.wf()
    &&& after.food == before.food
    &&& after.grid == before.grid
    &&& after.cell_id_manager == before.cell_id_manager
    &&& after.food_id_manager == before.food_id_manager
    &&& after.cells@.dom() == before.cells@.dom()
    &&& forall|id: u64| #[trigger]
        before.cells@.contains_key(id) ==> spec_same_but_forces(
            before.cells@[id]@,
            after.cells@[id]@,
        )
    &&& forall|id: u64|
        before.cells@.contains_key(id) && #[trigger] before.spec_out_of_reach(
            cell_keys,
            id,
        ) ==> after.cells@[id] == before.cells@[id]
    &&& exists|food_keys: Seq<u64>| #[trigger]
        spec_sent_in_order(before, food_keys, cell_keys, after)
}

/// Whether each cell of `after` is the cell of `before` once the food items
/// have sent their force, in the order `food_keys`, and then the cells
/// their emissions, in the order `cell_keys`; where `food_keys` lists each
/// food item once.
pub open spec fn spec_sent_in_order(
    before: CellManager,
    food_keys: Seq<u64>,
    cell_keys: Seq<u64>,
    after: CellManager,
) -> bool {
    &&& food_keys.no_duplicates()
    &&& food_keys.to_set() == before.food@.dom()
    &&& forall|id: u64| #[trigger]
        before.cells@.contains_key(id) ==> after.cells@[id]@ == before.spec_after_cells(
            before.spec_after_food(food_keys, food_keys.len(), id),
            cell_keys,
            cell_keys.len(),
            id,
        )
}

/// Whether `after` is `before` once each cell that `cell_keys` lists has lived
/// a tick of its own.
pub open spec fn spec_integrated(before: CellManager, cell_keys: Seq<u64>,
    after: CellManager) -> bool {
    &&& after.wf()
    &&& after.food == before.food
    &&& after.grid.food_grid == before.grid.food_grid
    &&& after.cell_id_manager == before.cell_id_manager
    &&& after.food_id_manager == before.food_id_manager
    &&& after.cells@.dom() == before.cells@.dom()
    &&& forall|id: u64| #[trigger]
        before.cells@.contains_key(id) ==> after.cells@[id]@ == if cell_keys.contains(
            id,
        ) {
            spec_updated(before.cells@[id]@)
        } else {
            before.cells@[id]@
        }
}

/// Whether `after` can be `before` once the cell `cell_id` has eaten: every
/// food item that it could eat is gone and has been added to its food
/// reserve, each in its turn, and nothing else has changed.
pub open spec fn spec_ate(before: CellManager, cell_id: u64, after: CellManager) -> bool {
    &&& after.wf()
    &&& after.cell_id_manager == before.cell_id_manager
    &&& after.cells@.dom() == before.cells@.dom()
    &&& forall|other: u64| #[trigger]
        before.cells@.contains_key(other) && other != cell_id ==> after.cells@[other]
            == before.cells@[other]
    &&& before.cells@.contains_key(cell_id) ==> after.cells@[cell_id] == (Cell {
        food: after.cells@[cell_id].food,
        ..before.cells@[cell_id]
    })
    &&& forall|item: u64| #[trigger]
        after.food@.contains_key(item) <==> before.food@.contains_key(item)
            && !before.spec_can_eat(cell_id, item)
    &&& forall|item: u64| #[trigger]
        after.food@.contains_key(item) ==> after.food@[item] == before.food@[item]
    &&& before.cells@.contains_key(cell_id) ==> exists|order: Seq<u64>|
        #![auto]
        order.no_duplicates() && (forall|item: u64|
            order.contains(item) <==> before.spec_can_eat(cell_id, item))
                && after.cells@[cell_id].food == spec_fed(
            before.cells@[cell_id].food,
            spec_values_of(before.food@, order),
        )
    &&& forall|item: u64|
        before.spec_can_eat(cell_id, item)
            ==> !#[trigger] after.food_id_manager.spec_issued().contains(
            item,
        )
    &&& forall|item: u64|
        !before.food_id_manager.spec_issued().contains(item)
            ==> !#[trigger] after.food_id_manager.spec_issued().contains(item)
}

/// Whether `after` can be `before` once the cells that `cell_keys` lists have
/// eaten: each food item that is gone was within the reach of one of them,
/// and none is left within the reach of any.
pub open spec fn spec_fed_all(before: CellManager, cell_keys: Seq<u64>,
    after: CellManager) -> bool {
    &&& after.wf()
    &&& after.cell_id_manager == before.cell_id_manager
    &&& after.cells@.dom() == before.cells@.dom()
    &&& forall|id: u64| #[trigger]
        before.cells@.contains_key(id) ==> after.cells@[id] == (Cell {
            food: after.cells@[id].food,
            ..before.cells@[id]
        })
    &&& forall|id: u64| #[trigger]
        before.cells@.contains_key(id) && !cell_keys.contains(id) ==> after.cells@[id]
            == before.cells@[id]
    &&& forall|item: u64| #[trigger]
        after.food@.contains_key(item) ==> before.food@.contains_key(item)
            && after.food@[item] == before.food@[item]
    &&& forall|item: u64| #[trigger]
        before.food@.contains_key(item) && !after.food@.contains_key(item)
            ==> exists|eater: u64|
            cell_keys.contains(eater) && #[trigger] before.spec_can_eat(eater, item)
    &&& forall|eater: u64, item: u64|
        cell_keys.contains(eater) ==> !#[trigger] after.spec_can_eat(eater, item)
    &&& exists|stations: Seq<CellManager>| #[trigger] spec_ate_in_turn(before, cell_keys, stations,
        after)
    &&& forall|item: u64|
        before.food@.contains_key(item) && !after.food@.contains_key(item)
            ==> !#[trigger] after.food_id_manager.spec_issued().contains(item)
}

/// Whether `stations` are the worlds between the meals of the cells
/// `cell_keys`, which eat one after the other, from `before` to `after`.
pub open spec fn spec_ate_in_turn(
    before: CellManager,
    cell_keys: Seq<u64>,
    stations: Seq<CellManager>,
    after: CellManager,
) -> bool {
    &&& stations.len() == cell_keys.len() + 1
    &&& stations[0] == before
    &&& stations[cell_keys.len() as int] == after
    &&& forall|k: int|
        0 <= k < cell_keys.len() ==> spec_ate(#[trigger] stations[k], cell_keys[k], stations[k + 1])
}

/// Whether `after` can be `before` once the dead among the cells that
/// `cell_keys` lists have left the world.
pub open spec fn spec_culled(before: CellManager, cell_keys: Seq<u64>, after: CellManager) -> bool {
    &&& after.wf()
    &&& forall|id: u64| #[trigger]
        after.cells@.contains_key(id) <==> before.cells@.contains_key(id) && !(
        cell_keys.contains(id) && spec_is_dead(before.cells@[id]@))
    &&& forall|id: u64| #[trigger]
        after.cells@.contains_key(id) ==> after.cells@[id] == before.cells@[id]
    &&& forall|item: u64| #[trigger]
        before.food@.contains_key(item) ==> after.food@.contains_key(item)
            && after.food@[item] == before.food@[item]
    &&& forall|item: u64| #[trigger]
        after.food@.contains_key(item) && !before.food@.contains_key(item)
            ==> exists|dead: u64|
            cell_keys.contains(dead) && #[trigger] CellManager::spec_is_deposit_of(
                before.cells@,
                dead,
                after.food@[item],
            )
    &&& before.food@.len() + cell_keys.len() <= MAX_FOOD
        && before.food_id_manager.spec_available() >= cell_keys.len() ==> forall|dead: u64|
        cell_keys.contains(dead) && before.cells@.contains_key(dead) && spec_is_dead(
            before.cells@[dead]@,
        ) ==> #[trigger] CellManager::spec_has_deposit(
            before.food@,
            after.food@,
            before.cells@,
            dead,
        )
    &&& after.food@.len() == before.food@.len() + before.spec_deposits(cell_keys, cell_keys.len())
    &&& forall|k: int|
        0 <= k < cell_keys.len() && #[trigger] before.spec_leaves_deposit(cell_keys, k)
            ==> CellManager::spec_has_deposit(
            before.food@,
            after.food@,
            before.cells@,
            cell_keys[k],
        )
    &&& forall|id: u64|
        before.cells@.contains_key(id) && cell_keys.contains(id) && spec_is_dead(
            before.cells@[id]@,
        ) ==> !#[trigger] after.cell_id_manager.spec_issued().contains(id)
}

/// Whether `after` can be `before` once the cells that `cell_keys` lists have
/// replicated, those that could, and all have forgotten the forces received.
pub open spec fn spec_replicated(before: CellManager, cell_keys: Seq<u64>,
    after: CellManager) -> bool {
    &&& after.wf()
    &&& after.food == before.food
    &&& after.food_id_manager == before.food_id_manager
    &&& forall|id: u64| #[trigger]
        before.cells@.contains_key(id) ==> after.cells@.contains_key(id)
    &&& forall|id: u64| #[trigger]
        before.cells@.contains_key(id) && !cell_keys.contains(id) ==> after.cells@[id]
            == before.cells@[id]
    &&& forall|k: int|
        0 <= k < cell_keys.len() ==> after.cells@[#[trigger] cell_keys[k]]@
            == if before.spec_gives_birth(
            cell_keys,
            k,
        ) {
            spec_rested(spec_paid(before.cells@[cell_keys[k]]@))
        } else {
            spec_rested(before.cells@[cell_keys[k]]@)
        }
    &&& after.cells@.len() == before.cells@.len() + before.spec_births(cell_keys, cell_keys.len())
    &&& forall|id: u64| #[trigger]
        after.cells@.contains_key(id) && !before.cells@.contains_key(id)
            ==> exists|parent: u64|
            cell_keys.contains(parent) && #[trigger] CellManager::spec_born_of(
                before.cells@,
                parent,
                after.cells@[id],
            )
    &&& after.cells@.len() <= before.cells@.len() || after.cells@.len()
        <= MAX_CELLS
}

/// Whether `after` can be `before` once food has been laid down: what was
/// there stays; each new item lies in the world and is worth
/// [`DEFAULT_FOOD_VALUE`]; there is none where the world held [`MAX_FOOD`]
/// items or more, and else there are [`FOOD_ADDED_PER_FRAME`], identifiers
/// permitting.
pub open spec fn spec_replenished(before: CellManager, after: CellManager) -> bool {
    &&& after.wf()
    &&& after.cells == before.cells
    &&& after.cell_id_manager == before.cell_id_manager
    &&& forall|id: u64| #[trigger]
        before.food@.contains_key(id) ==> after.food@.contains_key(id) && after.food@[id]
            == before.food@[id]
    &&& forall|id: u64| #[trigger]
        after.food@.contains_key(id) && !before.food@.contains_key(id) ==> {
            &&& spec_in_world(after.food@[id].0)
            &&& spec_in_world(after.food@[id].1)
            &&& after.food@[id].2 == DEFAULT_FOOD_VALUE
        }
    &&& before.food@.len() >= MAX_FOOD ==> after.food == before.food
    &&& before.food@.len() < MAX_FOOD && before.food_id_manager.spec_available()
        >= FOOD_ADDED_PER_FRAME ==> after.food@.len() == before.food@.len()
        + FOOD_ADDED_PER_FRAME
}

/// Whether `keys` lists each key of `cells` once.
pub open spec fn spec_lists_keys(keys: Seq<u64>, cells: Map<u64, Cell>) -> bool {
    keys.no_duplicates() && keys.to_set() == cells.dom()
}

/// Whether the worlds are the stations of one tick from `before` to
/// `after`: with the cells of `before` taken in the order `cell_keys`, and
/// those left after the fourth phase in the order `survivors`.
pub open spec fn spec_tick_steps(
    before: CellManager,
    cell_keys: Seq<u64>,
    emitted: CellManager,
    integrated: CellManager,
    fed: CellManager,
    culled: CellManager,
    survivors: Seq<u64>,
    replicated: CellManager,
    after: CellManager,
) -> bool {
    &&& spec_lists_keys(cell_keys, before.cells@)
    &&& spec_emitted(before, cell_keys, emitted)
    &&& spec_integrated(emitted, cell_keys, integrated)
    &&& spec_fed_all(integrated, cell_keys, fed)
    &&& spec_culled(fed, cell_keys, culled)
    &&& spec_lists_keys(survivors, culled.cells@)
    &&& spec_replicated(culled, survivors, replicated)
    &&& spec_replenished(replicated, after)
}

/// Whether one tick can turn `before` into `after`: there are orders of the
/// cells and stations between the phases that lead from the one to the
/// other.
pub open spec fn spec_ticked(before: CellManager, after: CellManager) -> bool {
    exists|
        cell_keys: Seq<u64>,
        emitted: CellManager,
        integrated: CellManager,
        fed: CellManager,
        culled: CellManager,
        survivors: Seq<u64>,
        replicated: CellManager,
    | #[trigger]
        spec_tick_steps(
            before,
            cell_keys,
            emitted,
            integrated,
            fed,
            culled,
            survivors,
            replicated,
            after,
        )
}

/// A dead cell does not outlast the fourth phase of a tick, and a living
/// cell does; where there is room, the dead cell leaves food behind.
pub proof fn lemma_cull_removes_the_dead(
    before: CellManager,
    cell_keys: Seq<u64>,
    after: CellManager,
    id: u64,
)
    requires
        spec_culled(before, cell_keys, after),
        before.cells@.contains_key(id),
        cell_keys.contains(id),
    ensures
        spec_is_dead(before.cells@[id]@) ==> !after.cells@.contains_key(id),
        !spec_is_dead(before.cells@[id]@) ==> after.cells@.contains_key(id) && after.cells@[id]
            == before.cells@[id],
        spec_is_dead(before.cells@[id]@) && before.food@.len() + cell_keys.len() <= MAX_FOOD
            && before.food_id_manager.spec_available() >= cell_keys.len() ==> exists|item: u64|
            after.food@.contains_key(item) && #[trigger] after.food@[item] == (
                before.cells@[id].x,
                before.cells@[id].y,
                DEFAULT_CELL_FOOD_VALUE,
            ),
{
    assert(after.cells@.contains_key(id) <==> before.cells@.contains_key(id) && !(
    cell_keys.contains(id) && spec_is_dead(before.cells@[id]@)));
    if after.cells@.contains_key(id) {
        assert(after.cells@[id] == before.cells@[id]);
    }
    if spec_is_dead(before.cells@[id]@) && before.food@.len() + cell_keys.len() <= MAX_FOOD
        && before.food_id_manager.spec_available() >= cell_keys.len() {
        assert(CellManager::spec_has_deposit(before.food@, after.food@, before.cells@, id));
        let item = choose|item: u64|
            !before.food@.contains_key(item) && after.food@.contains_key(item)
                && #[trigger] CellManager::spec_is_deposit_of(
                before.cells@,
                id,
                after.food@[item],
            );
        assert(after.food@[item] == (
            before.cells@[id].x,
            before.cells@[id].y,
            DEFAULT_CELL_FOOD_VALUE,
        ));
    }
}

/// What the fourth phase of a tick does with one cell that dies in it, the
/// `k`-th of those listed: the cell is gone and its identifier is given
/// back. It leaves a food item where it lay, one and no more, if the world
/// holds less than [`MAX_FOOD`] items by then and an identifier is left for
/// the item; else it leaves none.
pub proof fn lemma_cull_one(before: CellManager, cell_keys: Seq<u64>, after: CellManager, k: int)
    requires
        spec_culled(before, cell_keys, after),
        0 <= k < cell_keys.len(),
        before.spec_dies_at(cell_keys, k),
    ensures
        !after.cells@.contains_key(cell_keys[k]),
        !after.cell_id_manager.spec_issued().contains(cell_keys[k]),
        before.spec_leaves_deposit(cell_keys, k) ==> CellManager::spec_has_deposit(
            before.food@,
            after.food@,
            before.cells@,
            cell_keys[k],
        ) && before.spec_deposits(cell_keys, (k + 1) as nat) == before.spec_deposits(
            cell_keys,
            k as nat,
        ) + 1,
        !before.spec_leaves_deposit(cell_keys, k) ==> before.spec_deposits(
            cell_keys,
            (k + 1) as nat,
        ) == before.spec_deposits(cell_keys, k as nat),
{
    assert(cell_keys.contains(cell_keys[k]));
    assert(after.cells@.contains_key(cell_keys[k]) <==> before.cells@.contains_key(cell_keys[k])
        && !(cell_keys.contains(cell_keys[k]) && spec_is_dead(before.cells@[cell_keys[k]]@)));
}

/// In a world that holds [`MAX_FOOD`] food items or more, the dead leave
/// no food behind: the number of items stays.
pub proof fn lemma_cull_in_a_full_world(
    before: CellManager,
    cell_keys: Seq<u64>,
    after: CellManager,
)
    requires
        spec_culled(before, cell_keys, after),
        before.food@.len() >= MAX_FOOD,
    ensures
        after.food@.len() == before.food@.len(),
{
    lemma_no_deposits(before, cell_keys, cell_keys.len());
}

/// In a world that holds [`MAX_FOOD`] food items or more, none of the
/// listed cells leaves food behind.
pub proof fn lemma_no_deposits(before: CellManager, cell_keys: Seq<u64>, upto: nat)
    requires
        before.food@.len() >= MAX_FOOD,
    ensures
        before.spec_deposits(cell_keys, upto) == 0,
    decreases upto,
{
    if upto > 0 {
        lemma_no_deposits(before, cell_keys, (upto - 1) as nat);
    }
}

/// Cells that lie in one bucket, or in buckets that touch, are listed as
/// neighbours of one another; a cell two buckets off or more is not.
pub proof fn lemma_neighbors_touch(world: CellManager, one: u64, other: u64)
    requires
        world.wf(),
        world.cells@.contains_key(one),
        world.cells@.contains_key(other),
        one != other,
    ensures
        spec_near(
            world.grid.cells(),
            spec_bucket_index(world.cells@[one].x, world.cells@[one].y),
            other,
        ) <==> spec_adjacent(
            spec_bucket_index(world.cells@[one].x, world.cells@[one].y),
            spec_bucket_index(world.cells@[other].x, world.cells@[other].y),
        ),
        spec_near(
            world.grid.cells(),
            spec_bucket_index(world.cells@[one].x, world.cells@[one].y),
            other,
        ) <==> spec_near(
            world.grid.cells(),
            spec_bucket_index(world.cells@[other].x, world.cells@[other].y),
            one,
        ),
{
    world.lemma_near_cells(world.cells@[one].x, world.cells@[one].y, other);
    world.lemma_near_cells(world.cells@[other].x, world.cells@[other].y, one);
}

} // verus!
