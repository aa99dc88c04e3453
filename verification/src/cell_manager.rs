//! The world: every cell and every food item, and the grid that finds them
//! by place. How the world is filled, and how it is written out and taken
//! in again.

use crate::cell::{spec_in_world, spec_is_newborn, Cell, CellView};
use crate::collections::{map_insert, map_remove};
use crate::config::{
    BUCKET_COUNT, DEFAULT_FOOD_VALUE, STARTING_CELLS, STARTING_FOOD, WORLD_EXTENT,
};
use crate::fixed::Fixed;
use crate::grid::{lemma_push_contains, spec_bucket_index, SpatialGrid};
use crate::id::{lemma_nth_issued, spec_issues, IdManager};
use crate::random::draw_between;
use crate::tick::spec_lists_keys;
use rustc_hash::FxHashMap;
use vstd::prelude::*;

verus! {

/// A food item: where it lies, along each axis, and what it is worth.
pub type Food = (Fixed, Fixed, Fixed);

/// The world.
#[derive(Debug)]
pub struct CellManager {
    /// The living cells, by identifier.
    pub cells: FxHashMap<u64, Cell>,
    /// The food items, by identifier.
    pub food: FxHashMap<u64, Food>,
    /// Where each cell and each food item lies.
    pub grid: SpatialGrid,
    /// Hands out the identifiers of cells.
    pub cell_id_manager: IdManager,
    /// Hands out the identifiers of food items.
    pub food_id_manager: IdManager,
}

/// Why a population was not taken in.
#[derive(Clone, Copy, Debug, PartialEq, Eq, Structural)]
pub enum StartError {
    /// A cell lies outside the world.
    CellOutsideWorld,
    /// A food item lies outside the world.
    FoodOutsideWorld,
    /// There are more cells or food items than identifiers left.
    OutOfIdentifiers,
}

/// Whether every cell of the list lies in the world.
pub open spec fn spec_cells_in_world(cells: Seq<Cell>) -> bool {
    forall|i: int|
        0 <= i < cells.len() ==> spec_in_world((#[trigger] cells[i]).x) && spec_in_world(cells[i].y)
}

/// Whether every food item of the list lies in the world.
pub open spec fn spec_food_in_world(food: Seq<Food>) -> bool {
    forall|i: int|
        0 <= i < food.len() ==> spec_in_world((#[trigger] food[i]).0) && spec_in_world(food[i].1)
}

/// Whether `after` is `before` with each cell of `list` taken in under the
/// identifier that `ids` gives it: a new one, and all that changes of the
/// cell.
pub open spec fn spec_cells_taken_in(
    before: Map<u64, Cell>,
    list: Seq<Cell>,
    ids: Seq<u64>,
    after: Map<u64, Cell>,
) -> bool {
    &&& ids.len() == list.len()
    &&& ids.no_duplicates()
    &&& forall|i: int| 0 <= i < ids.len() ==> !before.contains_key(#[trigger] ids[i])
    &&& forall|id: u64| #[trigger]
        after.contains_key(id) <==> before.contains_key(id) || ids.contains(id)
    &&& forall|id: u64| #[trigger] before.contains_key(id) ==> after[id] == before[id]
    &&& forall|i: int|
        0 <= i < ids.len() ==> after[#[trigger] ids[i]] == (Cell { id: ids[i], ..list[i] })
}

/// Whether `after` is `before` with each food item of `list` taken in under
/// the identifier that `ids` gives it, a new one.
pub open spec fn spec_food_taken_in(
    before: Map<u64, Food>,
    list: Seq<Food>,
    ids: Seq<u64>,
    after: Map<u64, Food>,
) -> bool {
    &&& ids.len() == list.len()
    &&& ids.no_duplicates()
    &&& forall|i: int| 0 <= i < ids.len() ==> !before.contains_key(#[trigger] ids[i])
    &&& forall|id: u64| #[trigger]
        after.contains_key(id) <==> before.contains_key(id) || ids.contains(id)
    &&& forall|id: u64| #[trigger] before.contains_key(id) ==> after[id] == before[id]
    &&& forall|i: int| 0 <= i < ids.len() ==> after[#[trigger] ids[i]] == list[i]
}

impl CellManager {
    /// Whether each cell is known under its own identifier, lies in the
    /// world, and is listed in the bucket of its place and in no other, and
    /// the grid lists no cell that is not alive.
    pub open spec fn cells_indexed(&self) -> bool {
        &&& self.cells@.dom().finite()
        &&& forall|id: u64| #[trigger]
            self.cells@.contains_key(id) ==> self.cells@[id].id == id && spec_in_world(
                self.cells@[id].x,
            ) && spec_in_world(self.cells@[id].y)
        &&& forall|b: int, id: u64|
            0 <= b < BUCKET_COUNT ==> (#[trigger] self.grid.cells()[b].contains(id)
                <==> self.cells@.contains_key(id) && spec_bucket_index(
                self.cells@[id].x,
                self.cells@[id].y,
            ) == b)
    }

    /// Whether each food item lies in the world and is listed in the bucket
    /// of its place and in no other, and the grid lists no item that is not
    /// there.
    pub open spec fn food_indexed(&self) -> bool {
        &&& self.food@.dom().finite()
        &&& forall|id: u64| #[trigger]
            self.food@.contains_key(id) ==> spec_in_world(self.food@[id].0) && spec_in_world(
                self.food@[id].1,
            )
        &&& forall|b: int, id: u64|
            0 <= b < BUCKET_COUNT ==> (#[trigger] self.grid.food()[b].contains(id)
                <==> self.food@.contains_key(id) && spec_bucket_index(
                self.food@[id].0,
                self.food@[id].1,
            ) == b)
    }

    /// Whether the identifier of every cell and of every food item that is
    /// there is out: so that none of them is handed out again.
    pub open spec fn ids_in_step(&self) -> bool {
        &&& self.cell_id_manager.wf()
        &&& self.food_id_manager.wf()
        &&& forall|id: u64| #[trigger]
            self.cells@.contains_key(id) ==> self.cell_id_manager.spec_issued().contains(id)
        &&& forall|id: u64| #[trigger]
            self.food@.contains_key(id) ==> self.food_id_manager.spec_issued().contains(id)
    }

    /// Whether the world is sound.
    pub open spec fn wf(&self) -> bool {
        &&& self.grid.wf()
        &&& self.cells_indexed()
        &&& self.food_indexed()
        &&& self.ids_in_step()
    }

    /// An empty world.
    pub fn new() -> (world: CellManager)
        ensures
            world.wf(),
            world.cells@ == Map::<u64, Cell>::empty(),
            world.food@ == Map::<u64, Food>::empty(),
            world.cell_id_manager.next_id == 0,
            world.cell_id_manager.recycled_ids@ == Seq::<u64>::empty(),
            world.food_id_manager.next_id == 0,
            world.food_id_manager.recycled_ids@ == Seq::<u64>::empty(),
    {
        let world = CellManager {
            cells: FxHashMap::default(),
            food: FxHashMap::default(),
            grid: SpatialGrid::new(),
            cell_id_manager: IdManager::new(),
            food_id_manager: IdManager::new(),
        };
        assert(world.cells@.dom() =~= Set::<u64>::empty());
        assert(world.food@.dom() =~= Set::<u64>::empty());
        world
    }

    /// Takes in a cell under the identifier that it carries.
    pub fn add_cell(&mut self, cell: Cell)
        requires
            old(self).grid.wf(),
            old(self).cells_indexed(),
            !old(self).cells@.contains_key(cell.id),
            spec_in_world(cell.x),
            spec_in_world(cell.y),
        ensures
            final(self).grid.wf(),
            final(self).cells_indexed(),
            final(self).cells@ == old(self).cells@.insert(cell.id, cell),
            final(self).food == old(self).food,
            final(self).grid.food_grid == old(self).grid.food_grid,
            final(self).cell_id_manager == old(self).cell_id_manager,
            final(self).food_id_manager == old(self).food_id_manager,
    {
        let (x, y, id) = (cell.x, cell.y, cell.id);
        map_insert(&mut self.cells, id, cell);
        self.grid.add_cell(x, y, id);
    }

    /// Takes in a food item under the identifier `id`.
    pub fn place_food(&mut self, id: u64, x: Fixed, y: Fixed, food: Fixed)
        requires
            old(self).grid.wf(),
            old(self).food_indexed(),
            !old(self).food@.contains_key(id),
            spec_in_world(x),
            spec_in_world(y),
        ensures
            final(self).grid.wf(),
            final(self).food_indexed(),
            final(self).food@ == old(self).food@.insert(id, (x, y, food)),
            final(self).cells == old(self).cells,
            final(self).grid.grid == old(self).grid.grid,
            final(self).cell_id_manager == old(self).cell_id_manager,
            final(self).food_id_manager == old(self).food_id_manager,
    {
        map_insert(&mut self.food, id, (x, y, food));
        self.grid.add_food(x, y, id);
    }

    /// Lays down a food item under a fresh identifier, which is returned:
    /// unless no identifier is left, when nothing happens.
    pub fn add_food(&mut self, x: Fixed, y: Fixed, food: Fixed) -> (id: Option<u64>)
        requires
            old(self).wf(),
            spec_in_world(x),
            spec_in_world(y),
        ensures
            final(self).wf(),
            final(self).cells == old(self).cells,
            final(self).grid.grid == old(self).grid.grid,
            final(self).cell_id_manager == old(self).cell_id_manager,
            id is Some <==> old(self).food_id_manager.spec_can_issue(),
            id is None ==> final(self).food == old(self).food && final(self).food_id_manager
                == old(self).food_id_manager,
            id matches Some(fresh) ==> {
                &&& !old(self).food@.contains_key(fresh)
                &&& final(self).food@ == old(self).food@.insert(fresh, (x, y, food))
                &&& final(self).food_id_manager.spec_available()
                    == old(self).food_id_manager.spec_available() - 1
                &&& spec_issues(old(self).food_id_manager, final(self).food_id_manager, fresh)
            },
    {
        if self.food_id_manager.can_issue() {
            let id = self.food_id_manager.get_id();
            self.place_food(id, x, y, food);
            assert(self.food@.dom() =~= old(self).food@.dom().insert(id));
            assert(self.cells == old(self).cells);
            assert(self.grid.grid == old(self).grid.grid);
            assert(self.grid.cells() == old(self).grid.cells());
            assert(self.cells_indexed());
            Some(id)
        } else {
            None
        }
    }

    /// Takes in a cell under a fresh identifier, which is returned: unless
    /// no identifier is left, when nothing happens.
    pub fn adopt_cell(&mut self, cell: Cell) -> (id: Option<u64>)
        requires
            old(self).wf(),
            spec_in_world(cell.x),
            spec_in_world(cell.y),
        ensures
            final(self).wf(),
            final(self).food == old(self).food,
            final(self).grid.food_grid == old(self).grid.food_grid,
            final(self).food_id_manager == old(self).food_id_manager,
            id is Some <==> old(self).cell_id_manager.spec_can_issue(),
            id is None ==> final(self).cells == old(self).cells && final(self).cell_id_manager
                == old(self).cell_id_manager,
            id matches Some(fresh) ==> {
                &&& !old(self).cells@.contains_key(fresh)
                &&& final(self).cells@ == old(self).cells@.insert(
                    fresh,
                    Cell { id: fresh, ..cell },
                )
                &&& final(self).cell_id_manager.spec_available()
                    == old(self).cell_id_manager.spec_available() - 1
                &&& spec_issues(old(self).cell_id_manager, final(self).cell_id_manager, fresh)
            },
    {
        if self.cell_id_manager.can_issue() {
            let id = self.cell_id_manager.get_id();
            let mut cell = cell;
            cell.id = id;
            self.add_cell(cell);
            assert(self.cells@.dom() =~= old(self).cells@.dom().insert(id));
            assert(self.food == old(self).food);
            assert(self.grid.food() == old(self).grid.food());
            assert(self.food_indexed());
            Some(id)
        } else {
            None
        }
    }

    /// Takes in a population from outside: each cell and each food item
    /// under a fresh identifier, in the order of the lists. The identifiers
    /// are the next that the two managers hand out.
    ///
    /// The population is refused, and nothing changes, where a cell or a
    /// food item lies outside the world or where identifiers run out.
    pub fn init_with_starting(&mut self, cells: Vec<Cell>, food: Vec<Food>) -> (taken: Result<
        (),
        StartError,
    >)
        requires
            old(self).wf(),
        ensures
            final(self).wf(),
            taken is Ok <==> spec_cells_in_world(cells@) && spec_food_in_world(food@)
                && old(self).cell_id_manager.spec_available() >= cells@.len()
                && old(self).food_id_manager.spec_available() >= food@.len(),
            taken == Err::<(), StartError>(StartError::CellOutsideWorld)
                <==> !spec_cells_in_world(cells@),
            taken == Err::<(), StartError>(StartError::FoodOutsideWorld)
                <==> spec_cells_in_world(cells@)
                && !spec_food_in_world(food@),
            taken == Err::<(), StartError>(StartError::OutOfIdentifiers) <==> spec_cells_in_world(
                cells@,
            ) && spec_food_in_world(food@) && (old(self).cell_id_manager.spec_available()
                < cells@.len() || old(self).food_id_manager.spec_available() < food@.len()),
            taken is Err ==> *final(self) == *old(self),
            taken is Ok ==> spec_cells_taken_in(
                old(self).cells@,
                cells@,
                old(self).cell_id_manager.spec_next_ids(cells@.len()),
                final(self).cells@,
            ) && spec_food_taken_in(
                old(self).food@,
                food@,
                old(self).food_id_manager.spec_next_ids(food@.len()),
                final(self).food@,
            ),
    {
        if !all_cells_in_world(&cells) {
            return Err(StartError::CellOutsideWorld);
        }
        if !all_food_in_world(&food) {
            return Err(StartError::FoodOutsideWorld);
        }
        if self.cell_id_manager.available() < cells.len() as u128
            || self.food_id_manager.available() < food.len() as u128 {
            return Err(StartError::OutOfIdentifiers);
        }
        let ghost cell_list = cells@;
        let ghost mut cell_ids: Seq<u64> = Seq::empty();
        proof {
            let given_back = self.cell_id_manager.recycled_ids@;
            assert(given_back.take(given_back.len() as int) =~= given_back);
            assert(cell_ids =~= self.cell_id_manager.spec_next_ids(0));
            let given_back = self.food_id_manager.recycled_ids@;
            assert(given_back.take(given_back.len() as int) =~= given_back);
        }
        for cell in it: cells.into_iter()
            invariant
                it.seq() == cell_list,
                spec_cells_in_world(cell_list),
                self.wf(),
                self.food == old(self).food,
                self.food_id_manager == old(self).food_id_manager,
                self.cell_id_manager.spec_available() == old(self).cell_id_manager.spec_available()
                    - it.index(),
                old(self).cell_id_manager.spec_available() >= cell_list.len(),
                old(self).cell_id_manager.spec_issued_since(
                    it.index() as int,
                    self.cell_id_manager,
                ),
                cell_ids == old(self).cell_id_manager.spec_next_ids(it.index() as nat),
                spec_cells_taken_in(
                    old(self).cells@,
                    cell_list.take(it.index() as int),
                    cell_ids,
                    self.cells@,
                ),
        {
            let ghost before = self.cells@;
            let ghost seen = cell_ids;
            let ghost ids_before = self.cell_id_manager;
            let taken = self.adopt_cell(cell);
            proof {
                let id = taken->Some_0;
                cell_ids = seen.push(id);
                lemma_nth_issued(
                    old(self).cell_id_manager,
                    it.index() as int,
                    ids_before,
                    self.cell_id_manager,
                    id,
                );
                assert(cell_ids =~= old(self).cell_id_manager.spec_next_ids(
                    (it.index() + 1) as nat,
                ));
                let now = cell_list.take(it.index() + 1);
                assert(now[it.index() as int] == cell);
                assert forall|k: u64| #[trigger]
                    self.cells@.contains_key(k) <==> old(self).cells@.contains_key(k)
                        || cell_ids.contains(k) by {
                    lemma_push_contains(seen, id, k);
                }
                assert(!seen.contains(id));
                assert forall|i: int| 0 <= i < cell_ids.len()
                    implies self.cells@[#[trigger] cell_ids[i]]
                    == (Cell { id: cell_ids[i], ..now[i] }) by {
                    if i < seen.len() {
                        assert(seen[i] == cell_ids[i]);
                        assert(seen.contains(seen[i]));
                    }
                }
            }
        }
        let ghost food_list = food@;
        let ghost mut food_ids: Seq<u64> = Seq::empty();
        proof {
            assert(food_ids =~= self.food_id_manager.spec_next_ids(0));
        }
        let ghost cells_done = self.cells@;
        for item in it: food.into_iter()
            invariant
                it.seq() == food_list,
                spec_food_in_world(food_list),
                self.wf(),
                self.cells@ == cells_done,
                self.food_id_manager.spec_available() == old(self).food_id_manager.spec_available()
                    - it.index(),
                old(self).food_id_manager.spec_available() >= food_list.len(),
                old(self).food_id_manager.spec_issued_since(
                    it.index() as int,
                    self.food_id_manager,
                ),
                food_ids == old(self).food_id_manager.spec_next_ids(it.index() as nat),
                spec_food_taken_in(
                    old(self).food@,
                    food_list.take(it.index() as int),
                    food_ids,
                    self.food@,
                ),
        {
            let ghost seen = food_ids;
            let ghost ids_before = self.food_id_manager;
            let (x, y, value) = item;
            let taken = self.add_food(x, y, value);
            proof {
                let id = taken->Some_0;
                food_ids = seen.push(id);
                lemma_nth_issued(
                    old(self).food_id_manager,
                    it.index() as int,
                    ids_before,
                    self.food_id_manager,
                    id,
                );
                assert(food_ids =~= old(self).food_id_manager.spec_next_ids(
                    (it.index() + 1) as nat,
                ));
                let now = food_list.take(it.index() + 1);
                assert(now[it.index() as int] == item);
                assert forall|k: u64| #[trigger]
                    self.food@.contains_key(k) <==> old(self).food@.contains_key(k)
                        || food_ids.contains(k) by {
                    lemma_push_contains(seen, id, k);
                }
                assert(!seen.contains(id));
                assert forall|i: int| 0 <= i < food_ids.len()
                    implies self.food@[#[trigger] food_ids[i]]
                    == now[i] by {
                    if i < seen.len() {
                        assert(seen[i] == food_ids[i]);
                        assert(seen.contains(seen[i]));
                    }
                }
            }
        }
        proof {
            assert(cell_list.take(cell_list.len() as int) =~= cell_list);
            assert(food_list.take(food_list.len() as int) =~= food_list);
        }
        Ok(())
    }

    /// Fills the world from nothing: [`STARTING_CELLS`] newborn cells and
    /// [`STARTING_FOOD`] food items of [`DEFAULT_FOOD_VALUE`], at places
    /// drawn from the world. What is there already stays.
    pub fn init(&mut self)
        requires
            old(self).wf(),
        ensures
            final(self).wf(),
            forall|id: u64| #[trigger]
                old(self).cells@.contains_key(id) ==> final(self).cells@.contains_key(id)
                    && final(self).cells@[id] == old(self).cells@[id],
            forall|id: u64| #[trigger]
                old(self).food@.contains_key(id) ==> final(self).food@.contains_key(id)
                    && final(self).food@[id] == old(self).food@[id],
            forall|id: u64| #[trigger]
                final(self).cells@.contains_key(id) && !old(self).cells@.contains_key(id)
                    ==> spec_is_newborn(final(self).cells@[id]@),
            forall|id: u64| #[trigger]
                final(self).food@.contains_key(id) && !old(self).food@.contains_key(id) ==> {
                    &&& spec_in_world(final(self).food@[id].0)
                    &&& spec_in_world(final(self).food@[id].1)
                    &&& final(self).food@[id].2 == DEFAULT_FOOD_VALUE
                },
            old(self).cell_id_manager.spec_available() >= STARTING_CELLS
                ==> final(self).cells@.len()
                == old(self).cells@.len() + STARTING_CELLS,
            old(self).food_id_manager.spec_available() >= STARTING_FOOD ==> final(self).food@.len()
                == old(self).food@.len() + STARTING_FOOD,
    {
        let mut rng = rand::thread_rng();
        let mut made: usize = 0;
        while made < STARTING_CELLS
            invariant
                made <= STARTING_CELLS,
                self.wf(),
                self.food == old(self).food,
                self.food_id_manager == old(self).food_id_manager,
                forall|id: u64| #[trigger]
                    old(self).cells@.contains_key(id) ==> self.cells@.contains_key(id)
                        && self.cells@[id] == old(self).cells@[id],
                forall|id: u64| #[trigger]
                    self.cells@.contains_key(id) && !old(self).cells@.contains_key(id)
                        ==> spec_is_newborn(self.cells@[id]@),
                old(self).cell_id_manager.spec_available() >= STARTING_CELLS ==> {
                    &&& self.cells@.len() == old(self).cells@.len() + made
                    &&& self.cell_id_manager.spec_available()
                        == old(self).cell_id_manager.spec_available() - made
                },
            decreases STARTING_CELLS - made,
        {
            let cell = Cell::new(0, FxHashMap::default());
            let ghost born = cell@;
            let taken = self.adopt_cell(cell);
            proof {
                if let Some(id) = taken {
                    assert(spec_is_newborn(self.cells@[id]@));
                }
            }
            made += 1;
        }
        let ghost cells_done = self.cells;
        let mut laid: usize = 0;
        while laid < STARTING_FOOD
            invariant
                laid <= STARTING_FOOD,
                self.wf(),
                self.cells == cells_done,
                forall|id: u64| #[trigger]
                    old(self).food@.contains_key(id) ==> self.food@.contains_key(id)
                        && self.food@[id] == old(self).food@[id],
                forall|id: u64| #[trigger]
                    self.food@.contains_key(id) && !old(self).food@.contains_key(id) ==> {
                        &&& spec_in_world(self.food@[id].0)
                        &&& spec_in_world(self.food@[id].1)
                        &&& self.food@[id].2 == DEFAULT_FOOD_VALUE
                    },
                old(self).food_id_manager.spec_available() >= STARTING_FOOD ==> {
                    &&& self.food@.len() == old(self).food@.len() + laid
                    &&& self.food_id_manager.spec_available()
                        == old(self).food_id_manager.spec_available() - laid
                },
            decreases STARTING_FOOD - laid,
        {
            let x = draw_between(&mut rng, 0, WORLD_EXTENT - 1);
            let y = draw_between(&mut rng, 0, WORLD_EXTENT - 1);
            self.add_food(x, y, DEFAULT_FOOD_VALUE);
            laid += 1;
        }
    }

    /// Takes the cell `id` out of the world, if it is there, and takes its
    /// identifier back.
    pub fn remove_cell(&mut self, id: u64)
        requires
            old(self).wf(),
        ensures
            final(self).wf(),
            final(self).cells@ == old(self).cells@.remove(id),
            final(self).food == old(self).food,
            final(self).grid.food_grid == old(self).grid.food_grid,
            final(self).food_id_manager == old(self).food_id_manager,
            old(self).cells@.contains_key(id) ==> final(self).cell_id_manager.recycled_ids@
                == old(self).cell_id_manager.recycled_ids@.push(id)
                && final(self).cell_id_manager.next_id == old(self).cell_id_manager.next_id,
            !old(self).cells@.contains_key(id) ==> final(self).cell_id_manager
                == old(self).cell_id_manager,
    {
        match map_remove(&mut self.cells, &id) {
            Some(cell) => {
                self.grid.remove_cell(cell.x, cell.y, id);
                self.cell_id_manager.restore_id(id);
                assert(self.cells@.dom() =~= old(self).cells@.dom().remove(id));
                assert(self.cells_indexed());
                assert(self.food == old(self).food);
                assert(self.grid.food() == old(self).grid.food());
                assert(self.food_indexed());
            },
            None => {
                assert(self.cells@ =~= old(self).cells@);
            },
        }
    }

    /// Takes the food item `id` out of the world, if it is there, and takes
    /// its identifier back.
    pub fn remove_food(&mut self, id: u64)
        requires
            old(self).wf(),
        ensures
            final(self).wf(),
            final(self).food@ == old(self).food@.remove(id),
            final(self).cells == old(self).cells,
            final(self).grid.grid == old(self).grid.grid,
            final(self).cell_id_manager == old(self).cell_id_manager,
            old(self).food@.contains_key(id) ==> final(self).food_id_manager.recycled_ids@
                == old(self).food_id_manager.recycled_ids@.push(id)
                && final(self).food_id_manager.next_id == old(self).food_id_manager.next_id,
            !old(self).food@.contains_key(id) ==> final(self).food_id_manager
                == old(self).food_id_manager,
    {
        match map_remove(&mut self.food, &id) {
            Some(food) => {
                self.grid.remove_food(food.0, food.1, id);
                self.food_id_manager.restore_id(id);
                assert(self.food@.dom() =~= old(self).food@.dom().remove(id));
                assert(self.food_indexed());
                assert(self.cells == old(self).cells);
                assert(self.grid.cells() == old(self).grid.cells());
                assert(self.cells_indexed());
            },
            None => {
                assert(self.food@ =~= old(self).food@);
            },
        }
    }

    /// The living cells, by identifier.
    pub fn get_cells(&self) -> (cells: &FxHashMap<u64, Cell>)
        ensures
            *cells == self.cells,
    {
        &self.cells
    }

    /// A copy of the living cells, by identifier.
    pub fn get_cells_cloned(&self) -> (cells: FxHashMap<u64, Cell>)
        ensures
            cells@ == self.cells@,
    {
        self.cells.clone()
    }

    /// A copy of the food items, by identifier.
    pub fn get_food_cloned(&self) -> (food: FxHashMap<u64, Food>)
        ensures
            food@ == self.food@,
    {
        self.food.clone()
    }
}

/// Whether two cells differ at most in their identifier.
pub open spec fn spec_same_but_id(one: CellView, other: CellView) -> bool {
    other == (CellView { id: other.id, ..one })
}

/// A population that is written out and taken in by an empty world comes
/// back as it was, but for the identifiers.
///
/// Let `list` hold a copy of each cell of `exported`, in the order `keys`,
/// and let an empty world take the list in under the identifiers `ids`.
/// Then the cells of the new world are, one for one, the cells of the old:
/// the cell under `ids[i]` is the cell that was under `keys[i]` in place,
/// food reserve, genome and all else but the identifier, and there are no
/// others on either side.
pub proof fn lemma_cells_round_trip(
    exported: Map<u64, Cell>,
    keys: Seq<u64>,
    list: Seq<Cell>,
    ids: Seq<u64>,
    restored: Map<u64, Cell>,
)
    requires
        spec_lists_keys(keys, exported),
        list.len() == keys.len(),
        forall|i: int| 0 <= i < keys.len() ==> (#[trigger] list[i])@ == exported[keys[i]]@,
        spec_cells_taken_in(Map::empty(), list, ids, restored),
    ensures
        ids.len() == keys.len(),
        keys.no_duplicates(),
        ids.no_duplicates(),
        forall|i: int|
            0 <= i < keys.len() ==> exported.contains_key(#[trigger] keys[i])
                && restored.contains_key(ids[i]) && spec_same_but_id(
                exported[keys[i]]@,
                restored[ids[i]]@,
            ),
        forall|key: u64| #[trigger] exported.contains_key(key) ==> keys.contains(key),
        forall|id: u64| #[trigger] restored.contains_key(id) ==> ids.contains(id),
{
    assert forall|i: int| 0 <= i < keys.len() implies exported.contains_key(#[trigger] keys[i])
        && restored.contains_key(ids[i]) && spec_same_but_id(
        exported[keys[i]]@,
        restored[ids[i]]@,
    ) by {
        assert(keys.to_set().contains(keys[i]));
        assert(ids.contains(ids[i]));
        assert(restored[ids[i]] == (Cell { id: ids[i], ..list[i] }));
        assert(list[i]@ == exported[keys[i]]@);
    }
    assert forall|key: u64| #[trigger] exported.contains_key(key) implies keys.contains(key) by {
        assert(keys.to_set().contains(key));
    }
}

/// Food that is written out and taken in by an empty world comes back as it
/// was, but for the identifiers: the item under `ids[i]` is the item that
/// was under `keys[i]`, and there are no others on either side.
pub proof fn lemma_food_round_trip(
    exported: Map<u64, Food>,
    keys: Seq<u64>,
    list: Seq<Food>,
    ids: Seq<u64>,
    restored: Map<u64, Food>,
)
    requires
        keys.no_duplicates(),
        keys.to_set() == exported.dom(),
        list.len() == keys.len(),
        forall|i: int| 0 <= i < keys.len() ==> #[trigger] list[i] == exported[keys[i]],
        spec_food_taken_in(Map::empty(), list, ids, restored),
    ensures
        ids.len() == keys.len(),
        ids.no_duplicates(),
        forall|i: int|
            0 <= i < keys.len() ==> exported.contains_key(#[trigger] keys[i])
                && restored.contains_key(ids[i]) && restored[ids[i]] == exported[keys[i]],
        forall|key: u64| #[trigger] exported.contains_key(key) ==> keys.contains(key),
        forall|id: u64| #[trigger] restored.contains_key(id) ==> ids.contains(id),
{
    assert forall|i: int| 0 <= i < keys.len() implies exported.contains_key(#[trigger] keys[i])
        && restored.contains_key(ids[i]) && restored[ids[i]] == exported[keys[i]] by {
        assert(keys.to_set().contains(keys[i]));
        assert(ids.contains(ids[i]));
        assert(restored[ids[i]] == list[i]);
    }
    assert forall|key: u64| #[trigger] exported.contains_key(key) implies keys.contains(key) by {
        assert(keys.to_set().contains(key));
    }
}

/// Whether every cell of the list lies in the world.
pub fn all_cells_in_world(cells: &Vec<Cell>) -> (yes: bool)
    ensures
        yes == spec_cells_in_world(cells@),
{
    let mut index: usize = 0;
    while index < cells.len()
        invariant
            index <= cells@.len(),
            forall|i: int|
                0 <= i < index ==> spec_in_world((#[trigger] cells@[i]).x) && spec_in_world(
                    cells@[i].y,
                ),
        decreases cells@.len() - index,
    {
        let (x, y) = (cells[index].x, cells[index].y);
        if x < 0 || x >= WORLD_EXTENT || y < 0 || y >= WORLD_EXTENT {
            return false;
        }
        index += 1;
    }
    true
}

/// Whether every food item of the list lies in the world.
pub fn all_food_in_world(food: &Vec<Food>) -> (yes: bool)
    ensures
        yes == spec_food_in_world(food@),
{
    let mut index: usize = 0;
    while index < food.len()
        invariant
            index <= food@.len(),
            forall|i: int|
                0 <= i < index ==> spec_in_world((#[trigger] food@[i]).0) && spec_in_world(
                    food@[i].1,
                ),
        decreases food@.len() - index,
    {
        let (x, y) = (food[index].0, food[index].1);
        if x < 0 || x >= WORLD_EXTENT || y < 0 || y >= WORLD_EXTENT {
            return false;
        }
        index += 1;
    }
    true
}

} // verus!
