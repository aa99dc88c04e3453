use cellsim::cell::{Cell, ReadableCell};
use cellsim::cell_manager::{CellManager, Food, StartError};
use cellsim::config::{
    CELL_STARTING_FOOD, DEFAULT_CELL_FOOD_VALUE, DEFAULT_FOOD_VALUE, FOOD_ADDED_PER_FRAME,
    FOOD_FORCE, MAX_CELLS, MAX_FOOD, STARTING_CELLS, STARTING_FOOD, TOXIN_FORCE, WORLD_EXTENT,
};
use cellsim::dna::{Codon, PrimaryBases, DNA};
use cellsim::fixed::{whole, Fixed, SCALE};
use cellsim::grid::SpatialGrid;
use rustc_hash::FxHashMap;

fn codon(kind: PrimaryBases, secondary: u16, tertiary: Fixed) -> Codon {
    Codon { primary_base: kind, secondary_base: secondary, tertiary_base: tertiary }
}

fn cell_at(dna: Vec<Codon>, x: Fixed, y: Fixed) -> Cell {
    Cell::_new(0, FxHashMap::default(), DNA(dna), x, y).0
}

fn food_lover(x: Fixed, y: Fixed) -> Cell {
    cell_at(vec![codon(PrimaryBases::Attraction, FOOD_FORCE, SCALE)], x, y)
}

fn quiet(x: Fixed, y: Fixed) -> Cell {
    cell_at(vec![], x, y)
}

fn world_of(cells: Vec<Cell>, food: Vec<Food>) -> CellManager {
    let mut world = CellManager::new();
    assert_eq!(world.init_with_starting(cells, food), Ok(()));
    world
}

fn keys(world: &CellManager) -> Vec<u64> {
    let mut keys: Vec<u64> = world.get_cells().keys().copied().collect();
    keys.sort();
    keys
}

fn assert_sound(world: &CellManager) {
    let mut listed = 0;
    for (index, bucket) in world.grid.grid.iter().enumerate() {
        for id in bucket {
            let cell = &world.cells[id];
            assert_eq!(cell.id, *id);
            assert!(0 <= cell.x && cell.x < WORLD_EXTENT);
            assert!(0 <= cell.y && cell.y < WORLD_EXTENT);
            assert_eq!(SpatialGrid::get_cell_grid_index(cell.x, cell.y), index);
            listed += 1;
        }
    }
    assert_eq!(listed, world.cells.len());
    let mut listed = 0;
    for (index, bucket) in world.grid.food_grid.iter().enumerate() {
        for id in bucket {
            let item = &world.food[id];
            assert_eq!(SpatialGrid::get_cell_grid_index(item.0, item.1), index);
            listed += 1;
        }
    }
    assert_eq!(listed, world.food.len());
    for id in world.cell_id_manager.recycled_ids.iter() {
        assert!(!world.cells.contains_key(id));
        assert!(*id < world.cell_id_manager.next_id);
    }
    for id in world.cells.keys() {
        assert!(*id < world.cell_id_manager.next_id);
    }
    for id in world.food_id_manager.recycled_ids.iter() {
        assert!(!world.food.contains_key(id));
    }
    for id in world.food.keys() {
        assert!(*id < world.food_id_manager.next_id);
    }
}

#[test]
fn new_world_is_empty() {
    let world = CellManager::new();
    assert!(world.get_cells().is_empty());
    assert!(world.get_cells_cloned().is_empty());
    assert!(world.get_food_cloned().is_empty());
    assert_sound(&world);
}

#[test]
fn init_fills_the_world() {
    let mut world = CellManager::new();
    world.init();
    assert_eq!(world.get_cells().len(), STARTING_CELLS);
    assert_eq!(world.get_food_cloned().len(), STARTING_FOOD);
    assert_eq!(keys(&world), (0..STARTING_CELLS as u64).collect::<Vec<u64>>());
    for cell in world.get_cells().values() {
        assert!(0 <= cell.x && cell.x < WORLD_EXTENT);
        assert!(0 <= cell.y && cell.y < WORLD_EXTENT);
        assert_eq!(cell.food, CELL_STARTING_FOOD);
        assert_eq!(cell.dna.get_codon_count(), 1);
    }
    for item in world.get_food_cloned().values() {
        assert!(0 <= item.0 && item.0 < WORLD_EXTENT);
        assert!(0 <= item.1 && item.1 < WORLD_EXTENT);
        assert_eq!(item.2, DEFAULT_FOOD_VALUE);
    }
    assert_sound(&world);
}

#[test]
fn init_keeps_what_is_there() {
    let mut world = world_of(vec![quiet(whole(5), whole(5))], vec![(whole(1), whole(2), whole(3))]);
    world.init();
    assert_eq!(world.get_cells().len(), STARTING_CELLS + 1);
    assert_eq!(world.get_food_cloned().len(), STARTING_FOOD + 1);
    assert_eq!(world.cells[&0].dna.get_codon_count(), 0);
    assert_eq!(world.food[&0], (whole(1), whole(2), whole(3)));
    assert_sound(&world);
}

#[test]
fn starting_population_gets_fresh_identifiers_in_order() {
    let mut first = quiet(whole(10), whole(20));
    first.id = 77;
    first.food = whole(12);
    let mut second = food_lover(whole(1500), whole(300));
    second.id = 77;
    let world = world_of(
        vec![first, second],
        vec![(whole(1), whole(2), whole(3)), (whole(1999), 0, whole(-4))],
    );
    assert_eq!(keys(&world), vec![0, 1]);
    assert_eq!(world.cells[&0].id, 0);
    assert_eq!(world.cells[&1].id, 1);
    assert_eq!((world.cells[&0].x, world.cells[&0].y), (whole(10), whole(20)));
    assert_eq!(world.cells[&0].food, whole(12));
    assert_eq!(world.cells[&1].dna.get_codon_count(), 1);
    assert_eq!(world.cells[&1].attractions[&FOOD_FORCE], SCALE);
    assert_eq!(world.food[&0], (whole(1), whole(2), whole(3)));
    assert_eq!(world.food[&1], (whole(1999), 0, whole(-4)));
    assert_eq!(world.cell_id_manager.next_id, 2);
    assert_eq!(world.food_id_manager.next_id, 2);
    assert_sound(&world);
}

#[test]
fn cell_outside_the_world_is_refused() {
    let mut world = world_of(vec![quiet(0, 0)], vec![]);
    let taken = world.init_with_starting(
        vec![quiet(whole(5), whole(5)), quiet(WORLD_EXTENT, whole(5))],
        vec![(WORLD_EXTENT, 0, 0)],
    );
    assert_eq!(taken, Err(StartError::CellOutsideWorld));
    assert_eq!(world.get_cells().len(), 1);
    assert!(world.get_food_cloned().is_empty());
    let taken = world.init_with_starting(vec![quiet(whole(5), i64::MAX)], vec![]);
    assert_eq!(taken, Err(StartError::CellOutsideWorld));
    assert_sound(&world);
}

#[test]
fn food_outside_the_world_is_refused() {
    let mut world = CellManager::new();
    let taken = world.init_with_starting(
        vec![quiet(whole(5), whole(5))],
        vec![(0, 0, 0), (whole(5), WORLD_EXTENT, whole(1))],
    );
    assert_eq!(taken, Err(StartError::FoodOutsideWorld));
    assert!(world.get_cells().is_empty());
    assert!(world.get_food_cloned().is_empty());
    assert_sound(&world);
}

#[test]
fn population_is_refused_when_identifiers_run_out() {
    let mut world = CellManager::new();
    world.cell_id_manager.next_id = u64::MAX - 1;
    let taken =
        world.init_with_starting(vec![quiet(0, 0), quiet(whole(1), 0)], vec![(0, 0, 0)]);
    assert_eq!(taken, Err(StartError::OutOfIdentifiers));
    assert!(world.get_cells().is_empty());
    assert!(world.get_food_cloned().is_empty());
    assert_eq!(world.init_with_starting(vec![quiet(0, 0)], vec![(0, 0, 0)]), Ok(()));
    assert_eq!(keys(&world), vec![u64::MAX - 1]);
    assert_eq!(world.adopt_cell(quiet(0, 0)), None);
    world.food_id_manager.next_id = u64::MAX;
    assert_eq!(world.add_food(0, 0, 0), None);
    assert_eq!(world.get_food_cloned().len(), 1);
}

#[test]
fn negative_place_is_outside_the_world() {
    let mut world = CellManager::new();
    let taken = world.init_with_starting(vec![quiet(-1, whole(5))], vec![]);
    assert_eq!(taken, Err(StartError::CellOutsideWorld));
    let taken = world.init_with_starting(vec![quiet(whole(5), whole(-5))], vec![]);
    assert_eq!(taken, Err(StartError::CellOutsideWorld));
    let taken = world.init_with_starting(vec![quiet(0, 0)], vec![(whole(5), -1, whole(1))]);
    assert_eq!(taken, Err(StartError::FoodOutsideWorld));
    assert!(world.get_cells().is_empty());
    assert_eq!(world.init_with_starting(vec![quiet(0, 0)], vec![(0, 0, whole(1))]), Ok(()));
    assert!(world.grid.grid[0].contains(&0));
    assert!(world.grid.food_grid[0].contains(&0));
    assert_sound(&world);
}

fn population(world: &CellManager) -> Vec<(Fixed, Fixed, Fixed, Vec<(u8, u16, Fixed)>)> {
    let mut cells: Vec<(Fixed, Fixed, Fixed, Vec<(u8, u16, Fixed)>)> = world
        .get_cells_cloned()
        .into_values()
        .map(|cell| {
            let dna = cell
                .dna
                .0
                .iter()
                .map(|c| (c.primary_base.code(), c.secondary_base, c.tertiary_base))
                .collect();
            (cell.x, cell.y, cell.food, dna)
        })
        .collect();
    cells.sort();
    cells
}

#[test]
fn written_out_and_taken_in_the_population_is_the_same() {
    let mut world = CellManager::new();
    world.init();
    for _ in 0..5 {
        world.update();
    }
    let cells: Vec<Cell> = world.get_cells_cloned().into_values().collect();
    let mut food: Vec<Food> = world.get_food_cloned().into_values().collect();
    let mut restored = CellManager::new();
    assert_eq!(restored.init_with_starting(cells, food.clone()), Ok(()));
    assert_eq!(population(&restored), population(&world));
    let mut restored_food: Vec<Food> = restored.get_food_cloned().into_values().collect();
    restored_food.sort();
    food.sort();
    assert_eq!(restored_food, food);
    assert_eq!(keys(&restored), (0..world.get_cells().len() as u64).collect::<Vec<u64>>());
    for (id, cell) in restored.get_cells() {
        assert_eq!(cell.id, *id);
    }
    assert_sound(&restored);
}

#[test]
fn food_in_range_pulls_and_food_beyond_does_not() {
    let mut near = world_of(
        vec![food_lover(whole(500), whole(500))],
        vec![(whole(510), whole(500), whole(25))],
    );
    near.emit_forces(&vec![0]);
    assert_eq!(near.cells[&0].next_x, 502_500_000);
    assert_eq!(near.cells[&0].next_y, whole(500));
    assert_eq!(near.cells[&0].last_forces[&FOOD_FORCE], whole(25));

    let mut far = world_of(
        vec![food_lover(whole(500), whole(500))],
        vec![(whole(650), whole(500), whole(25))],
    );
    far.emit_forces(&vec![0]);
    assert_eq!(far.cells[&0].next_x, whole(500));
    assert_eq!(far.cells[&0].next_y, whole(500));
    assert!(far.cells[&0].last_forces.is_empty());

    let mut edge = world_of(
        vec![food_lover(whole(500), whole(500))],
        vec![(whole(600), whole(500), whole(25)), (whole(599), whole(500), whole(99))],
    );
    edge.emit_forces(&vec![0]);
    assert_eq!(edge.cells[&0].last_forces[&FOOD_FORCE], whole(99));
    assert!(edge.cells[&0].next_x > whole(500));
}

#[test]
fn food_in_a_touching_bucket_pulls() {
    let mut world = world_of(
        vec![food_lover(whole(599), whole(500))],
        vec![(whole(700), whole(500), whole(25)), (whole(601), whole(401), whole(7))],
    );
    world.emit_forces(&vec![0]);
    assert_eq!(world.cells[&0].last_forces[&FOOD_FORCE], whole(7));
    assert!(world.cells[&0].next_x > whole(599));
    assert!(world.cells[&0].next_y < whole(500));
}

#[test]
fn cells_send_their_emissions_to_others_only() {
    let emitter = cell_at(
        vec![
            codon(PrimaryBases::Emission, TOXIN_FORCE, whole(2)),
            codon(PrimaryBases::Emission, 6, whole(3)),
        ],
        whole(500),
        whole(500),
    );
    let receiver = cell_at(vec![codon(PrimaryBases::Attraction, 6, SCALE)], whole(510), whole(500));
    let bystander = food_lover(whole(900), whole(900));
    let mut world = world_of(vec![emitter, receiver, bystander], vec![]);
    world.emit_forces(&vec![0, 1, 2]);
    assert!(world.cells[&0].last_forces.is_empty());
    assert_eq!(world.cells[&0].food, CELL_STARTING_FOOD);
    assert_eq!(world.cells[&1].last_forces[&TOXIN_FORCE], whole(2));
    assert_eq!(world.cells[&1].last_forces[&6], whole(3));
    assert_eq!(world.cells[&1].food, whole(40));
    assert_eq!(world.cells[&1].next_x, whole(510) - 300_000);
    assert!(world.cells[&2].last_forces.is_empty());
    assert_eq!(world.cells[&2].next_x, whole(900));
    assert_sound(&world);
}

#[test]
fn only_listed_cells_emit() {
    let emitter = cell_at(vec![codon(PrimaryBases::Emission, 6, whole(3))], whole(500), whole(500));
    let mut world = world_of(vec![emitter, quiet(whole(510), whole(500))], vec![]);
    world.emit_forces(&vec![1, 55]);
    assert!(world.cells[&1].last_forces.is_empty());
    world.emit_forces(&vec![0]);
    assert_eq!(world.cells[&1].last_forces[&6], whole(3));
}

#[test]
fn integrate_moves_cells_and_the_grid_follows() {
    let mut world = world_of(vec![quiet(whole(500), whole(500)), quiet(whole(20), whole(20))], vec![]);
    world.cells.get_mut(&0).unwrap().next_x = whole(720);
    world.integrate(&vec![0]);
    assert_eq!(world.cells[&0].x, whole(720));
    assert_eq!(world.cells[&0].iterations, 1);
    assert_eq!(world.cells[&0].food, CELL_STARTING_FOOD - 1_000_000 - 4_400_000);
    assert!(world.grid.grid[5 * 20 + 7].contains(&0));
    assert!(world.grid.grid[5 * 20 + 5].is_empty());
    assert_eq!(world.cells[&1].iterations, 0);
    assert_eq!(world.cells[&1].food, CELL_STARTING_FOOD);
    world.step_cell(9);
    assert_sound(&world);
}

#[test]
fn cell_eats_food_within_its_reach() {
    let mut world = world_of(
        vec![quiet(whole(500), whole(500))],
        vec![
            (whole(504), whole(500), whole(25)),
            (whole(500), whole(495), whole(10)),
            (whole(503), whole(497), whole(3)),
            (whole(499), whole(499), whole(-1)),
        ],
    );
    world.attempt_to_eat(0);
    assert_eq!(world.cells[&0].food, CELL_STARTING_FOOD + whole(24));
    let mut left: Vec<u64> = world.food.keys().copied().collect();
    left.sort();
    assert_eq!(left, vec![1, 2]);
    let mut back = world.food_id_manager.recycled_ids.clone();
    back.sort();
    assert_eq!(back, vec![0, 3]);
    assert_sound(&world);
    world.attempt_to_eat(5);
    assert_eq!(world.food.len(), 2);
}

#[test]
fn cell_eats_across_bucket_borders() {
    let mut world = world_of(
        vec![quiet(whole(500), whole(500))],
        vec![(whole(499), whole(499), whole(5)), (whole(300), whole(500), whole(5))],
    );
    world.cells.get_mut(&0).unwrap().size = whole(1_000_000);
    world.feed(&vec![0]);
    assert_eq!(world.cells[&0].food, CELL_STARTING_FOOD + whole(5));
    assert_eq!(world.food.len(), 1);
    assert!(world.food.contains_key(&1));
}

#[test]
fn first_cell_in_the_list_eats_contested_food() {
    let cells = vec![quiet(whole(500), whole(500)), quiet(whole(502), whole(500))];
    let food = vec![(whole(501), whole(500), whole(25))];
    let mut world = world_of(cells.clone(), food.clone());
    world.feed(&vec![0, 1]);
    assert_eq!(world.cells[&0].food, CELL_STARTING_FOOD + whole(25));
    assert_eq!(world.cells[&1].food, CELL_STARTING_FOOD);
    assert!(world.food.is_empty());
    let mut world = world_of(cells, food);
    world.feed(&vec![1, 0]);
    assert_eq!(world.cells[&0].food, CELL_STARTING_FOOD);
    assert_eq!(world.cells[&1].food, CELL_STARTING_FOOD + whole(25));
}

#[test]
fn dead_cell_leaves_the_world_and_leaves_food() {
    let mut starved = quiet(whole(700), whole(300));
    starved.food = 0;
    let mut world = world_of(vec![starved, quiet(whole(10), whole(10))], vec![]);
    assert!(world.cells[&0].is_dead());
    world.cull(&vec![0, 1]);
    assert_eq!(keys(&world), vec![1]);
    assert_eq!(world.food.len(), 1);
    assert_eq!(world.food[&0], (whole(700), whole(300), DEFAULT_CELL_FOOD_VALUE));
    assert_eq!(world.cell_id_manager.recycled_ids, vec![0]);
    assert!(world.grid.grid[3 * 20 + 7].is_empty());
    assert!(world.grid.food_grid[3 * 20 + 7].contains(&0));
    assert_sound(&world);
}

#[test]
fn dead_cell_is_gone_after_a_tick() {
    let mut starved = quiet(whole(700), whole(300));
    starved.food = whole(-1);
    let mut world = world_of(vec![starved], vec![]);
    world.update();
    assert!(world.get_cells().is_empty());
    let food: Vec<Food> = world.get_food_cloned().into_values().collect();
    assert_eq!(food.len(), 1 + FOOD_ADDED_PER_FRAME);
    assert!(food.contains(&(whole(700), whole(300), DEFAULT_CELL_FOOD_VALUE)));
    assert_sound(&world);
}

#[test]
fn only_listed_dead_cells_are_culled() {
    let mut starved = quiet(whole(700), whole(300));
    starved.food = 0;
    let mut world = world_of(vec![starved], vec![]);
    world.cull(&vec![4]);
    assert_eq!(keys(&world), vec![0]);
    world.cull(&vec![0, 0]);
    assert!(world.get_cells().is_empty());
    assert_eq!(world.food.len(), 1);
}

#[test]
fn dead_cell_leaves_no_food_in_a_full_world() {
    let mut starved = quiet(whole(700), whole(300));
    starved.food = 0;
    let food: Vec<Food> = (0..MAX_FOOD).map(|_| (whole(1900), whole(1900), whole(1))).collect();
    let mut world = world_of(vec![starved], food);
    world.cull(&vec![0]);
    assert!(world.get_cells().is_empty());
    assert_eq!(world.food.len(), MAX_FOOD);
    assert_sound(&world);
}

fn steady_parent(x: Fixed, y: Fixed) -> Cell {
    let mut cell = cell_at(
        vec![
            codon(PrimaryBases::GlobalMutationRate, 0, 0),
            codon(PrimaryBases::AddCodonMutationRate, 0, 0),
            codon(PrimaryBases::RemoveCodonMutationRate, 0, 0),
        ],
        x,
        y,
    );
    cell.food = whole(60);
    cell
}

#[test]
fn cell_with_food_replicates_and_pays() {
    let mut parent = steady_parent(whole(700), whole(300));
    parent.receive(4, whole(1), 0, 0);
    let mut world = world_of(vec![parent, quiet(whole(10), whole(10))], vec![]);
    world.replicate(&vec![0, 1]);
    assert_eq!(keys(&world), vec![0, 1, 2]);
    assert_eq!(world.cells[&0].food, whole(30));
    assert!(world.cells[&0].last_forces.is_empty());
    assert_eq!(world.cells[&1].food, CELL_STARTING_FOOD);
    let child = &world.cells[&2];
    assert_eq!(child.id, 2);
    assert_eq!((child.x, child.y), (whole(699), whole(299)));
    assert_eq!(child.food, CELL_STARTING_FOOD);
    assert_sound(&world);
}

#[test]
fn child_takes_a_recycled_identifier() {
    let mut starved = quiet(whole(10), whole(10));
    starved.food = 0;
    let mut world = world_of(vec![starved, steady_parent(whole(700), whole(300))], vec![]);
    world.cull(&vec![0, 1]);
    world.replicate(&vec![1]);
    assert_eq!(keys(&world), vec![0, 1]);
    assert_eq!((world.cells[&0].x, world.cells[&0].y), (whole(699), whole(299)));
    assert!(world.cell_id_manager.recycled_ids.is_empty());
    assert_sound(&world);
}

#[test]
fn child_at_the_edge_steps_into_the_world() {
    let mut world = world_of(vec![steady_parent(0, whole(1999))], vec![]);
    world.replicate(&vec![0]);
    assert_eq!((world.cells[&1].x, world.cells[&1].y), (whole(1), whole(1998)));
    let mut world = world_of(vec![steady_parent(500_000, 500_000)], vec![]);
    world.replicate(&vec![0]);
    assert_eq!((world.cells[&1].x, world.cells[&1].y), (1_500_000, 1_500_000));
    let mut world = world_of(vec![steady_parent(SCALE, SCALE - 1)], vec![]);
    world.replicate(&vec![0]);
    assert_eq!((world.cells[&1].x, world.cells[&1].y), (0, 2 * SCALE - 1));
    let mut world = world_of(vec![steady_parent(WORLD_EXTENT - 1, WORLD_EXTENT - 1)], vec![]);
    world.replicate(&vec![0]);
    assert_eq!(
        (world.cells[&1].x, world.cells[&1].y),
        (WORLD_EXTENT - 1 - SCALE, WORLD_EXTENT - 1 - SCALE)
    );
    assert_sound(&world);
}

#[test]
fn no_cell_replicates_in_a_full_world() {
    let mut cells: Vec<Cell> = (0..MAX_CELLS - 1).map(|_| quiet(whole(10), whole(10))).collect();
    cells.push(steady_parent(whole(700), whole(300)));
    cells.push(steady_parent(whole(900), whole(300)));
    let last = MAX_CELLS as u64;
    let mut world = world_of(cells, vec![]);
    assert_eq!(world.get_cells().len(), MAX_CELLS + 1);
    world.replicate(&vec![last - 1, last]);
    assert_eq!(world.get_cells().len(), MAX_CELLS + 1);
    assert_eq!(world.cells[&last].food, whole(60));
    world.remove_cell(0);
    world.remove_cell(1);
    world.replicate(&vec![last - 1, last]);
    assert_eq!(world.get_cells().len(), MAX_CELLS);
    assert_eq!(world.cells[&(last - 1)].food, whole(30));
    assert_eq!(world.cells[&last].food, whole(60));
    assert_sound(&world);
}

#[test]
fn replenish_lays_down_food_up_to_the_cap() {
    let mut rng = rand::thread_rng();
    let mut world = CellManager::new();
    world.replenish(&mut rng);
    assert_eq!(world.food.len(), FOOD_ADDED_PER_FRAME);
    for item in world.food.values() {
        assert!(0 <= item.0 && item.0 < WORLD_EXTENT);
        assert!(0 <= item.1 && item.1 < WORLD_EXTENT);
        assert_eq!(item.2, DEFAULT_FOOD_VALUE);
    }
    let food: Vec<Food> = (0..MAX_FOOD - 11).map(|_| (0, 0, 0)).collect();
    assert_eq!(world.init_with_starting(vec![], food), Ok(()));
    assert_eq!(world.food.len(), MAX_FOOD - 1);
    world.replenish(&mut rng);
    assert_eq!(world.food.len(), MAX_FOOD + 9);
    world.replenish(&mut rng);
    assert_eq!(world.food.len(), MAX_FOOD + 9);
    assert_sound(&world);
}

#[test]
fn tick_runs_the_phases_in_order() {
    let mut eater = quiet(whole(500), whole(500));
    eater.food = 1_000_000;
    let mut starving = quiet(whole(900), whole(900));
    starving.food = 1_000_000;
    let mut world = world_of(
        vec![eater, starving],
        vec![(whole(501), whole(500), whole(25))],
    );
    world.update();
    assert_eq!(keys(&world), vec![0]);
    assert_eq!(world.cells[&0].food, whole(25));
    assert_eq!(world.cells[&0].iterations, 1);
    let food: Vec<Food> = world.get_food_cloned().into_values().collect();
    assert_eq!(food.len(), 1 + FOOD_ADDED_PER_FRAME);
    assert!(food.contains(&(whole(900), whole(900), DEFAULT_CELL_FOOD_VALUE)));
    assert_sound(&world);
}

#[test]
fn child_is_not_processed_in_the_tick_of_its_birth() {
    let mut parent = steady_parent(whole(700), whole(300));
    parent.food = whole(200);
    let mut world = world_of(vec![parent], vec![]);
    world.update();
    assert_eq!(keys(&world), vec![0, 1]);
    assert_eq!(world.cells[&1].iterations, 0);
    assert_eq!(world.cells[&1].food, CELL_STARTING_FOOD);
    assert_eq!(world.cells[&0].iterations, 1);
}

#[test]
fn world_stays_sound_over_many_ticks() {
    let mut world = CellManager::new();
    world.init();
    for _ in 0..60 {
        world.update();
        assert_sound(&world);
        assert!(world.get_cells().len() <= MAX_CELLS.max(STARTING_CELLS));
        for cell in world.get_cells().values() {
            assert!(0 <= cell.x && cell.x < WORLD_EXTENT);
            assert!(0 <= cell.y && cell.y < WORLD_EXTENT);
        }
    }
}

#[test]
fn removed_entities_give_their_identifiers_back() {
    let mut world = world_of(
        vec![quiet(0, 0), quiet(whole(1), 0)],
        vec![(0, 0, 0), (whole(1), 0, 0)],
    );
    world.remove_cell(0);
    world.remove_food(1);
    world.remove_cell(0);
    world.remove_food(7);
    assert_eq!(keys(&world), vec![1]);
    assert_eq!(world.cell_id_manager.recycled_ids, vec![0]);
    assert_eq!(world.food_id_manager.recycled_ids, vec![1]);
    assert_eq!(world.adopt_cell(quiet(whole(3), 0)), Some(0));
    assert_eq!(world.add_food(whole(3), 0, whole(2)), Some(1));
    assert_eq!(world.food[&1], (whole(3), 0, whole(2)));
    assert_sound(&world);
}

#[test]
fn readable_cell_lays_out_the_genome() {
    let mut cell = cell_at(
        vec![
            codon(PrimaryBases::DisableCodon, 4, whole(1)),
            codon(PrimaryBases::GlobalMutationRate, 0, 300_000),
            codon(PrimaryBases::IndividualMutationRate, 2, 400_000),
            codon(PrimaryBases::Emission, 6, whole(3)),
        ],
        whole(12),
        whole(34),
    );
    cell.receive(4, whole(1), 0, 0);
    let record = ReadableCell::new(&cell);
    assert_eq!((record.x, record.y, record.food), (whole(12), whole(34), CELL_STARTING_FOOD));
    assert_eq!(record.dna.0, cell.dna.0);
    assert_eq!(record.emissions, vec![(6, whole(3))]);
    assert!(record.attractions.is_empty());
    assert_eq!(record.disabled_codons, vec![(0, true)]);
    assert_eq!(record.global_mutation_rate, 300_000);
    assert_eq!(record.individual_mutation_rates[&2], 400_000);
    assert_eq!(record.primary_mutation_rate, 1_000);
    assert_eq!(record.food_to_replicate, cell.food_to_replicate);
    assert_eq!(record.size, cell.size);
}

#[test]
fn eaten_food_gives_its_identifier_back() {
    let mut world = world_of(
        vec![quiet(whole(500), whole(500))],
        vec![(whole(900), whole(900), whole(1)), (whole(501), whole(500), whole(2))],
    );
    world.feed(&vec![0]);
    assert_eq!(world.food_id_manager.recycled_ids, vec![1]);
    assert_eq!(world.food_id_manager.next_id, 2);
    assert_eq!(world.add_food(whole(10), whole(10), whole(3)), Some(1));
    assert_eq!(world.add_food(whole(10), whole(10), whole(3)), Some(2));
}

#[test]
fn culled_cells_give_their_identifiers_back_in_turn() {
    let mut first = quiet(whole(700), whole(300));
    first.food = 0;
    let mut third = quiet(whole(100), whole(300));
    third.food = -1;
    let mut world = world_of(vec![first, quiet(whole(10), whole(10)), third], vec![]);
    world.cull(&vec![2, 1, 0]);
    assert_eq!(world.cell_id_manager.recycled_ids, vec![2, 0]);
    assert_eq!(world.cell_id_manager.next_id, 3);
    assert_eq!(world.adopt_cell(quiet(0, 0)), Some(0));
    assert_eq!(world.adopt_cell(quiet(0, 0)), Some(2));
    assert_eq!(world.adopt_cell(quiet(0, 0)), Some(3));
    assert_sound(&world);
}

#[test]
fn new_world_knows_the_touching_buckets_row_by_row() {
    let world = CellManager::new();
    assert_eq!(world.grid.relation.len(), 400);
    assert_eq!(world.grid.relation[21], vec![0, 1, 2, 20, 21, 22, 40, 41, 42]);
    assert_eq!(world.grid.relation[0], vec![0, 1, 20, 21]);
    assert_eq!(world.grid.relation[399], vec![378, 379, 398, 399]);
    assert_eq!(world.grid.relation[19], vec![18, 19, 38, 39]);
    assert_eq!(world.grid.relation[40], vec![20, 21, 40, 41, 60, 61]);
}
