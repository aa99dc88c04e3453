use cellsim::cell::{copy_of, distance_sq, Cell};
use cellsim::config::{
    CELL_STARTING_FOOD, DEFAULT_CELL_SIZE_SQ, DEFAULT_FOOD_TO_REPLICATE, FOOD_FORCE, MAX_LIFESPAN,
    TOXIN_FORCE, WORLD_EXTENT,
};
use cellsim::dna::{Codon, PrimaryBases, DNA};
use cellsim::fixed::{whole, Fixed, SCALE};
use rustc_hash::FxHashMap;

fn codon(kind: PrimaryBases, secondary: u16, tertiary: Fixed) -> Codon {
    Codon { primary_base: kind, secondary_base: secondary, tertiary_base: tertiary }
}

fn cell_at(dna: Vec<Codon>, x: Fixed, y: Fixed) -> Cell {
    Cell::_new(7, FxHashMap::default(), DNA(dna), x, y).0
}

fn food_lover(x: Fixed, y: Fixed) -> Cell {
    cell_at(vec![codon(PrimaryBases::Attraction, FOOD_FORCE, SCALE)], x, y)
}

#[test]
fn new_cell_of_an_empty_genome_is_inert() {
    let (cell, active) = Cell::_new(3, FxHashMap::default(), DNA(vec![]), whole(10), whole(20));
    assert!(active.is_empty());
    assert_eq!(cell.id, 3);
    assert!(cell.attractions.is_empty());
    assert!(cell.emissions.is_empty());
    assert_eq!(cell.food_to_replicate, DEFAULT_FOOD_TO_REPLICATE);
    assert_eq!(cell.size, DEFAULT_CELL_SIZE_SQ);
    assert_eq!((cell.x, cell.y), (whole(10), whole(20)));
    assert_eq!((cell.next_x, cell.next_y), (whole(10), whole(20)));
    assert_eq!(cell.food, CELL_STARTING_FOOD);
    assert!(cell.last_forces.is_empty());
    assert_eq!(cell.iterations, 0);
    assert_eq!(cell._initial_food_usage, 1_000_000);
}

#[test]
fn upkeep_counts_size_emissions_and_the_tick() {
    let cell = cell_at(
        vec![
            codon(PrimaryBases::CellSize, 0, whole(10)),
            codon(PrimaryBases::Emission, TOXIN_FORCE, whole(2)),
            codon(PrimaryBases::Emission, 5, whole(3)),
        ],
        0,
        0,
    );
    assert_eq!(cell.emissions, vec![(TOXIN_FORCE, whole(2)), (5, whole(3))]);
    assert_eq!(cell._initial_food_usage, 500_000 + 4_000 + 3_000 + 200_000);
}

#[test]
fn new_cell_reads_its_genome_under_the_forces_around() {
    let dna = vec![
        codon(PrimaryBases::DisableCodon, 4, whole(2)),
        codon(PrimaryBases::CellSize, 0, whole(10)),
    ];
    let mut around = FxHashMap::default();
    around.insert(4u16, whole(2));
    let (cell, active) = Cell::_new(1, around, DNA(dna.clone()), 0, 0);
    assert_eq!(active, vec![0]);
    assert_eq!(cell.size, DEFAULT_CELL_SIZE_SQ);
    let (cell, active) = Cell::_new(1, FxHashMap::default(), DNA(dna), 0, 0);
    assert_eq!(active, vec![0, 1]);
    assert_eq!(cell.size, whole(10));
}

#[test]
fn random_cell_lies_in_the_world() {
    for _ in 0..100 {
        let cell = Cell::new(9, FxHashMap::default());
        assert_eq!(cell.id, 9);
        assert_eq!(cell.dna.get_codon_count(), 1);
        assert!(0 <= cell.x && cell.x < WORLD_EXTENT);
        assert!(0 <= cell.y && cell.y < WORLD_EXTENT);
        assert_eq!((cell.next_x, cell.next_y), (cell.x, cell.y));
        assert_eq!(cell.food, CELL_STARTING_FOOD);
    }
}

#[test]
fn add_and_remove_food() {
    let mut cell = food_lover(0, 0);
    cell.add_food(whole(25));
    assert_eq!(cell.food, whole(75));
    cell.remove_food(whole(80));
    assert_eq!(cell.food, whole(-5));
}

#[test]
fn distance_is_squared() {
    assert_eq!(distance_sq(whole(3), whole(4), 0, 0), whole(25));
    assert_eq!(distance_sq(0, 0, whole(3), whole(4)), whole(25));
    assert_eq!(distance_sq(whole(500), whole(500), whole(510), whole(500)), whole(100));
}

#[test]
fn food_at_distance_ten_pulls_the_cell_toward_it() {
    let mut cell = food_lover(whole(500), whole(500));
    cell.add_forces(&[(FOOD_FORCE, whole(25))], whole(510), whole(500));
    assert_eq!(cell.next_x, 502_500_000);
    assert_eq!(cell.next_y, whole(500));
    assert_eq!((cell.x, cell.y), (whole(500), whole(500)));
    assert_eq!(cell.last_forces[&FOOD_FORCE], whole(25));
    assert_eq!(cell.food, CELL_STARTING_FOOD);
}

#[test]
fn pull_goes_along_both_axes() {
    let mut cell = food_lover(whole(500), whole(500));
    cell.add_forces(&[(FOOD_FORCE, whole(50))], whole(497), whole(504));
    assert_eq!(cell.next_x, whole(500) - 6_000_000);
    assert_eq!(cell.next_y, whole(500) + 8_000_000);
}

#[test]
fn negative_attraction_pushes_away() {
    let mut cell =
        cell_at(vec![codon(PrimaryBases::Attraction, 3, whole(-2))], whole(500), whole(500));
    cell.add_forces(&[(3, whole(25))], whole(510), whole(500));
    assert_eq!(cell.next_x, whole(495));
}

#[test]
fn force_without_attraction_moves_nobody() {
    let mut cell = food_lover(whole(500), whole(500));
    cell.add_forces(&[(6, whole(25))], whole(510), whole(500));
    assert_eq!((cell.next_x, cell.next_y), (whole(500), whole(500)));
    assert_eq!(cell.last_forces[&6], whole(25));
}

#[test]
fn force_from_too_near_moves_nobody() {
    let mut cell = food_lover(whole(500), whole(500));
    cell.add_forces(&[(FOOD_FORCE, whole(25))], whole(500) + 300_000, whole(500));
    assert_eq!((cell.next_x, cell.next_y), (whole(500), whole(500)));
    assert_eq!(cell.last_forces[&FOOD_FORCE], whole(25));
    cell.add_forces(&[(FOOD_FORCE, whole(25))], whole(500) + 400_000, whole(500));
    assert!(cell.next_x > whole(500));
}

#[test]
fn toxin_takes_food_at_once() {
    let mut cell = food_lover(whole(500), whole(500));
    cell.add_forces(&[(TOXIN_FORCE, whole(2))], whole(510), whole(500));
    assert_eq!(cell.food, whole(40));
    assert_eq!((cell.next_x, cell.next_y), (whole(500), whole(500)));
    assert_eq!(cell.last_forces[&TOXIN_FORCE], whole(2));
}

#[test]
fn forces_received_add_up() {
    let mut cell = food_lover(whole(500), whole(500));
    cell.add_forces(&[(4, whole(1)), (4, whole(2)), (5, whole(3))], whole(510), whole(500));
    cell.receive(4, whole(4), whole(510), whole(500));
    assert_eq!(cell.last_forces[&4], whole(7));
    assert_eq!(cell.last_forces[&5], whole(3));
    assert_eq!(cell.last_forces.len(), 2);
    cell.reset();
    assert!(cell.last_forces.is_empty());
}

#[test]
fn update_moves_and_charges_the_cell() {
    let mut cell = food_lover(whole(500), whole(500));
    cell.next_x = whole(503);
    cell.next_y = whole(496);
    let previous = cell.update();
    assert_eq!(previous, (whole(500), whole(500)));
    assert_eq!((cell.x, cell.y), (whole(503), whole(496)));
    assert_eq!((cell.next_x, cell.next_y), (whole(503), whole(496)));
    assert_eq!(cell.food, CELL_STARTING_FOOD - 1_000_000 - 60_000 - 80_000);
    assert_eq!(cell.iterations, 1);
}

#[test]
fn update_refuses_a_place_beyond_the_world() {
    let mut cell = food_lover(whole(500), whole(500));
    cell.next_x = -1;
    cell.next_y = WORLD_EXTENT;
    assert_eq!(cell.update(), (whole(500), whole(500)));
    assert_eq!((cell.x, cell.y), (whole(500), whole(500)));
    assert_eq!((cell.next_x, cell.next_y), (whole(500), whole(500)));
    assert_eq!(cell.food, CELL_STARTING_FOOD - 1_000_000);
    cell.next_x = 0;
    cell.next_y = WORLD_EXTENT - 1;
    cell.update();
    assert_eq!((cell.x, cell.y), (0, WORLD_EXTENT - 1));
}

#[test]
fn update_refuses_each_axis_by_itself() {
    let mut cell = food_lover(whole(500), whole(500));
    cell.next_x = whole(501);
    cell.next_y = whole(2000);
    cell.update();
    assert_eq!((cell.x, cell.y), (whole(501), whole(500)));
    assert_eq!(cell.calculate_general_food_usage(whole(500), whole(500)), 1_020_000);
}

#[test]
fn cell_with_food_at_threshold_can_replicate() {
    let mut cell = food_lover(0, 0);
    cell.food = cell.food_to_replicate;
    assert!(cell.can_replicate());
    cell.food = cell.food_to_replicate - SCALE;
    assert!(!cell.can_replicate());
    cell.food = cell.food_to_replicate - 1;
    assert!(!cell.can_replicate());
    cell.food = cell.food_to_replicate + 1;
    assert!(cell.can_replicate());
}

#[test]
fn cell_without_food_is_dead() {
    let mut cell = food_lover(0, 0);
    assert!(!cell.is_dead());
    cell.food = 0;
    assert!(cell.is_dead());
    cell.food = -1;
    assert!(cell.is_dead());
    cell.food = 1;
    assert!(!cell.is_dead());
}

#[test]
fn cell_dies_of_age() {
    let mut cell = food_lover(0, 0);
    cell.iterations = MAX_LIFESPAN - 1;
    assert!(!cell.is_dead());
    cell.iterations = MAX_LIFESPAN;
    assert!(cell.is_dead());
}

#[test]
fn replicate_sets_the_child_one_step_off_and_charges_the_parent() {
    let mut parent = cell_at(
        vec![
            codon(PrimaryBases::GlobalMutationRate, 0, 0),
            codon(PrimaryBases::AddCodonMutationRate, 0, 0),
            codon(PrimaryBases::RemoveCodonMutationRate, 0, 0),
            codon(PrimaryBases::ReplicationFood, 0, whole(70)),
            codon(PrimaryBases::Attraction, FOOD_FORCE, SCALE),
        ],
        whole(500),
        0,
    );
    parent.food = whole(100);
    parent.add_forces(&[(4, whole(1))], whole(600), whole(600));
    let child = parent.replicate(11);
    assert_eq!(parent.food, whole(65));
    assert_eq!(parent.id, 7);
    assert_eq!((parent.x, parent.y), (whole(500), 0));
    assert_eq!(parent.last_forces[&4], whole(1));
    assert_eq!(child.id, 11);
    assert_eq!((child.x, child.y), (whole(499), whole(1)));
    assert_eq!((child.next_x, child.next_y), (child.x, child.y));
    assert_eq!(child.food, CELL_STARTING_FOOD);
    assert_eq!(child.iterations, 0);
    assert!(child.last_forces.is_empty());
    assert_eq!(child.food_to_replicate, whole(70));
    assert_eq!(child.attractions[&FOOD_FORCE], SCALE);
    let len = child.dna.get_codon_count();
    assert!((4..=6).contains(&len));
}

#[test]
fn child_phenotype_comes_from_the_forces_the_parent_received() {
    let mut parent = cell_at(
        vec![
            codon(PrimaryBases::DisableCodon, 4, whole(1)),
            codon(PrimaryBases::CellSize, 0, whole(10)),
        ],
        whole(500),
        whole(500),
    );
    assert_eq!(parent.size, whole(10));
    parent.add_forces(&[(4, whole(1))], whole(600), whole(600));
    let child = parent.replicate(1);
    assert_eq!(child.size, DEFAULT_CELL_SIZE_SQ);
    parent.reset();
    let child = parent.replicate(2);
    assert_eq!(child.size, whole(10));
}

#[test]
fn getters_and_copies() {
    let cell = cell_at(vec![codon(PrimaryBases::Emission, 5, whole(3))], whole(12), whole(34));
    assert_eq!(cell.get_x(), whole(12));
    assert_eq!(cell.get_y(), whole(34));
    assert_eq!(cell.get_emissions(), vec![(5, whole(3))]);
    assert_eq!(copy_of(&cell.emissions), cell.emissions);
    let copy = cell.clone();
    assert_eq!(copy.id, cell.id);
    assert_eq!(copy.dna.0, cell.dna.0);
    assert_eq!(copy.emissions, cell.emissions);
    assert_eq!((copy.x, copy.y, copy.food), (cell.x, cell.y, cell.food));
}
