use cellsim::config::{
    DEFAULT_ADD_CODON_MUTATION_RATE, DEFAULT_CELL_SIZE_SQ, DEFAULT_FOOD_TO_REPLICATE,
    DEFAULT_MUTATION_RATE, DEFAULT_PRIMARY_MUTATION_RATE, DEFAULT_REMOVE_CODON_MUTATION_RATE,
    DEFAULT_SECONDARY_MUTATION_RATE, FOOD_FORCE, FUDGED_MUTATION_RATE_CHANCE, MAX_TOXIN_FORCE,
    TOXIN_FORCE,
};
use cellsim::dna::{
    emit, fires, force_on, frameshift, fresh_codon, fresh_range, kind_of_draw, names_force,
    point_mutated, point_target, repaired, Codon, Frameshift, PointChange, PointTarget,
    PrimaryBases, DNA, LAST_BASE,
};
use cellsim::fixed::{whole, Fixed, SCALE};
use rustc_hash::FxHashMap;

fn codon(kind: PrimaryBases, secondary: u16, tertiary: Fixed) -> Codon {
    Codon { primary_base: kind, secondary_base: secondary, tertiary_base: tertiary }
}

fn forces(entries: &[(u16, Fixed)]) -> FxHashMap<u16, Fixed> {
    let mut map = FxHashMap::default();
    for (force, magnitude) in entries {
        map.insert(*force, *magnitude);
    }
    map
}

const KINDS: [PrimaryBases; 11] = [
    PrimaryBases::Attraction,
    PrimaryBases::Emission,
    PrimaryBases::DisableCodon,
    PrimaryBases::GlobalMutationRate,
    PrimaryBases::IndividualMutationRate,
    PrimaryBases::PrimaryMutationRate,
    PrimaryBases::SecondaryMutationRate,
    PrimaryBases::AddCodonMutationRate,
    PrimaryBases::RemoveCodonMutationRate,
    PrimaryBases::ReplicationFood,
    PrimaryBases::CellSize,
];

#[test]
fn kinds_are_numbered_from_zero_to_ten() {
    for (number, kind) in KINDS.iter().enumerate() {
        assert_eq!(kind.code() as usize, number);
        assert_eq!(PrimaryBases::from_code(number as u8), Some(*kind));
    }
    assert_eq!(LAST_BASE, 10);
}

#[test]
fn numbers_above_ten_stand_for_no_kind() {
    assert_eq!(PrimaryBases::from_code(11), None);
    assert_eq!(PrimaryBases::from_code(255), None);
}

#[test]
fn mutation_rate_kinds_are_three_to_eight() {
    for kind in KINDS.iter() {
        let code = kind.code();
        assert_eq!(kind.is_mutation_rate(), (3..=8).contains(&code));
    }
}

#[test]
fn repair_leaves_attractions_alone() {
    let c = codon(PrimaryBases::Attraction, 0, whole(-900));
    assert_eq!(repaired(c), c);
}

#[test]
fn repair_turns_food_emission_into_toxin() {
    let c = repaired(codon(PrimaryBases::Emission, FOOD_FORCE, whole(3)));
    assert_eq!(c, codon(PrimaryBases::Emission, TOXIN_FORCE, whole(3)));
}

#[test]
fn repair_caps_toxin_emission() {
    let c = repaired(codon(PrimaryBases::Emission, TOXIN_FORCE, whole(9)));
    assert_eq!(c.tertiary_base, MAX_TOXIN_FORCE);
    let rerouted = repaired(codon(PrimaryBases::Emission, FOOD_FORCE, whole(9)));
    assert_eq!(rerouted, codon(PrimaryBases::Emission, TOXIN_FORCE, MAX_TOXIN_FORCE));
}

#[test]
fn repair_does_not_cap_other_emissions() {
    let c = repaired(codon(PrimaryBases::Emission, 4, whole(9)));
    assert_eq!(c, codon(PrimaryBases::Emission, 4, whole(9)));
}

#[test]
fn repair_floors_emission_disable_and_size_at_zero() {
    assert_eq!(repaired(codon(PrimaryBases::Emission, 4, -1)).tertiary_base, 0);
    assert_eq!(repaired(codon(PrimaryBases::Emission, TOXIN_FORCE, -1)).tertiary_base, 0);
    assert_eq!(repaired(codon(PrimaryBases::DisableCodon, 4, whole(-3))).tertiary_base, 0);
    assert_eq!(repaired(codon(PrimaryBases::CellSize, 0, whole(-3))).tertiary_base, 0);
    assert_eq!(repaired(codon(PrimaryBases::CellSize, 0, whole(7))).tertiary_base, whole(7));
}

#[test]
fn repair_floors_replication_threshold_at_fifty_five() {
    assert_eq!(
        repaired(codon(PrimaryBases::ReplicationFood, 0, whole(10))).tertiary_base,
        55_000_000
    );
    assert_eq!(
        repaired(codon(PrimaryBases::ReplicationFood, 0, whole(80))).tertiary_base,
        whole(80)
    );
}

#[test]
fn repair_keeps_rates_between_zero_and_one() {
    for kind in KINDS.iter().filter(|kind| kind.is_mutation_rate()) {
        assert_eq!(repaired(codon(*kind, 9, whole(4))), codon(*kind, 9, SCALE));
        assert_eq!(repaired(codon(*kind, 9, -1)), codon(*kind, 9, 0));
        assert_eq!(repaired(codon(*kind, 9, 250_000)), codon(*kind, 9, 250_000));
    }
}

#[test]
fn repair_twice_is_repair_once() {
    let samples: [Fixed; 9] =
        [i64::MIN, whole(-20), -1, 0, 1, whole(3), whole(6), whole(70), i64::MAX];
    for kind in KINDS.iter() {
        for secondary in [0u16, 1, 2, 500] {
            for tertiary in samples {
                let once = repaired(codon(*kind, secondary, tertiary));
                assert_eq!(repaired(once), once);
                assert_eq!(once.primary_base, *kind);
                if *kind == PrimaryBases::Emission {
                    assert_ne!(once.secondary_base, FOOD_FORCE);
                }
                if kind.is_mutation_rate() {
                    assert!(0 <= once.tertiary_base && once.tertiary_base <= SCALE);
                }
            }
        }
    }
}

#[test]
fn fix_broken_codon_repairs_one_codon_in_place() {
    let broken = codon(PrimaryBases::GlobalMutationRate, 0, whole(5));
    let emission = codon(PrimaryBases::Emission, FOOD_FORCE, whole(2));
    let mut dna = DNA(vec![broken, emission]);
    dna.fix_broken_codon(0);
    assert_eq!(dna.0, vec![codon(PrimaryBases::GlobalMutationRate, 0, SCALE), emission]);
    dna.fix_broken_codon(1);
    assert_eq!(dna.0[1], codon(PrimaryBases::Emission, TOXIN_FORCE, whole(2)));
    let once = dna.0.clone();
    dna.fix_broken_codon(1);
    assert_eq!(dna.0, once);
}

#[test]
fn force_on_is_zero_for_a_force_not_held() {
    let held = forces(&[(3, whole(7))]);
    assert_eq!(force_on(&held, 3), whole(7));
    assert_eq!(force_on(&held, 4), 0);
}

#[test]
fn disable_codon_fires_when_force_reaches_threshold() {
    let held = forces(&[(3, whole(7))]);
    assert!(fires(codon(PrimaryBases::DisableCodon, 3, whole(7)), &held));
    assert!(fires(codon(PrimaryBases::DisableCodon, 3, whole(6)), &held));
    assert!(!fires(codon(PrimaryBases::DisableCodon, 3, whole(7) + 1), &held));
    assert!(fires(codon(PrimaryBases::DisableCodon, 9, 0), &held));
    assert!(!fires(codon(PrimaryBases::DisableCodon, 9, 1), &held));
    assert!(!fires(codon(PrimaryBases::Attraction, 3, 0), &held));
}

#[test]
fn all_codons_are_read_without_disable_codons() {
    let dna = DNA(vec![
        codon(PrimaryBases::Attraction, 0, whole(1)),
        codon(PrimaryBases::Emission, 2, whole(1)),
        codon(PrimaryBases::CellSize, 0, whole(9)),
    ]);
    assert_eq!(dna.get_codon_count(), 3);
    assert_eq!(dna.get_activated_codons(&FxHashMap::default()), vec![0, 1, 2]);
    assert_eq!(dna.get_disabled_codons(&FxHashMap::default()), vec![]);
}

#[test]
fn firing_disable_codon_suppresses_the_next_codon() {
    let dna = DNA(vec![
        codon(PrimaryBases::DisableCodon, 5, whole(2)),
        codon(PrimaryBases::Attraction, 0, whole(1)),
        codon(PrimaryBases::Attraction, 5, whole(1)),
    ]);
    assert_eq!(dna.get_activated_codons(&forces(&[(5, whole(2))])), vec![0, 2]);
    assert_eq!(dna.get_activated_codons(&forces(&[(5, whole(1))])), vec![0, 1, 2]);
    assert_eq!(dna.get_activated_codons(&FxHashMap::default()), vec![0, 1, 2]);
}

#[test]
fn suppression_goes_by_position_not_by_force() {
    let dna = DNA(vec![
        codon(PrimaryBases::Attraction, 5, whole(1)),
        codon(PrimaryBases::DisableCodon, 5, 0),
        codon(PrimaryBases::Emission, 9, whole(1)),
        codon(PrimaryBases::Attraction, 5, whole(1)),
    ]);
    assert_eq!(dna.get_activated_codons(&FxHashMap::default()), vec![0, 1, 3]);
}

#[test]
fn every_firing_disable_codon_suppresses_the_next_codon() {
    let dna = DNA(vec![
        codon(PrimaryBases::DisableCodon, 1, 0),
        codon(PrimaryBases::DisableCodon, 1, 0),
        codon(PrimaryBases::DisableCodon, 1, 0),
        codon(PrimaryBases::CellSize, 0, whole(9)),
    ]);
    assert_eq!(dna.get_activated_codons(&FxHashMap::default()), vec![0]);
    let dna = DNA(vec![
        codon(PrimaryBases::DisableCodon, 0, 0),
        codon(PrimaryBases::DisableCodon, 0, 0),
        codon(PrimaryBases::Attraction, 1, whole(1)),
    ]);
    assert_eq!(dna.get_activated_codons(&FxHashMap::default()), vec![0]);
}

#[test]
fn suppressed_disable_codon_that_does_not_fire_suppresses_nothing() {
    let dna = DNA(vec![
        codon(PrimaryBases::DisableCodon, 1, 0),
        codon(PrimaryBases::DisableCodon, 1, whole(5)),
        codon(PrimaryBases::Attraction, 1, whole(1)),
    ]);
    assert_eq!(dna.get_activated_codons(&FxHashMap::default()), vec![0, 2]);
    let mut held = FxHashMap::default();
    held.insert(1u16, whole(5));
    assert_eq!(dna.get_activated_codons(&held), vec![0]);
}

#[test]
fn disable_codon_at_the_end_targets_nothing() {
    let dna = DNA(vec![
        codon(PrimaryBases::CellSize, 0, whole(9)),
        codon(PrimaryBases::DisableCodon, 1, 0),
    ]);
    assert_eq!(dna.get_activated_codons(&FxHashMap::default()), vec![0, 1]);
}

#[test]
fn disabled_codons_report_every_disable_codon() {
    let dna = DNA(vec![
        codon(PrimaryBases::DisableCodon, 1, 0),
        codon(PrimaryBases::DisableCodon, 1, whole(3)),
        codon(PrimaryBases::Attraction, 1, 0),
        codon(PrimaryBases::DisableCodon, 2, whole(3)),
    ]);
    assert_eq!(
        dna.get_disabled_codons(&forces(&[(2, whole(4))])),
        vec![(0, true), (1, false), (3, true)]
    );
}

#[test]
fn empty_genome_decodes_to_an_inert_phenotype() {
    let dna = DNA(vec![]);
    assert_eq!(dna.get_codon_count(), 0);
    let active = dna.get_activated_codons(&FxHashMap::default());
    assert!(active.is_empty());
    let (attractions, emissions, food_to_replicate, size) = dna.process_dna(&active);
    assert!(attractions.is_empty());
    assert!(emissions.is_empty());
    assert_eq!(food_to_replicate, DEFAULT_FOOD_TO_REPLICATE);
    assert_eq!(size, DEFAULT_CELL_SIZE_SQ);
}

#[test]
fn process_dna_sums_attractions_by_force() {
    let dna = DNA(vec![
        codon(PrimaryBases::Attraction, 0, whole(1)),
        codon(PrimaryBases::Attraction, 3, whole(-4)),
        codon(PrimaryBases::Attraction, 0, 500_000),
    ]);
    let (attractions, emissions, _, _) = dna.process_dna(&[0, 1, 2]);
    assert_eq!(attractions.len(), 2);
    assert_eq!(attractions[&0], 1_500_000);
    assert_eq!(attractions[&3], whole(-4));
    assert!(emissions.is_empty());
}

#[test]
fn process_dna_lists_emissions_in_order_of_first_mention() {
    let dna = DNA(vec![
        codon(PrimaryBases::Emission, 7, whole(1)),
        codon(PrimaryBases::Emission, 2, whole(2)),
        codon(PrimaryBases::Emission, 7, whole(3)),
        codon(PrimaryBases::Emission, 1, whole(4)),
    ]);
    let (attractions, emissions, _, _) = dna.process_dna(&[0, 1, 2, 3]);
    assert!(attractions.is_empty());
    assert_eq!(emissions, vec![(7, whole(4)), (2, whole(2)), (1, whole(4))]);
}

#[test]
fn process_dna_lets_the_last_threshold_and_size_win() {
    let dna = DNA(vec![
        codon(PrimaryBases::ReplicationFood, 0, whole(70)),
        codon(PrimaryBases::CellSize, 0, whole(9)),
        codon(PrimaryBases::ReplicationFood, 0, whole(90)),
        codon(PrimaryBases::CellSize, 0, whole(4)),
    ]);
    let (_, _, food_to_replicate, size) = dna.process_dna(&[0, 1, 2, 3]);
    assert_eq!(food_to_replicate, whole(90));
    assert_eq!(size, whole(4));
    let (_, _, food_to_replicate, size) = dna.process_dna(&[0, 1]);
    assert_eq!(food_to_replicate, whole(70));
    assert_eq!(size, whole(9));
}

#[test]
fn process_dna_reads_only_listed_codons() {
    let dna = DNA(vec![
        codon(PrimaryBases::Attraction, 0, whole(1)),
        codon(PrimaryBases::Emission, 2, whole(2)),
        codon(PrimaryBases::CellSize, 0, whole(9)),
    ]);
    let (attractions, emissions, _, size) = dna.process_dna(&[1]);
    assert!(attractions.is_empty());
    assert_eq!(emissions, vec![(2, whole(2))]);
    assert_eq!(size, DEFAULT_CELL_SIZE_SQ);
}

#[test]
fn emit_adds_to_an_entry_or_appends_one() {
    let mut list = vec![(4u16, whole(1)), (6, whole(2))];
    emit(&mut list, 6, whole(3));
    assert_eq!(list, vec![(4, whole(1)), (6, whole(5))]);
    emit(&mut list, 9, whole(-1));
    assert_eq!(list, vec![(4, whole(1)), (6, whole(5)), (9, whole(-1))]);
}

#[test]
fn mutation_rates_default_without_rate_codons() {
    let dna = DNA(vec![codon(PrimaryBases::Attraction, 0, whole(1))]);
    let rates = dna.read_mutation_rates(&[0]);
    assert_eq!(rates.0, DEFAULT_MUTATION_RATE);
    assert!(rates.1.is_empty());
    assert_eq!(rates.2, DEFAULT_PRIMARY_MUTATION_RATE);
    assert_eq!(rates.3, DEFAULT_SECONDARY_MUTATION_RATE);
    assert_eq!(rates.4, DEFAULT_ADD_CODON_MUTATION_RATE);
    assert_eq!(rates.5, DEFAULT_REMOVE_CODON_MUTATION_RATE);
    assert_eq!(
        (rates.0, rates.2, rates.3, rates.4, rates.5),
        (10_000, 1_000, 10_000, 1_000, 1_000)
    );
}

fn rate_genome() -> DNA {
    DNA(vec![
        codon(PrimaryBases::GlobalMutationRate, 0, 100_000),
        codon(PrimaryBases::IndividualMutationRate, 3, 200_000),
        codon(PrimaryBases::PrimaryMutationRate, 0, 300_000),
        codon(PrimaryBases::SecondaryMutationRate, 0, 400_000),
        codon(PrimaryBases::AddCodonMutationRate, 0, 500_000),
        codon(PrimaryBases::RemoveCodonMutationRate, 0, 600_000),
        codon(PrimaryBases::GlobalMutationRate, 0, 700_000),
        codon(PrimaryBases::IndividualMutationRate, 3, 800_000),
        codon(PrimaryBases::IndividualMutationRate, 1, 900_000),
    ])
}

#[test]
fn mutation_rates_are_read_off_listed_codons() {
    let dna = rate_genome();
    let rates = dna.read_mutation_rates(&[0, 1, 2, 3, 4, 5]);
    assert_eq!(rates.0, 100_000);
    assert_eq!(rates.1.len(), 1);
    assert_eq!(rates.1[&3], 200_000);
    assert_eq!((rates.2, rates.3, rates.4, rates.5), (300_000, 400_000, 500_000, 600_000));
}

#[test]
fn last_rate_codon_wins() {
    let dna = rate_genome();
    let rates = dna.read_mutation_rates(&[0, 1, 2, 3, 4, 5, 6, 7, 8]);
    assert_eq!(rates.0, 700_000);
    assert_eq!(rates.1.len(), 2);
    assert_eq!(rates.1[&3], 800_000);
    assert_eq!(rates.1[&1], 900_000);
}

#[test]
fn mutation_rates_without_rng_read_the_whole_genome() {
    let mut codons = vec![codon(PrimaryBases::DisableCodon, 0, 0)];
    codons.extend(rate_genome().0);
    let dna = DNA(codons);
    assert_eq!(dna.get_activated_codons(&FxHashMap::default())[1], 2);
    let rates = dna.get_mutation_rates_no_rng();
    assert_eq!(rates.0, 700_000);
    assert_eq!(rates.1[&3], 800_000);
    assert_eq!((rates.2, rates.3, rates.4, rates.5), (300_000, 400_000, 500_000, 600_000));
}

#[test]
fn fudged_roll_falls_back_to_default_rates() {
    let dna = rate_genome();
    let all: Vec<usize> = (0..9).collect();
    assert_eq!(FUDGED_MUTATION_RATE_CHANCE, 10);
    let fudged = dna.mutation_rates_on_roll(10, &all);
    assert_eq!(fudged.0, DEFAULT_MUTATION_RATE);
    assert!(fudged.1.is_empty());
    assert_eq!(fudged.5, DEFAULT_REMOVE_CODON_MUTATION_RATE);
    let read = dna.mutation_rates_on_roll(11, &all);
    assert_eq!(read.0, 700_000);
    assert_eq!(read.1.len(), 2);
}

#[test]
fn drawn_mutation_rates_are_read_or_default() {
    let dna = rate_genome();
    let all: Vec<usize> = (0..9).collect();
    let mut rng = rand::thread_rng();
    for _ in 0..200 {
        let rates = dna.get_mutation_rates(&mut rng, &all);
        assert!(rates.0 == 700_000 || rates.0 == DEFAULT_MUTATION_RATE);
        assert_eq!(rates.0 == 700_000, rates.1.len() == 2);
    }
}

#[test]
fn fresh_codon_ranges_by_kind() {
    assert!(names_force(PrimaryBases::Attraction));
    assert!(names_force(PrimaryBases::Emission));
    assert!(names_force(PrimaryBases::DisableCodon));
    assert!(!names_force(PrimaryBases::CellSize));
    assert_eq!(fresh_range(PrimaryBases::Attraction, 4), (whole(-10), whole(10)));
    assert_eq!(fresh_range(PrimaryBases::Emission, FOOD_FORCE), (0, whole(5)));
    assert_eq!(fresh_range(PrimaryBases::Emission, TOXIN_FORCE), (0, whole(5)));
    assert_eq!(fresh_range(PrimaryBases::Emission, 2), (whole(-10), whole(10)));
    assert_eq!(fresh_range(PrimaryBases::DisableCodon, 2), (0, whole(100)));
    assert_eq!(fresh_range(PrimaryBases::ReplicationFood, 0), (whole(55), whole(110)));
    assert_eq!(fresh_range(PrimaryBases::CellSize, 0), (100_000, whole(32)));
    assert_eq!(fresh_range(PrimaryBases::GlobalMutationRate, 0), (0, SCALE));
    assert_eq!(fresh_range(PrimaryBases::RemoveCodonMutationRate, 0), (0, SCALE));
}

#[test]
fn fresh_emission_never_carries_the_food_force() {
    assert_eq!(
        fresh_codon(PrimaryBases::Emission, FOOD_FORCE, whole(2)),
        codon(PrimaryBases::Emission, TOXIN_FORCE, whole(2))
    );
    assert_eq!(
        fresh_codon(PrimaryBases::Attraction, FOOD_FORCE, whole(2)),
        codon(PrimaryBases::Attraction, FOOD_FORCE, whole(2))
    );
    assert_eq!(kind_of_draw(9), PrimaryBases::ReplicationFood);
}

fn is_fresh(c: Codon) -> bool {
    let t = c.tertiary_base;
    match c.primary_base {
        PrimaryBases::Attraction => c.secondary_base <= 10 && whole(-10) <= t && t <= whole(10),
        PrimaryBases::Emission => {
            (1..=10).contains(&c.secondary_base)
                && if c.secondary_base == TOXIN_FORCE {
                    0 <= t && t <= whole(5)
                } else {
                    whole(-10) <= t && t <= whole(10)
                }
        }
        PrimaryBases::DisableCodon => c.secondary_base <= 10 && 0 <= t && t <= whole(100),
        PrimaryBases::ReplicationFood => {
            c.secondary_base == 0 && whole(55) <= t && t <= whole(110)
        }
        PrimaryBases::CellSize => c.secondary_base == 0 && 100_000 <= t && t <= whole(32),
        _ => c.secondary_base == 0 && 0 <= t && t <= SCALE,
    }
}

#[test]
fn random_codons_lie_in_the_ranges_of_their_kind() {
    let mut rng = rand::thread_rng();
    let mut seen = [false; 11];
    for _ in 0..5000 {
        let c = DNA::random_codon(&mut rng);
        assert!(is_fresh(c), "{:?}", c);
        seen[c.primary_base.code() as usize] = true;
    }
    assert!(seen.iter().all(|kind| *kind));
}

#[test]
fn new_genome_has_one_fresh_codon() {
    for _ in 0..50 {
        let dna = DNA::new();
        assert_eq!(dna.get_codon_count(), 1);
        assert!(is_fresh(dna.0[0]));
    }
}

#[test]
fn point_target_goes_by_the_two_shares() {
    assert_eq!(point_target(1_000, 1_000, 10_000), PointTarget::Primary);
    assert_eq!(point_target(1_001, 1_000, 10_000), PointTarget::Secondary);
    assert_eq!(point_target(10_000, 1_000, 10_000), PointTarget::Secondary);
    assert_eq!(point_target(10_001, 1_000, 10_000), PointTarget::Tertiary);
    assert_eq!(point_target(500, 1_000, 100), PointTarget::Primary);
    assert_eq!(point_target(5_000, 1_000, 100), PointTarget::Tertiary);
}

#[test]
fn point_mutation_changes_one_base_and_repairs() {
    let c = codon(PrimaryBases::Attraction, 0, whole(-3));
    assert_eq!(
        point_mutated(c, PointChange::Kind(PrimaryBases::Emission)),
        codon(PrimaryBases::Emission, TOXIN_FORCE, 0)
    );
    assert_eq!(
        point_mutated(c, PointChange::Kind(PrimaryBases::GlobalMutationRate)),
        codon(PrimaryBases::GlobalMutationRate, 0, 0)
    );
    assert_eq!(point_mutated(c, PointChange::Shift(1)), codon(PrimaryBases::Attraction, 1, whole(-3)));
    assert_eq!(point_mutated(c, PointChange::Shift(-1)), c);
    assert_eq!(point_mutated(c, PointChange::Shift(0)), c);
    assert_eq!(
        point_mutated(c, PointChange::Nudge(250_000)),
        codon(PrimaryBases::Attraction, 0, -2_750_000)
    );
    let rate = codon(PrimaryBases::AddCodonMutationRate, 0, 900_000);
    assert_eq!(point_mutated(rate, PointChange::Nudge(SCALE)).tertiary_base, SCALE);
    let top = codon(PrimaryBases::Attraction, u16::MAX, 0);
    assert_eq!(point_mutated(top, PointChange::Shift(1)), top);
    let emission = codon(PrimaryBases::Emission, 1, whole(2));
    assert_eq!(
        point_mutated(emission, PointChange::Shift(-1)),
        codon(PrimaryBases::Emission, 1, whole(2))
    );
}

#[test]
fn random_change_is_allowed() {
    let mut rng = rand::thread_rng();
    for _ in 0..2000 {
        match DNA::random_change(&mut rng, 300_000, 600_000) {
            PointChange::Kind(kind) => assert!(kind.code() <= 10),
            PointChange::Shift(steps) => assert!((-1..=1).contains(&steps)),
            PointChange::Nudge(amount) => assert!(-SCALE <= amount && amount <= SCALE),
        }
    }
    for _ in 0..200 {
        assert!(matches!(DNA::random_change(&mut rng, SCALE, 0), PointChange::Kind(_)));
        assert!(matches!(DNA::random_change(&mut rng, -1, SCALE), PointChange::Shift(_)));
        assert!(matches!(DNA::random_change(&mut rng, -1, -1), PointChange::Nudge(_)));
    }
}

#[test]
fn frameshift_inserts_before_it_removes() {
    assert_eq!(frameshift(1_000, 0, 1_000, 1_000, 3), Frameshift::Insert);
    assert_eq!(frameshift(1_000, SCALE, 1_000, 1_000, 3), Frameshift::Insert);
    assert_eq!(frameshift(1_001, 2_000, 1_000, 2_000, 3), Frameshift::Remove);
    assert_eq!(frameshift(1_001, 2_000, 1_000, 2_000, 0), Frameshift::Keep);
    assert_eq!(frameshift(1_001, 2_001, 1_000, 2_000, 3), Frameshift::Keep);
    assert_eq!(frameshift(500, SCALE, 1_000, 2_000, 0), Frameshift::Insert);
}

#[test]
fn removal_has_a_draw_of_its_own() {
    assert_eq!(frameshift(1_001, 1_000, 1_000, 1_000, 3), Frameshift::Remove);
    assert_eq!(frameshift(SCALE, 0, 1_000, 1_000, 3), Frameshift::Remove);
    assert_eq!(frameshift(SCALE, 900, 500_000, 1_000, 1), Frameshift::Remove);
    assert_eq!(frameshift(SCALE, 1_001, 1_000, 1_000, 3), Frameshift::Keep);
}

#[test]
fn equal_rates_can_remove() {
    let mut rng = rand::thread_rng();
    let base = rate_genome();
    let mut shorter = 0;
    let mut longer = 0;
    for _ in 0..400 {
        let mut dna = base.clone();
        dna.frameshift_mutation(&mut rng, 500_000, 500_000);
        match dna.get_codon_count() {
            8 => shorter += 1,
            10 => longer += 1,
            len => assert_eq!(len, 9),
        }
    }
    assert!(longer > 100);
    assert!(shorter > 30);
}

#[test]
fn frameshift_mutation_changes_length_by_at_most_one() {
    let mut rng = rand::thread_rng();
    let base = rate_genome();
    for _ in 0..300 {
        let mut dna = base.clone();
        dna.frameshift_mutation(&mut rng, 300_000, 600_000);
        let len = dna.get_codon_count();
        assert!((8..=10).contains(&len));
        if len == 9 {
            assert_eq!(dna.0, base.0);
        }
    }
}

#[test]
fn certain_insertion_adds_one_fresh_codon() {
    let mut rng = rand::thread_rng();
    let base = rate_genome();
    for _ in 0..100 {
        let mut dna = base.clone();
        dna.frameshift_mutation(&mut rng, SCALE, SCALE);
        assert_eq!(dna.get_codon_count(), 10);
        let at = (0..9).find(|i| dna.0[*i] != base.0[*i]).unwrap_or(9);
        assert!(at < 9 || dna.0[..9] == base.0[..]);
        assert!(is_fresh(dna.0[at]) || dna.0[at] == base.0[at]);
        let mut without = dna.0.clone();
        let slot = (0..10)
            .find(|i| {
                let mut rest = dna.0.clone();
                rest.remove(*i);
                rest == base.0
            })
            .expect("the genome with one codon taken out is the old genome");
        assert!(slot < 9);
        assert!(is_fresh(without.remove(slot)));
    }
}

#[test]
fn certain_removal_takes_one_codon_out() {
    let mut rng = rand::thread_rng();
    let base = rate_genome();
    for _ in 0..100 {
        let mut dna = base.clone();
        dna.frameshift_mutation(&mut rng, -1, SCALE);
        assert_eq!(dna.get_codon_count(), 8);
        assert!((0..9).any(|i| {
            let mut rest = base.0.clone();
            rest.remove(i);
            rest == dna.0
        }));
    }
}

#[test]
fn empty_genome_can_gain_a_codon_and_lose_none() {
    let mut rng = rand::thread_rng();
    let mut dna = DNA(vec![]);
    dna.frameshift_mutation(&mut rng, -1, SCALE);
    assert_eq!(dna.get_codon_count(), 0);
    dna.frameshift_mutation(&mut rng, SCALE, SCALE);
    assert_eq!(dna.get_codon_count(), 1);
    assert!(is_fresh(dna.0[0]));
}

#[test]
fn mutate_changes_length_by_at_most_one() {
    let base = rate_genome();
    let all: Vec<usize> = (0..9).collect();
    for _ in 0..300 {
        let mut dna = base.clone();
        dna.mutate(&all);
        let len = dna.get_codon_count();
        assert!((8..=10).contains(&len));
    }
}

#[test]
fn mutate_without_chance_changes_nothing() {
    let dna = DNA(vec![
        codon(PrimaryBases::GlobalMutationRate, 0, -1),
        codon(PrimaryBases::AddCodonMutationRate, 0, -1),
        codon(PrimaryBases::RemoveCodonMutationRate, 0, -1),
        codon(PrimaryBases::Attraction, 0, whole(1)),
    ]);
    let mut changed = 0;
    for _ in 0..2000 {
        let mut copy = dna.clone();
        copy.mutate(&[0, 1, 2, 3]);
        if copy.0 != dna.0 {
            changed += 1;
        }
    }
    assert!(changed <= 5, "only a fudged event falls back to the default rates");
}

#[test]
fn mutated_codons_are_repaired() {
    let dna = DNA(vec![
        codon(PrimaryBases::GlobalMutationRate, 0, SCALE),
        codon(PrimaryBases::PrimaryMutationRate, 0, SCALE),
        codon(PrimaryBases::AddCodonMutationRate, 0, 0),
        codon(PrimaryBases::RemoveCodonMutationRate, 0, 0),
        codon(PrimaryBases::Emission, TOXIN_FORCE, whole(5)),
    ]);
    for _ in 0..300 {
        let mut copy = dna.clone();
        copy.mutate(&[0, 1, 2, 3, 4]);
        for c in copy.0.iter().take(5) {
            if is_fresh(*c) && copy.0.len() == 6 {
                continue;
            }
            assert_eq!(repaired(*c), *c, "{:?}", c);
        }
    }
}
