//! The genome: a sequence of codons, how it is read, and how it mutates.

use crate::collections::{map_get, map_insert};
use crate::config::{
    CELL_STARTING_FOOD, DEFAULT_ADD_CODON_MUTATION_RATE, DEFAULT_CELL_SIZE_SQ,
    DEFAULT_FOOD_TO_REPLICATE, DEFAULT_MUTATION_RATE, DEFAULT_PRIMARY_MUTATION_RATE,
    DEFAULT_REMOVE_CODON_MUTATION_RATE, DEFAULT_SECONDARY_MUTATION_RATE, FOOD_FORCE,
    FUDGED_MUTATION_RATE_CHANCE, MAX_TOXIN_FORCE, MIN_FOOD_TO_REPLICATE_RATIO, TOXIN_FORCE,
};
use crate::fixed::{plus, spec_plus, spec_times, spec_whole, times, whole, Fixed, SCALE};
use crate::random::draw_between;
use rand::rngs::ThreadRng;
use rustc_hash::FxHashMap;
use vstd::prelude::*;

verus! {

/// What a codon does. The kind is the codon's primary base.
#[derive(Clone, Copy, Debug, PartialEq, Eq, Structural)]
pub enum PrimaryBases {
    /// Pulls the cell along a force (pushes it, if negative).
    Attraction,
    /// Makes the cell emit a force.
    Emission,
    /// Suppresses the codon that follows when a force is strong enough.
    DisableCodon,
    /// Chance that a codon mutates.
    GlobalMutationRate,
    /// Chance that the codon at one index mutates.
    IndividualMutationRate,
    /// Share of mutations that redraw the kind.
    PrimaryMutationRate,
    /// Share of mutations that shift the identifier.
    SecondaryMutationRate,
    /// Chance that a codon is inserted.
    AddCodonMutationRate,
    /// Chance that a codon is deleted.
    RemoveCodonMutationRate,
    /// Food reserve from which the cell replicates.
    ReplicationFood,
    /// Squared reach within which the cell eats.
    CellSize,
}

/// The largest number that stands for a kind.
pub const LAST_BASE: u8 = 10;

impl PrimaryBases {
    /// The number that stands for this kind.
    pub open spec fn spec_code(self) -> u8 {
        match self {
            PrimaryBases::Attraction => 0,
            PrimaryBases::Emission => 1,
            PrimaryBases::DisableCodon => 2,
            PrimaryBases::GlobalMutationRate => 3,
            PrimaryBases::IndividualMutationRate => 4,
            PrimaryBases::PrimaryMutationRate => 5,
            PrimaryBases::SecondaryMutationRate => 6,
            PrimaryBases::AddCodonMutationRate => 7,
            PrimaryBases::RemoveCodonMutationRate => 8,
            PrimaryBases::ReplicationFood => 9,
            PrimaryBases::CellSize => 10,
        }
    }

    /// The kind that `value` stands for, if it stands for one.
    pub open spec fn spec_from_code(value: u8) -> Option<PrimaryBases> {
        if value == 0 {
            Some(PrimaryBases::Attraction)
        } else if value == 1 {
            Some(PrimaryBases::Emission)
        } else if value == 2 {
            Some(PrimaryBases::DisableCodon)
        } else if value == 3 {
            Some(PrimaryBases::GlobalMutationRate)
        } else if value == 4 {
            Some(PrimaryBases::IndividualMutationRate)
        } else if value == 5 {
            Some(PrimaryBases::PrimaryMutationRate)
        } else if value == 6 {
            Some(PrimaryBases::SecondaryMutationRate)
        } else if value == 7 {
            Some(PrimaryBases::AddCodonMutationRate)
        } else if value == 8 {
            Some(PrimaryBases::RemoveCodonMutationRate)
        } else if value == 9 {
            Some(PrimaryBases::ReplicationFood)
        } else if value == 10 {
            Some(PrimaryBases::CellSize)
        } else {
            None
        }
    }

    /// Whether this kind sets one of the mutation rates.
    pub open spec fn spec_is_mutation_rate(self) -> bool {
        3 <= self.spec_code() <= 8
    }

    /// The number that stands for this kind.
    #[verifier::when_used_as_spec(spec_code)]
    pub fn code(self) -> (value: u8)
        ensures
            value == self.spec_code(),
            value <= LAST_BASE,
    {
        match self {
            PrimaryBases::Attraction => 0,
            PrimaryBases::Emission => 1,
            PrimaryBases::DisableCodon => 2,
            PrimaryBases::GlobalMutationRate => 3,
            PrimaryBases::IndividualMutationRate => 4,
            PrimaryBases::PrimaryMutationRate => 5,
            PrimaryBases::SecondaryMutationRate => 6,
            PrimaryBases::AddCodonMutationRate => 7,
            PrimaryBases::RemoveCodonMutationRate => 8,
            PrimaryBases::ReplicationFood => 9,
            PrimaryBases::CellSize => 10,
        }
    }

    /// Decodes a primary base. A number above [`LAST_BASE`] stands for nothing.
    #[verifier::when_used_as_spec(spec_from_code)]
    pub fn from_code(value: u8) -> (kind: Option<PrimaryBases>)
        ensures
            kind == PrimaryBases::spec_from_code(value),
            kind is Some <==> value <= LAST_BASE,
            kind matches Some(k) ==> k.spec_code() == value,
    {
        match value {
            0 => Some(PrimaryBases::Attraction),
            1 => Some(PrimaryBases::Emission),
            2 => Some(PrimaryBases::DisableCodon),
            3 => Some(PrimaryBases::GlobalMutationRate),
            4 => Some(PrimaryBases::IndividualMutationRate),
            5 => Some(PrimaryBases::PrimaryMutationRate),
            6 => Some(PrimaryBases::SecondaryMutationRate),
            7 => Some(PrimaryBases::AddCodonMutationRate),
            8 => Some(PrimaryBases::RemoveCodonMutationRate),
            9 => Some(PrimaryBases::ReplicationFood),
            10 => Some(PrimaryBases::CellSize),
            _ => None,
        }
    }

    /// Whether this kind sets one of the mutation rates.
    #[verifier::when_used_as_spec(spec_is_mutation_rate)]
    pub fn is_mutation_rate(self) -> (yes: bool)
        ensures
            yes == self.spec_is_mutation_rate(),
    {
        match self {
            PrimaryBases::GlobalMutationRate
            | PrimaryBases::IndividualMutationRate
            | PrimaryBases::PrimaryMutationRate
            | PrimaryBases::SecondaryMutationRate
            | PrimaryBases::AddCodonMutationRate
            | PrimaryBases::RemoveCodonMutationRate => true,
            _ => false,
        }
    }
}

/// Every kind is found again from its number.
pub proof fn lemma_code_round_trip(kind: PrimaryBases)
    ensures
        PrimaryBases::spec_from_code(kind.spec_code()) == Some(kind),
{
}

/// One instruction of a genome.
#[derive(Clone, Copy, Debug, PartialEq, Eq, Structural)]
pub struct Codon {
    /// What the codon does.
    pub primary_base: PrimaryBases,
    /// The force, or the codon index, that it is about.
    pub secondary_base: u16,
    /// Its magnitude, threshold or rate.
    pub tertiary_base: Fixed,
}

/// `x`, moved into the range from `low` to `high`.
pub open spec fn clamp(x: Fixed, low: Fixed, high: Fixed) -> Fixed {
    if x < low {
        low
    } else if x > high {
        high
    } else {
        x
    }
}

/// The smallest replication threshold that repair lets stand.
pub open spec fn spec_min_food_to_replicate() -> Fixed {
    spec_times(CELL_STARTING_FOOD, MIN_FOOD_TO_REPLICATE_RATIO)
}

/// The codon that repair makes of `c`.
///
/// An emission never carries the food force: it becomes a toxin emission.
/// A toxin emission lies between zero and [`MAX_TOXIN_FORCE`]; other
/// emissions, disable thresholds and sizes are at least zero; a replication
/// threshold is at least [`spec_min_food_to_replicate`]; a mutation rate lies
/// between zero and one. Attractions stand as they are.
pub open spec fn spec_repaired(c: Codon) -> Codon {
    match c.primary_base {
        PrimaryBases::Attraction => c,
        PrimaryBases::Emission => {
            let force = if c.secondary_base == FOOD_FORCE {
                TOXIN_FORCE
            } else {
                c.secondary_base
            };
            let magnitude = if force == TOXIN_FORCE {
                clamp(c.tertiary_base, 0, MAX_TOXIN_FORCE)
            } else {
                clamp(c.tertiary_base, 0, i64::MAX)
            };
            Codon { primary_base: c.primary_base, secondary_base: force, tertiary_base: magnitude }
        },
        PrimaryBases::ReplicationFood => Codon {
            tertiary_base: clamp(c.tertiary_base, spec_min_food_to_replicate(), i64::MAX),
            ..c
        },
        PrimaryBases::DisableCodon | PrimaryBases::CellSize => Codon {
            tertiary_base: clamp(c.tertiary_base, 0, i64::MAX),
            ..c
        },
        _ => Codon { tertiary_base: clamp(c.tertiary_base, 0, SCALE), ..c },
    }
}

/// Restores what each kind of codon promises of its bases.
#[verifier::when_used_as_spec(spec_repaired)]
pub fn repaired(c: Codon) -> (r: Codon)
    ensures
        r == spec_repaired(c),
{
    let mut r = c;
    match c.primary_base {
        PrimaryBases::Emission => {
            if r.secondary_base == FOOD_FORCE {
                r.secondary_base = TOXIN_FORCE;
            }
            if r.secondary_base == TOXIN_FORCE && r.tertiary_base > MAX_TOXIN_FORCE {
                r.tertiary_base = MAX_TOXIN_FORCE;
            }
            if r.tertiary_base < 0 {
                r.tertiary_base = 0;
            }
        },
        PrimaryBases::ReplicationFood => {
            let least = times(CELL_STARTING_FOOD, MIN_FOOD_TO_REPLICATE_RATIO);
            if r.tertiary_base < least {
                r.tertiary_base = least;
            }
        },
        PrimaryBases::DisableCodon | PrimaryBases::CellSize => {
            if r.tertiary_base < 0 {
                r.tertiary_base = 0;
            }
        },
        PrimaryBases::GlobalMutationRate
        | PrimaryBases::IndividualMutationRate
        | PrimaryBases::PrimaryMutationRate
        | PrimaryBases::SecondaryMutationRate
        | PrimaryBases::AddCodonMutationRate
        | PrimaryBases::RemoveCodonMutationRate => {
            if r.tertiary_base < 0 {
                r.tertiary_base = 0;
            }
            if r.tertiary_base > SCALE {
                r.tertiary_base = SCALE;
            }
        },
        PrimaryBases::Attraction => {},
    }
    r
}

/// Repairing a repaired codon changes nothing.
pub proof fn lemma_repair_idempotent(c: Codon)
    ensures
        spec_repaired(spec_repaired(c)) == spec_repaired(c),
{
}

/// Repair keeps the kind of a codon.
pub proof fn lemma_repair_keeps_kind(c: Codon)
    ensures
        spec_repaired(c).primary_base == c.primary_base,
{
}

/// A repaired emission does not carry the food force.
pub proof fn lemma_repaired_emission_avoids_food(c: Codon)
    requires
        c.primary_base == PrimaryBases::Emission,
    ensures
        spec_repaired(c).secondary_base != FOOD_FORCE,
{
}

/// A repaired mutation rate lies between zero and one.
pub proof fn lemma_repaired_rate_in_unit_range(c: Codon)
    requires
        c.primary_base.spec_is_mutation_rate(),
    ensures
        0 <= spec_repaired(c).tertiary_base <= SCALE,
{
}

/// A genome: codons in the order in which they are read.
#[derive(Debug)]
pub struct DNA(pub Vec<Codon>);

impl View for DNA {
    type V = Seq<Codon>;

    open spec fn view(&self) -> Seq<Codon> {
        self.0@
    }
}

impl Clone for DNA {
    fn clone(&self) -> (copy: Self)
        ensures
            copy@ == self@,
    {
        let codons = self.0.clone();
        assert(codons@ =~= self.0@);
        DNA(codons)
    }
}

/// The magnitude that `forces` holds for `force`: zero where it holds none.
pub open spec fn spec_force_on(forces: Map<u16, Fixed>, force: u16) -> Fixed {
    if forces.contains_key(force) {
        forces[force]
    } else {
        0
    }
}

/// Whether `c` is a disable codon whose force has reached its threshold.
pub open spec fn spec_fires(c: Codon, forces: Map<u16, Fixed>) -> bool {
    c.primary_base == PrimaryBases::DisableCodon && spec_force_on(forces, c.secondary_base)
        >= c.tertiary_base
}

/// Whether the codon at `index` is read.
///
/// A codon is suppressed exactly when the codon just before it fires:
/// whether or not that codon is itself suppressed.
pub open spec fn spec_is_active(dna: Seq<Codon>, forces: Map<u16, Fixed>, index: int) -> bool {
    index <= 0 || !spec_fires(dna[index - 1], forces)
}

/// The indices below `upto` of the codons that are read, ascending.
pub open spec fn spec_active_indices(dna: Seq<Codon>, forces: Map<u16, Fixed>, upto: nat) -> Seq<
    usize,
>
    decreases upto,
{
    if upto == 0 {
        Seq::empty()
    } else {
        let before = spec_active_indices(dna, forces, (upto - 1) as nat);
        if spec_is_active(dna, forces, upto - 1) {
            before.push((upto - 1) as usize)
        } else {
            before
        }
    }
}

/// The disable codons below `upto`, each with its index and whether it fires.
pub open spec fn spec_disable_report(dna: Seq<Codon>, forces: Map<u16, Fixed>, upto: nat) -> Seq<
    (usize, bool),
>
    decreases upto,
{
    if upto == 0 {
        Seq::empty()
    } else {
        let before = spec_disable_report(dna, forces, (upto - 1) as nat);
        if dna[upto - 1].primary_base == PrimaryBases::DisableCodon {
            before.push(((upto - 1) as usize, spec_fires(dna[upto - 1], forces)))
        } else {
            before
        }
    }
}

/// Whether every entry of `active` is an index into a genome of `len` codons.
pub open spec fn spec_indices_within(active: Seq<usize>, len: nat) -> bool {
    forall|k: int| 0 <= k < active.len() ==> #[trigger] active[k] < len
}

/// Every index that [`spec_active_indices`] lists lies below `upto`.
pub proof fn lemma_active_indices_within(dna: Seq<Codon>, forces: Map<u16, Fixed>, upto: nat)
    requires
        upto <= usize::MAX,
    ensures
        spec_indices_within(spec_active_indices(dna, forces, upto), upto),
        spec_active_indices(dna, forces, upto).len() <= upto,
    decreases upto,
{
    if upto > 0 {
        lemma_active_indices_within(dna, forces, (upto - 1) as nat);
    }
}

/// The sequence with the codon at `index` repaired.
pub open spec fn spec_fix_broken_codon(dna: Seq<Codon>, index: int) -> Seq<Codon>
    recommends
        0 <= index < dna.len(),
{
    dna.update(index, spec_repaired(dna[index]))
}

/// Repairing the same codon of a genome twice is repairing it once.
pub proof fn lemma_fix_broken_codon_idempotent(dna: Seq<Codon>, index: int)
    requires
        0 <= index < dna.len(),
    ensures
        spec_fix_broken_codon(spec_fix_broken_codon(dna, index), index) == spec_fix_broken_codon(
            dna,
            index,
        ),
{
    assert(spec_fix_broken_codon(spec_fix_broken_codon(dna, index), index)
        =~= spec_fix_broken_codon(dna, index));
}

/// After repair, an emission codon does not carry the food force and a
/// mutation rate lies between zero and one.
pub proof fn lemma_fix_broken_codon_bounds(dna: Seq<Codon>, index: int)
    requires
        0 <= index < dna.len(),
    ensures
        spec_fix_broken_codon(dna, index)[index].primary_base == dna[index].primary_base,
        dna[index].primary_base == PrimaryBases::Emission ==> spec_fix_broken_codon(
            dna,
            index,
        )[index].secondary_base != FOOD_FORCE,
        dna[index].primary_base.spec_is_mutation_rate() ==> 0 <= spec_fix_broken_codon(
            dna,
            index,
        )[index].tertiary_base <= SCALE,
{
}

/// The magnitude that `forces` holds for `force`: zero where it holds none.
pub fn force_on(forces: &FxHashMap<u16, Fixed>, force: u16) -> (magnitude: Fixed)
    ensures
        magnitude == spec_force_on(forces@, force),
{
    match map_get(forces, &force) {
        Some(held) => *held,
        None => 0,
    }
}

/// Whether `c` is a disable codon whose force has reached its threshold.
pub fn fires(c: Codon, forces: &FxHashMap<u16, Fixed>) -> (yes: bool)
    ensures
        yes == spec_fires(c, forces@),
{
    c.primary_base == PrimaryBases::DisableCodon && force_on(forces, c.secondary_base)
        >= c.tertiary_base
}

/// The tertiary base of the last codon of `kind` that `active` lists, or
/// `otherwise` where it lists none.
pub open spec fn spec_last_of_kind(
    dna: Seq<Codon>,
    active: Seq<usize>,
    kind: PrimaryBases,
    otherwise: Fixed,
) -> Fixed
    decreases active.len(),
{
    if active.len() == 0 {
        otherwise
    } else if dna[active.last() as int].primary_base == kind {
        dna[active.last() as int].tertiary_base
    } else {
        spec_last_of_kind(dna, active.drop_last(), kind, otherwise)
    }
}

/// The attraction to each force: the sum, in reading order, of the
/// attraction codons that `active` lists for it.
pub open spec fn spec_attractions(dna: Seq<Codon>, active: Seq<usize>) -> Map<u16, Fixed>
    decreases active.len(),
{
    if active.len() == 0 {
        Map::empty()
    } else {
        let before = spec_attractions(dna, active.drop_last());
        let c = dna[active.last() as int];
        if c.primary_base == PrimaryBases::Attraction {
            before.insert(
                c.secondary_base,
                spec_plus(spec_force_on(before, c.secondary_base), c.tertiary_base),
            )
        } else {
            before
        }
    }
}

/// Where `force` stands in `list`: the index of its first entry, or the
/// length of the list if it has none.
pub open spec fn spec_entry_of(list: Seq<(u16, Fixed)>, force: u16) -> int
    decreases list.len(),
{
    if list.len() == 0 {
        0
    } else if list[0].0 == force {
        0
    } else {
        1 + spec_entry_of(list.drop_first(), force)
    }
}

/// The list after `magnitude` of `force` joins it: added to the entry of
/// `force`, or appended as a new entry.
pub open spec fn spec_emit(list: Seq<(u16, Fixed)>, force: u16, magnitude: Fixed) -> Seq<
    (u16, Fixed),
> {
    let at = spec_entry_of(list, force);
    if at < list.len() {
        list.update(at, (force, spec_plus(list[at].1, magnitude)))
    } else {
        list.push((force, magnitude))
    }
}

/// The emissions: one entry for each force that an emission codon listed by
/// `active` names, in the order of first mention, with the magnitudes summed.
pub open spec fn spec_emissions(dna: Seq<Codon>, active: Seq<usize>) -> Seq<(u16, Fixed)>
    decreases active.len(),
{
    if active.len() == 0 {
        Seq::empty()
    } else {
        let before = spec_emissions(dna, active.drop_last());
        let c = dna[active.last() as int];
        if c.primary_base == PrimaryBases::Emission {
            spec_emit(before, c.secondary_base, c.tertiary_base)
        } else {
            before
        }
    }
}

/// The rate for each codon index that an individual-rate codon listed by
/// `active` names: that of the last such codon.
pub open spec fn spec_individual_rates(dna: Seq<Codon>, active: Seq<usize>) -> Map<usize, Fixed>
    decreases active.len(),
{
    if active.len() == 0 {
        Map::empty()
    } else {
        let before = spec_individual_rates(dna, active.drop_last());
        let c = dna[active.last() as int];
        if c.primary_base == PrimaryBases::IndividualMutationRate {
            before.insert(c.secondary_base as usize, c.tertiary_base)
        } else {
            before
        }
    }
}

/// The mutation rates of a genome: the global rate, the rate of single codon
/// indices, the primary and secondary shares, and the rates of insertion and
/// of deletion.
pub type MutationRates = (Fixed, FxHashMap<usize, Fixed>, Fixed, Fixed, Fixed, Fixed);

/// Whether `rates` is what the codons listed by `active` ask for, with the
/// defaults where they ask for nothing.
pub open spec fn spec_rates_read(rates: MutationRates, dna: Seq<Codon>,
    active: Seq<usize>) -> bool {
    &&& rates.0 == spec_last_of_kind(
        dna,
        active,
        PrimaryBases::GlobalMutationRate,
        DEFAULT_MUTATION_RATE,
    )
    &&& rates.1@ == spec_individual_rates(dna, active)
    &&& rates.2 == spec_last_of_kind(
        dna,
        active,
        PrimaryBases::PrimaryMutationRate,
        DEFAULT_PRIMARY_MUTATION_RATE,
    )
    &&& rates.3 == spec_last_of_kind(
        dna,
        active,
        PrimaryBases::SecondaryMutationRate,
        DEFAULT_SECONDARY_MUTATION_RATE,
    )
    &&& rates.4 == spec_last_of_kind(
        dna,
        active,
        PrimaryBases::AddCodonMutationRate,
        DEFAULT_ADD_CODON_MUTATION_RATE,
    )
    &&& rates.5 == spec_last_of_kind(
        dna,
        active,
        PrimaryBases::RemoveCodonMutationRate,
        DEFAULT_REMOVE_CODON_MUTATION_RATE,
    )
}

/// Every index below `len`, ascending.
pub open spec fn spec_all_indices(len: nat) -> Seq<usize> {
    Seq::new(len, |i: int| i as usize)
}

/// An entry of `list` before `spec_entry_of` would have been found first.
proof fn lemma_entry_of(list: Seq<(u16, Fixed)>, force: u16, at: int)
    requires
        0 <= at <= list.len(),
        forall|k: int| 0 <= k < at ==> (#[trigger] list[k]).0 != force,
        at < list.len() ==> list[at].0 == force,
    ensures
        spec_entry_of(list, force) == at,
    decreases list.len(),
{
    if list.len() > 0 && at > 0 {
        let rest = list.drop_first();
        assert forall|k: int| 0 <= k < at - 1 implies (#[trigger] rest[k]).0 != force by {
            assert(rest[k] == list[k + 1]);
        }
        lemma_entry_of(rest, force, at - 1);
    }
}

/// Adds `magnitude` to the entry of `force`, or appends a new entry.
pub fn emit(list: &mut Vec<(u16, Fixed)>, force: u16, magnitude: Fixed)
    ensures
        final(list)@ == spec_emit(old(list)@, force, magnitude),
{
    let mut at: usize = 0;
    while at < list.len() && list[at].0 != force
        invariant
            at <= list.len(),
            *list == *old(list),
            forall|k: int| 0 <= k < at ==> (#[trigger] list@[k]).0 != force,
        decreases list.len() - at,
    {
        at += 1;
    }
    proof {
        lemma_entry_of(list@, force, at as int);
    }
    if at < list.len() {
        let sum = plus(list[at].1, magnitude);
        list[at] = (force, sum);
    } else {
        list.push((force, magnitude));
    }
}

/// The largest force identifier that a fresh codon names.
pub const FRESH_FORCE_LIMIT: u16 = 10;

/// A fresh attraction or emission is at most this strong.
pub const FRESH_PULL_LIMIT: Fixed = 10_000_000;

/// A fresh attraction or emission is at least this strong.
pub const FRESH_PULL_FLOOR: Fixed = -10_000_000;

/// A fresh disable codon has a threshold of at most this.
pub const FRESH_THRESHOLD_LIMIT: Fixed = 100_000_000;

/// A fresh size codon asks for at least this.
pub const FRESH_SIZE_FLOOR: Fixed = 100_000;

/// Whether a codon of this kind is about a force.
pub open spec fn spec_names_force(kind: PrimaryBases) -> bool {
    kind == PrimaryBases::Attraction || kind == PrimaryBases::Emission || kind
        == PrimaryBases::DisableCodon
}

/// The range from which a fresh codon of `kind` draws its tertiary base, once
/// `force_drawn` has been drawn for its force.
pub open spec fn spec_fresh_range(kind: PrimaryBases, force_drawn: u16) -> (Fixed, Fixed) {
    match kind {
        PrimaryBases::Attraction => (FRESH_PULL_FLOOR, FRESH_PULL_LIMIT),
        PrimaryBases::Emission => if force_drawn == FOOD_FORCE || force_drawn == TOXIN_FORCE {
            (0, MAX_TOXIN_FORCE)
        } else {
            (FRESH_PULL_FLOOR, FRESH_PULL_LIMIT)
        },
        PrimaryBases::DisableCodon => (0, FRESH_THRESHOLD_LIMIT),
        PrimaryBases::ReplicationFood => (
            spec_min_food_to_replicate(),
            spec_times(spec_min_food_to_replicate(), spec_whole(2)),
        ),
        PrimaryBases::CellSize => (FRESH_SIZE_FLOOR, spec_times(DEFAULT_CELL_SIZE_SQ,
            spec_whole(2))),
        _ => (0, SCALE),
    }
}

/// The fresh codon that the three draws make. An emission for which the food
/// force was drawn emits toxin instead.
pub open spec fn spec_fresh_codon(kind: PrimaryBases, force_drawn: u16, magnitude: Fixed) -> Codon {
    Codon {
        primary_base: kind,
        secondary_base: if kind == PrimaryBases::Emission && force_drawn == FOOD_FORCE {
            TOXIN_FORCE
        } else {
            force_drawn
        },
        tertiary_base: magnitude,
    }
}

/// Whether `c` is a codon that a fresh draw can give.
pub open spec fn spec_is_fresh(c: Codon) -> bool {
    let t = c.tertiary_base;
    match c.primary_base {
        PrimaryBases::Attraction => c.secondary_base <= FRESH_FORCE_LIMIT && FRESH_PULL_FLOOR <= t
            <= FRESH_PULL_LIMIT,
        PrimaryBases::Emission => c.secondary_base != FOOD_FORCE && c.secondary_base
            <= FRESH_FORCE_LIMIT && if c.secondary_base == TOXIN_FORCE {
            0 <= t <= MAX_TOXIN_FORCE
        } else {
            FRESH_PULL_FLOOR <= t <= FRESH_PULL_LIMIT
        },
        PrimaryBases::DisableCodon => c.secondary_base <= FRESH_FORCE_LIMIT && 0 <= t
            <= FRESH_THRESHOLD_LIMIT,
        PrimaryBases::ReplicationFood => c.secondary_base == 0 && spec_min_food_to_replicate() <= t
            <= spec_times(spec_min_food_to_replicate(), spec_whole(2)),
        PrimaryBases::CellSize => c.secondary_base == 0 && FRESH_SIZE_FLOOR <= t <= spec_times(
            DEFAULT_CELL_SIZE_SQ,
            spec_whole(2),
        ),
        _ => c.secondary_base == 0 && 0 <= t <= SCALE,
    }
}

/// One change that a point mutation makes to a codon.
#[derive(Clone, Copy, Debug, PartialEq, Eq, Structural)]
pub enum PointChange {
    /// The kind is drawn anew.
    Kind(PrimaryBases),
    /// The secondary base moves by one step, or stays.
    Shift(i8),
    /// The tertiary base moves by at most one whole.
    Nudge(Fixed),
}

/// Whether a point mutation can make this change.
pub open spec fn spec_change_allowed(change: PointChange) -> bool {
    match change {
        PointChange::Kind(_) => true,
        PointChange::Shift(steps) => -1 <= steps <= 1,
        PointChange::Nudge(amount) => -SCALE <= amount <= SCALE,
    }
}

/// The secondary base `steps` away from `base`, kept within `u16`.
pub open spec fn spec_shifted_base(base: u16, steps: i8) -> u16 {
    if base + steps < 0 {
        0
    } else if base + steps > u16::MAX {
        u16::MAX
    } else {
        (base + steps) as u16
    }
}

/// The codon after `change`, before repair.
pub open spec fn spec_changed(c: Codon, change: PointChange) -> Codon {
    match change {
        PointChange::Kind(kind) => Codon { primary_base: kind, ..c },
        PointChange::Shift(steps) => Codon {
            secondary_base: spec_shifted_base(c.secondary_base, steps),
            ..c
        },
        PointChange::Nudge(amount) => Codon {
            tertiary_base: spec_plus(c.tertiary_base, amount),
            ..c
        },
    }
}

/// Which base a point mutation changes.
#[derive(Clone, Copy, Debug, PartialEq, Eq, Structural)]
pub enum PointTarget {
    /// The kind.
    Primary,
    /// The force, or the codon index.
    Secondary,
    /// The magnitude, threshold or rate.
    Tertiary,
}

/// The base that a point mutation with this draw changes: the primary base
/// with a draw of at most `primary_rate`, else the secondary base with a
/// draw of at most `secondary_rate`, else the tertiary base.
pub open spec fn spec_point_target(roll: Fixed, primary_rate: Fixed,
    secondary_rate: Fixed) -> PointTarget {
    if roll <= primary_rate {
        PointTarget::Primary
    } else if roll <= secondary_rate {
        PointTarget::Secondary
    } else {
        PointTarget::Tertiary
    }
}

/// Whether `change` changes the base `target`.
pub open spec fn spec_change_hits(change: PointChange, target: PointTarget) -> bool {
    match change {
        PointChange::Kind(_) => target == PointTarget::Primary,
        PointChange::Shift(_) => target == PointTarget::Secondary,
        PointChange::Nudge(_) => target == PointTarget::Tertiary,
    }
}

/// Whether a point mutation can make this change under the two shares: the
/// change is allowed, and some draw between zero and one picks its base.
pub open spec fn spec_change_drawable(
    change: PointChange,
    primary_rate: Fixed,
    secondary_rate: Fixed,
) -> bool {
    spec_change_allowed(change) && exists|roll: Fixed|
        0 <= roll <= SCALE && spec_change_hits(
            change,
            #[trigger] spec_point_target(roll, primary_rate, secondary_rate),
        )
}

/// Whether a point mutation can turn `before` into `after` under the two
/// shares: by one change that can be drawn, then repair.
pub open spec fn spec_is_point_mutant(
    before: Codon,
    after: Codon,
    primary_rate: Fixed,
    secondary_rate: Fixed,
) -> bool {
    exists|change: PointChange|
        spec_change_drawable(change, primary_rate, secondary_rate) && after == spec_repaired(
            #[trigger] spec_changed(before, change),
        )
}

/// The chance with which the codon at `index` mutates: the rate set for
/// that index, or else the global rate.
pub open spec fn spec_chance_at(rates: MutationRates, index: int) -> Fixed {
    if rates.1@.contains_key(index as usize) {
        rates.1@[index as usize]
    } else {
        rates.0
    }
}

/// Whether the point mutations of one event can turn `before` into `after`
/// under `rates`. A codon whose chance is less than one may stand as it
/// was; a codon whose chance is at least zero may be a point mutant of what
/// it was.
pub open spec fn spec_point_mutated(
    before: Seq<Codon>,
    after: Seq<Codon>,
    rates: MutationRates,
) -> bool {
    &&& after.len() == before.len()
    &&& forall|k: int|
        0 <= k < before.len() ==> (spec_chance_at(rates, k) < SCALE && #[trigger] after[k]
            == before[k]) || (spec_chance_at(rates, k) >= 0 && spec_is_point_mutant(
            before[k],
            after[k],
            rates.2,
            rates.3,
        ))
}

/// What a frameshift does to the length of a genome.
#[derive(Clone, Copy, Debug, PartialEq, Eq, Structural)]
pub enum Frameshift {
    /// One codon is inserted.
    Insert,
    /// One codon is deleted.
    Remove,
    /// Nothing happens.
    Keep,
}

/// The frameshift that two draws decide on: an insertion where the first
/// is at most `add_rate`; else, in a genome that has a codon, a deletion
/// where the second is at most `remove_rate`; else nothing.
pub open spec fn spec_frameshift(
    insert_roll: Fixed,
    remove_roll: Fixed,
    add_rate: Fixed,
    remove_rate: Fixed,
    len: nat,
) -> Frameshift {
    if insert_roll <= add_rate {
        Frameshift::Insert
    } else if remove_roll <= remove_rate && len > 0 {
        Frameshift::Remove
    } else {
        Frameshift::Keep
    }
}

/// Whether a frameshift of the given kind can turn `before` into `after`.
/// A codon is inserted before one that is there, or into an empty genome.
pub open spec fn spec_frameshifted(before: Seq<Codon>, after: Seq<Codon>,
    shift: Frameshift) -> bool {
    match shift {
        Frameshift::Insert => exists|at: int, c: Codon|
            0 <= at <= before.len() && (at < before.len() || before.len() == 0) && spec_is_fresh(c)
                && after == #[trigger] before.insert(at, c),
        Frameshift::Remove => exists|at: int|
            0 <= at < before.len() && after == #[trigger] before.remove(at),
        Frameshift::Keep => after == before,
    }
}

/// Whether one frameshift under the two rates can turn `before` into
/// `after`: two draws between zero and one decide on a frameshift that
/// does so.
pub open spec fn spec_frameshift_possible(
    before: Seq<Codon>,
    after: Seq<Codon>,
    add_rate: Fixed,
    remove_rate: Fixed,
) -> bool {
    exists|insert_roll: Fixed, remove_roll: Fixed|
        0 <= insert_roll <= SCALE && 0 <= remove_roll <= SCALE && spec_frameshifted(
            before,
            after,
            #[trigger] spec_frameshift(
                insert_roll,
                remove_roll,
                add_rate,
                remove_rate,
                before.len(),
            ),
        )
}

/// Whether one mutation event can turn `before` into `after`, where
/// `active` lists the codons that are read.
///
/// The rates of the event are those that the listed codons ask for, or the
/// defaults. Under them the codons undergo point mutations; then two draws
/// between zero and one decide on the frameshift, the first on an
/// insertion and, failing that, the second on a deletion.
pub open spec fn spec_is_mutant(before: Seq<Codon>, active: Seq<usize>, after: Seq<Codon>) -> bool {
    exists|rates: MutationRates, between: Seq<Codon>|
        (spec_rates_read(rates, before, active) || spec_rates_read(rates, before, Seq::empty()))
            && #[trigger] spec_point_mutated(before, between, rates) && spec_frameshift_possible(
            between,
            after,
            rates.4,
            rates.5,
        )
}

/// A frameshift changes the length of a genome by the one codon that it
/// inserts or deletes, and by nothing if it does neither.
pub proof fn lemma_frameshift_length(before: Seq<Codon>, after: Seq<Codon>, shift: Frameshift)
    requires
        spec_frameshifted(before, after, shift),
    ensures
        shift == Frameshift::Insert ==> after.len() == before.len() + 1,
        shift == Frameshift::Remove ==> after.len() == before.len() - 1,
        shift == Frameshift::Keep ==> after.len() == before.len(),
{
}

/// What turned one genome into another was an insertion, a deletion or
/// neither, and only one of the three.
pub proof fn lemma_frameshift_exclusive(
    before: Seq<Codon>,
    after: Seq<Codon>,
    first: Frameshift,
    second: Frameshift,
)
    requires
        spec_frameshifted(before, after, first),
        spec_frameshifted(before, after, second),
    ensures
        first == second,
{
    lemma_frameshift_length(before, after, first);
    lemma_frameshift_length(before, after, second);
}

/// One frameshift changes the length of a genome by at most one codon.
pub proof fn lemma_frameshift_possible_length(
    before: Seq<Codon>,
    after: Seq<Codon>,
    add_rate: Fixed,
    remove_rate: Fixed,
)
    requires
        spec_frameshift_possible(before, after, add_rate, remove_rate),
    ensures
        before.len() - 1 <= after.len() <= before.len() + 1,
{
    let (insert_roll, remove_roll) = choose|insert_roll: Fixed, remove_roll: Fixed|
        0 <= insert_roll <= SCALE && 0 <= remove_roll <= SCALE && spec_frameshifted(
            before,
            after,
            #[trigger] spec_frameshift(
                insert_roll,
                remove_roll,
                add_rate,
                remove_rate,
                before.len(),
            ),
        );
    lemma_frameshift_length(
        before,
        after,
        spec_frameshift(insert_roll, remove_roll, add_rate, remove_rate, before.len()),
    );
}

/// One mutation event changes the length of a genome by at most one codon.
pub proof fn lemma_mutation_length(before: Seq<Codon>, active: Seq<usize>, after: Seq<Codon>)
    requires
        spec_is_mutant(before, active, after),
    ensures
        before.len() - 1 <= after.len() <= before.len() + 1,
{
    let (rates, between) = choose|rates: MutationRates, between: Seq<Codon>|
        (spec_rates_read(rates, before, active) || spec_rates_read(rates, before, Seq::empty()))
            && #[trigger] spec_point_mutated(before, between, rates) && spec_frameshift_possible(
            between,
            after,
            rates.4,
            rates.5,
        );
    lemma_frameshift_possible_length(between, after, rates.4, rates.5);
}

/// Whether a codon of this kind is about a force.
#[verifier::when_used_as_spec(spec_names_force)]
pub fn names_force(kind: PrimaryBases) -> (yes: bool)
    ensures
        yes == spec_names_force(kind),
{
    match kind {
        PrimaryBases::Attraction | PrimaryBases::Emission | PrimaryBases::DisableCodon => true,
        _ => false,
    }
}

/// The range from which a fresh codon of `kind` draws its tertiary base.
pub fn fresh_range(kind: PrimaryBases, force_drawn: u16) -> (range: (Fixed, Fixed))
    ensures
        range == spec_fresh_range(kind, force_drawn),
        range.0 <= range.1,
{
    match kind {
        PrimaryBases::Attraction => (FRESH_PULL_FLOOR, FRESH_PULL_LIMIT),
        PrimaryBases::Emission => {
            if force_drawn == FOOD_FORCE || force_drawn == TOXIN_FORCE {
                (0, MAX_TOXIN_FORCE)
            } else {
                (FRESH_PULL_FLOOR, FRESH_PULL_LIMIT)
            }
        },
        PrimaryBases::DisableCodon => (0, FRESH_THRESHOLD_LIMIT),
        PrimaryBases::ReplicationFood => {
            let least = times(CELL_STARTING_FOOD, MIN_FOOD_TO_REPLICATE_RATIO);
            (least, times(least, whole(2)))
        },
        PrimaryBases::CellSize => (FRESH_SIZE_FLOOR, times(DEFAULT_CELL_SIZE_SQ, whole(2))),
        _ => (0, SCALE),
    }
}

/// The fresh codon that the three draws make.
pub fn fresh_codon(kind: PrimaryBases, force_drawn: u16, magnitude: Fixed) -> (c: Codon)
    ensures
        c == spec_fresh_codon(kind, force_drawn, magnitude),
        (spec_names_force(kind) ==> force_drawn <= FRESH_FORCE_LIMIT) && (!spec_names_force(kind)
            ==> force_drawn == 0) && spec_fresh_range(kind, force_drawn).0 <= magnitude
            <= spec_fresh_range(kind, force_drawn).1 ==> spec_is_fresh(c),
{
    let force = if kind == PrimaryBases::Emission && force_drawn == FOOD_FORCE {
        TOXIN_FORCE
    } else {
        force_drawn
    };
    Codon { primary_base: kind, secondary_base: force, tertiary_base: magnitude }
}

/// The kind that the number `drawn` stands for.
pub fn kind_of_draw(drawn: i64) -> (kind: PrimaryBases)
    requires
        0 <= drawn <= LAST_BASE,
    ensures
        PrimaryBases::spec_from_code(drawn as u8) == Some(kind),
{
    match PrimaryBases::from_code(drawn as u8) {
        Some(kind) => kind,
        None => PrimaryBases::Attraction,
    }
}

/// The base that a point mutation with this draw changes.
#[verifier::when_used_as_spec(spec_point_target)]
pub fn point_target(roll: Fixed, primary_rate: Fixed, secondary_rate: Fixed) -> (target:
    PointTarget)
    ensures
        target == spec_point_target(roll, primary_rate, secondary_rate),
{
    if roll <= primary_rate {
        PointTarget::Primary
    } else if roll <= secondary_rate {
        PointTarget::Secondary
    } else {
        PointTarget::Tertiary
    }
}

/// The codon after `change` and repair.
pub fn point_mutated(c: Codon, change: PointChange) -> (mutant: Codon)
    ensures
        mutant == spec_repaired(spec_changed(c, change)),
{
    let changed = match change {
        PointChange::Kind(kind) => Codon { primary_base: kind, ..c },
        PointChange::Shift(steps) => {
            let wide: i32 = c.secondary_base as i32 + steps as i32;
            let base: u16 = if wide < 0 {
                0
            } else if wide > 0xffff {
                0xffff
            } else {
                wide as u16
            };
            Codon { secondary_base: base, ..c }
        },
        PointChange::Nudge(amount) => Codon { tertiary_base: plus(c.tertiary_base, amount), ..c },
    };
    assert(changed == spec_changed(c, change));
    repaired(changed)
}

/// The frameshift that two draws decide on.
pub fn frameshift(
    insert_roll: Fixed,
    remove_roll: Fixed,
    add_rate: Fixed,
    remove_rate: Fixed,
    len: usize,
) -> (shift: Frameshift)
    ensures
        shift == spec_frameshift(insert_roll, remove_roll, add_rate, remove_rate, len as nat),
{
    if insert_roll <= add_rate {
        Frameshift::Insert
    } else if remove_roll <= remove_rate && len > 0 {
        Frameshift::Remove
    } else {
        Frameshift::Keep
    }
}

/// Draws an index into a sequence of `len` items.
pub fn draw_index(rng: &mut ThreadRng, len: usize) -> (at: usize)
    requires
        len > 0,
    ensures
        at < len,
{
    let last: u64 = (len - 1) as u64;
    let high: i64 = if last > 0x7fff_ffff_ffff_ffff {
        0x7fff_ffff_ffff_ffff
    } else {
        last as i64
    };
    draw_between(rng, 0, high) as usize
}

impl DNA {
    /// The number of codons.
    pub fn get_codon_count(&self) -> (count: usize)
        ensures
            count == self@.len(),
    {
        self.0.len()
    }

    /// The indices of the codons that are read under `initial_forces`,
    /// ascending.
    pub fn get_activated_codons(&self, initial_forces: &FxHashMap<u16, Fixed>) -> (active: Vec<
        usize,
    >)
        ensures
            active@ == spec_active_indices(self@, initial_forces@, self@.len()),
            spec_indices_within(active@, self@.len()),
    {
        let mut active: Vec<usize> = Vec::new();
        let mut suppress_next = false;
        let mut index: usize = 0;
        while index < self.0.len()
            invariant
                index <= self@.len(),
                active@ == spec_active_indices(self@, initial_forces@, index as nat),
                suppress_next == !spec_is_active(self@, initial_forces@, index as int),
            decreases self@.len() - index,
        {
            if !suppress_next {
                active.push(index);
            }
            suppress_next = fires(self.0[index], initial_forces);
            index += 1;
        }
        proof {
            lemma_active_indices_within(self@, initial_forces@, self@.len());
        }
        active
    }

    /// Every disable codon with its index and whether it fires under
    /// `initial_forces`, ascending by index.
    pub fn get_disabled_codons(&self, initial_forces: &FxHashMap<u16, Fixed>) -> (report: Vec<
        (usize, bool),
    >)
        ensures
            report@ == spec_disable_report(self@, initial_forces@, self@.len()),
    {
        let mut report: Vec<(usize, bool)> = Vec::new();
        let mut index: usize = 0;
        while index < self.0.len()
            invariant
                index <= self@.len(),
                report@ == spec_disable_report(self@, initial_forces@, index as nat),
            decreases self@.len() - index,
        {
            let c = self.0[index];
            if c.primary_base == PrimaryBases::DisableCodon {
                report.push((index, fires(c, initial_forces)));
            }
            index += 1;
        }
        report
    }

    /// Repairs the codon at `codon_index` in place.
    pub fn fix_broken_codon(&mut self, codon_index: usize)
        requires
            codon_index < old(self)@.len(),
        ensures
            final(self)@ == spec_fix_broken_codon(old(self)@, codon_index as int),
    {
        let mended = repaired(self.0[codon_index]);
        self.0[codon_index] = mended;
    }

    /// Reads the phenotype off the codons that `activated_codons` lists: the
    /// attraction to each force, the emissions, the replication threshold
    /// and the size. The last threshold and the last size win; a genome that
    /// names none gets [`DEFAULT_FOOD_TO_REPLICATE`] and
    /// [`DEFAULT_CELL_SIZE_SQ`].
    pub fn process_dna(&self, activated_codons: &[usize]) -> (phenotype: (
        FxHashMap<u16, Fixed>,
        Vec<(u16, Fixed)>,
        Fixed,
        Fixed,
    ))
        requires
            spec_indices_within(activated_codons@, self@.len()),
        ensures
            phenotype.0@ == spec_attractions(self@, activated_codons@),
            phenotype.1@ == spec_emissions(self@, activated_codons@),
            phenotype.2 == spec_last_of_kind(
                self@,
                activated_codons@,
                PrimaryBases::ReplicationFood,
                DEFAULT_FOOD_TO_REPLICATE,
            ),
            phenotype.3 == spec_last_of_kind(
                self@,
                activated_codons@,
                PrimaryBases::CellSize,
                DEFAULT_CELL_SIZE_SQ,
            ),
    {
        let mut attractions: FxHashMap<u16, Fixed> = FxHashMap::default();
        let mut emissions: Vec<(u16, Fixed)> = Vec::new();
        let mut food_to_replicate = DEFAULT_FOOD_TO_REPLICATE;
        let mut size = DEFAULT_CELL_SIZE_SQ;
        let mut step: usize = 0;
        while step < activated_codons.len()
            invariant
                step <= activated_codons@.len(),
                spec_indices_within(activated_codons@, self@.len()),
                attractions@ == spec_attractions(self@, activated_codons@.take(step as int)),
                emissions@ == spec_emissions(self@, activated_codons@.take(step as int)),
                food_to_replicate == spec_last_of_kind(
                    self@,
                    activated_codons@.take(step as int),
                    PrimaryBases::ReplicationFood,
                    DEFAULT_FOOD_TO_REPLICATE,
                ),
                size == spec_last_of_kind(
                    self@,
                    activated_codons@.take(step as int),
                    PrimaryBases::CellSize,
                    DEFAULT_CELL_SIZE_SQ,
                ),
            decreases activated_codons@.len() - step,
        {
            let codon_index = activated_codons[step];
            assert(activated_codons@[step as int] < self@.len());
            let c = self.0[codon_index];
            proof {
                let next = activated_codons@.take(step + 1);
                assert(next.drop_last() =~= activated_codons@.take(step as int));
                assert(next.last() == codon_index);
            }
            match c.primary_base {
                PrimaryBases::Attraction => {
                    let held = force_on(&attractions, c.secondary_base);
                    map_insert(&mut attractions, c.secondary_base, plus(held, c.tertiary_base));
                },
                PrimaryBases::Emission => {
                    emit(&mut emissions, c.secondary_base, c.tertiary_base);
                },
                PrimaryBases::ReplicationFood => {
                    food_to_replicate = c.tertiary_base;
                },
                PrimaryBases::CellSize => {
                    size = c.tertiary_base;
                },
                _ => {},
            }
            step += 1;
        }
        assert(activated_codons@.take(step as int) =~= activated_codons@);
        (attractions, emissions, food_to_replicate, size)
    }

    /// The mutation rates that the codons listed by `activated_codons` ask
    /// for. Of several codons that set the same rate, the last wins.
    pub fn read_mutation_rates(&self, activated_codons: &[usize]) -> (rates: MutationRates)
        requires
            spec_indices_within(activated_codons@, self@.len()),
        ensures
            spec_rates_read(rates, self@, activated_codons@),
    {
        let mut global_mutation_rate = DEFAULT_MUTATION_RATE;
        let mut individual_mutation_rates: FxHashMap<usize, Fixed> = FxHashMap::default();
        let mut primary_mutation_rate = DEFAULT_PRIMARY_MUTATION_RATE;
        let mut secondary_mutation_rate = DEFAULT_SECONDARY_MUTATION_RATE;
        let mut add_codon_mutation_rate = DEFAULT_ADD_CODON_MUTATION_RATE;
        let mut remove_codon_mutation_rate = DEFAULT_REMOVE_CODON_MUTATION_RATE;
        let mut step: usize = 0;
        while step < activated_codons.len()
            invariant
                step <= activated_codons@.len(),
                spec_indices_within(activated_codons@, self@.len()),
                spec_rates_read(
                    (
                        global_mutation_rate,
                        individual_mutation_rates,
                        primary_mutation_rate,
                        secondary_mutation_rate,
                        add_codon_mutation_rate,
                        remove_codon_mutation_rate,
                    ),
                    self@,
                    activated_codons@.take(step as int),
                ),
            decreases activated_codons@.len() - step,
        {
            let codon_index = activated_codons[step];
            assert(activated_codons@[step as int] < self@.len());
            let c = self.0[codon_index];
            proof {
                let next = activated_codons@.take(step + 1);
                assert(next.drop_last() =~= activated_codons@.take(step as int));
                assert(next.last() == codon_index);
            }
            match c.primary_base {
                PrimaryBases::GlobalMutationRate => {
                    global_mutation_rate = c.tertiary_base;
                },
                PrimaryBases::IndividualMutationRate => {
                    let target: usize = c.secondary_base as usize;
                    map_insert(&mut individual_mutation_rates, target, c.tertiary_base);
                },
                PrimaryBases::PrimaryMutationRate => {
                    primary_mutation_rate = c.tertiary_base;
                },
                PrimaryBases::SecondaryMutationRate => {
                    secondary_mutation_rate = c.tertiary_base;
                },
                PrimaryBases::AddCodonMutationRate => {
                    add_codon_mutation_rate = c.tertiary_base;
                },
                PrimaryBases::RemoveCodonMutationRate => {
                    remove_codon_mutation_rate = c.tertiary_base;
                },
                _ => {},
            }
            step += 1;
        }
        assert(activated_codons@.take(step as int) =~= activated_codons@);
        (
            global_mutation_rate,
            individual_mutation_rates,
            primary_mutation_rate,
            secondary_mutation_rate,
            add_codon_mutation_rate,
            remove_codon_mutation_rate,
        )
    }

    /// The mutation rates for one mutation event, given its first draw: with
    /// a draw of at most [`FUDGED_MUTATION_RATE_CHANCE`] the genome is not
    /// asked and every rate is its default.
    pub fn mutation_rates_on_roll(&self, roll: Fixed, activated_codons: &[usize]) -> (rates:
        MutationRates)
        requires
            spec_indices_within(activated_codons@, self@.len()),
        ensures
            spec_rates_read(
                rates,
                self@,
                if roll > FUDGED_MUTATION_RATE_CHANCE {
                    activated_codons@
                } else {
                    Seq::empty()
                },
            ),
    {
        if roll > FUDGED_MUTATION_RATE_CHANCE {
            self.read_mutation_rates(activated_codons)
        } else {
            let nothing: Vec<usize> = Vec::new();
            self.read_mutation_rates(nothing.as_slice())
        }
    }

    /// The mutation rates for one mutation event. Once in a long while the
    /// genome is not asked and every rate is its default.
    pub fn get_mutation_rates(&self, rng: &mut ThreadRng, activated_codons: &[usize]) -> (rates:
        MutationRates)
        requires
            spec_indices_within(activated_codons@, self@.len()),
        ensures
            spec_rates_read(rates, self@, activated_codons@) || spec_rates_read(
                rates,
                self@,
                Seq::empty(),
            ),
    {
        let roll = draw_between(rng, 0, SCALE);
        self.mutation_rates_on_roll(roll, activated_codons)
    }

    /// The mutation rates that the whole genome asks for, suppressed codons
    /// included.
    pub fn get_mutation_rates_no_rng(&self) -> (rates: MutationRates)
        ensures
            spec_rates_read(rates, self@, spec_all_indices(self@.len())),
    {
        let mut every: Vec<usize> = Vec::new();
        let mut index: usize = 0;
        while index < self.0.len()
            invariant
                index <= self@.len(),
                every@ == spec_all_indices(index as nat),
            decreases self@.len() - index,
        {
            every.push(index);
            assert(every@ =~= spec_all_indices((index + 1) as nat));
            index += 1;
        }
        self.read_mutation_rates(every.as_slice())
    }

    /// A genome of one fresh codon.
    pub fn new() -> (dna: DNA)
        ensures
            dna@.len() == 1,
            spec_is_fresh(dna@[0]),
    {
        let mut rng = rand::thread_rng();
        let mut codons: Vec<Codon> = Vec::new();
        codons.push(DNA::random_codon(&mut rng));
        DNA(codons)
    }

    /// Draws a fresh codon: a kind, then the force it is about, if any, then
    /// a tertiary base from the range of that kind.
    pub fn random_codon(rng: &mut ThreadRng) -> (c: Codon)
        ensures
            spec_is_fresh(c),
    {
        let kind = kind_of_draw(draw_between(rng, 0, LAST_BASE as i64));
        let mut force_drawn: u16 = 0;
        if names_force(kind) {
            force_drawn = draw_between(rng, 0, FRESH_FORCE_LIMIT as i64) as u16;
        }
        let (low, high) = fresh_range(kind, force_drawn);
        let magnitude = draw_between(rng, low, high);
        fresh_codon(kind, force_drawn, magnitude)
    }

    /// One frameshift: with chance `add_codon_mutation_rate` a fresh codon is
    /// inserted at a drawn index; failing that, with chance
    /// `remove_codon_mutation_rate` the codon at a drawn index is deleted.
    /// Each of the two chances has a draw of its own.
    pub fn frameshift_mutation(
        &mut self,
        rng: &mut ThreadRng,
        add_codon_mutation_rate: Fixed,
        remove_codon_mutation_rate: Fixed,
    )
        ensures
            spec_frameshift_possible(
                old(self)@,
                final(self)@,
                add_codon_mutation_rate,
                remove_codon_mutation_rate,
            ),
            old(self)@.len() - 1 <= final(self)@.len() <= old(self)@.len() + 1,
    {
        let insert_roll = draw_between(rng, 0, SCALE);
        let remove_roll = draw_between(rng, 0, SCALE);
        let len = self.0.len();
        let ghost before = self@;
        match frameshift(
            insert_roll,
            remove_roll,
            add_codon_mutation_rate,
            remove_codon_mutation_rate,
            len,
        ) {
            Frameshift::Insert => {
                let mut at: usize = 0;
                if len > 0 {
                    at = draw_index(rng, len);
                }
                let c = DNA::random_codon(rng);
                self.0.insert(at, c);
                assert(self@ == before.insert(at as int, c));
            },
            Frameshift::Remove => {
                let at = draw_index(rng, len);
                self.0.remove(at);
                assert(self@ == before.remove(at as int));
            },
            Frameshift::Keep => {},
        }
        proof {
            let shift = spec_frameshift(
                insert_roll,
                remove_roll,
                add_codon_mutation_rate,
                remove_codon_mutation_rate,
                before.len(),
            );
            assert(spec_frameshifted(before, self@, shift));
            lemma_frameshift_length(before, self@, shift);
        }
    }

    /// One mutation event: each codon mutates with its own chance, in one
    /// base, and is repaired; then the genome undergoes one frameshift.
    ///
    /// The chance of a codon is the rate that the genome sets for its index,
    /// or the global rate.
    pub fn mutate(&mut self, activated_codons: &[usize])
        requires
            spec_indices_within(activated_codons@, old(self)@.len()),
        ensures
            spec_is_mutant(old(self)@, activated_codons@, final(self)@),
            old(self)@.len() - 1 <= final(self)@.len() <= old(self)@.len() + 1,
    {
        let mut rng = rand::thread_rng();
        let rates = self.get_mutation_rates(&mut rng, activated_codons);
        let ghost before = self@;
        let mut codon_index: usize = 0;
        while codon_index < self.0.len()
            invariant
                codon_index <= self@.len(),
                self@.len() == before.len(),
                forall|k: int|
                    0 <= k < codon_index ==> (spec_chance_at(rates, k) < SCALE
                        && #[trigger] self@[k] == before[k]) || (spec_chance_at(rates, k) >= 0
                        && spec_is_point_mutant(before[k], self@[k], rates.2, rates.3)),
                forall|k: int| codon_index <= k < before.len() ==> #[trigger] self@[k] == before[k],
            decreases self@.len() - codon_index,
        {
            let mutation_rate = match map_get(&rates.1, &codon_index) {
                Some(rate) => *rate,
                None => rates.0,
            };
            assert(mutation_rate == spec_chance_at(rates, codon_index as int));
            if draw_between(&mut rng, 0, SCALE) <= mutation_rate {
                let change = DNA::random_change(&mut rng, rates.2, rates.3);
                let mutant = point_mutated(self.0[codon_index], change);
                self.0[codon_index] = mutant;
                assert(mutant == spec_repaired(spec_changed(before[codon_index as int], change)));
                assert(spec_is_point_mutant(
                    before[codon_index as int],
                    mutant,
                    rates.2,
                    rates.3,
                ));
            }
            codon_index += 1;
        }
        let ghost between = self@;
        self.frameshift_mutation(&mut rng, rates.4, rates.5);
        proof {
            assert(spec_point_mutated(before, between, rates));
        }
    }

    /// Draws the change of one point mutation: which base, then by how much.
    pub fn random_change(rng: &mut ThreadRng, primary_rate: Fixed,
        secondary_rate: Fixed) -> (change:
        PointChange)
        ensures
            spec_change_drawable(change, primary_rate, secondary_rate),
    {
        let roll = draw_between(rng, 0, SCALE);
        let change = match point_target(roll, primary_rate, secondary_rate) {
            PointTarget::Primary => PointChange::Kind(
                kind_of_draw(draw_between(rng, 0, LAST_BASE as i64)),
            ),
            PointTarget::Secondary => PointChange::Shift(draw_between(rng, -1, 1) as i8),
            PointTarget::Tertiary => PointChange::Nudge(draw_between(rng, -SCALE, SCALE)),
        };
        assert(spec_change_hits(change, spec_point_target(roll, primary_rate, secondary_rate)));
        change
    }
}

} // verus!