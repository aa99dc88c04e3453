//! A cell: a genome, the phenotype read off it, a position and a food reserve.

use crate::collections::map_insert;
use crate::config::{
    CELL_STARTING_FOOD, DEFAULT_CELL_SIZE_SQ, DEFAULT_FOOD_TO_REPLICATE,
    FOOD_RETENTION_FROM_REPLICATION, FOOD_STOLEN_PER_TOXIN_UNIT,
    FOOD_USED_PER_FORCE_EMITTED, FOOD_USED_PER_FRAME, FOOD_USED_PER_SIZE_UNIT,
    FOOD_USED_PER_TOXIN_UNIT_EMITTED, FOOD_USED_PER_UNIT_MOVED, MAX_LIFESPAN,
    MIN_FORCE_DISTANCE_SQ, TOXIN_FORCE, WORLD_EXTENT,
};
use crate::dna::{
    force_on, spec_active_indices, spec_all_indices, spec_attractions, spec_disable_report,
    spec_emissions, spec_force_on, spec_indices_within, spec_is_fresh, spec_is_mutant,
    spec_last_of_kind, spec_rates_read, Codon, MutationRates, PrimaryBases, DNA,
};
use crate::fixed::{
    magnitude, minus, negated, over, plus, spec_magnitude, spec_minus, spec_negated, spec_over,
    spec_plus, spec_times, times, Fixed, SCALE,
};
use crate::random::draw_between;
use rustc_hash::FxHashMap;
use vstd::prelude::*;

verus! {

/// A living cell.
#[derive(Debug)]
pub struct Cell {
    /// The identifier under which the world knows the cell.
    pub id: u64,
    /// The genome.
    pub dna: DNA,
    /// How strongly each force pulls the cell.
    pub attractions: FxHashMap<u16, Fixed>,
    /// The forces that the cell emits, with their magnitudes.
    pub emissions: Vec<(u16, Fixed)>,
    /// The food reserve from which the cell replicates.
    pub food_to_replicate: Fixed,
    /// The squared distance within which the cell eats.
    pub size: Fixed,
    /// Where the cell is.
    pub x: Fixed,
    pub y: Fixed,
    /// Where the forces received so far would take it.
    pub next_x: Fixed,
    pub next_y: Fixed,
    /// The food reserve.
    pub food: Fixed,
    /// The forces received since the last reset, summed by force.
    pub last_forces: FxHashMap<u16, Fixed>,
    /// Ticks lived.
    pub iterations: usize,
    /// The food that the cell burns each tick without moving.
    pub _initial_food_usage: Fixed,
}

/// What a cell is, with its collections as mathematical values.
pub struct CellView {
    pub id: u64,
    pub dna: Seq<Codon>,
    pub attractions: Map<u16, Fixed>,
    pub emissions: Seq<(u16, Fixed)>,
    pub food_to_replicate: Fixed,
    pub size: Fixed,
    pub x: Fixed,
    pub y: Fixed,
    pub next_x: Fixed,
    pub next_y: Fixed,
    pub food: Fixed,
    pub last_forces: Map<u16, Fixed>,
    pub iterations: usize,
    pub initial_food_usage: Fixed,
}

impl View for Cell {
    type V = CellView;

    open spec fn view(&self) -> CellView {
        CellView {
            id: self.id,
            dna: self.dna@,
            attractions: self.attractions@,
            emissions: self.emissions@,
            food_to_replicate: self.food_to_replicate,
            size: self.size,
            x: self.x,
            y: self.y,
            next_x: self.next_x,
            next_y: self.next_y,
            food: self.food,
            last_forces: self.last_forces@,
            iterations: self.iterations,
            initial_food_usage: self._initial_food_usage,
        }
    }
}

/// A list with the same entries.
pub fn copy_of(list: &Vec<(u16, Fixed)>) -> (copy: Vec<(u16, Fixed)>)
    ensures
        copy@ == list@,
{
    let mut copy: Vec<(u16, Fixed)> = Vec::new();
    let mut index: usize = 0;
    while index < list.len()
        invariant
            index <= list@.len(),
            copy@ == list@.take(index as int),
        decreases list@.len() - index,
    {
        copy.push(list[index]);
        assert(copy@ =~= list@.take(index + 1));
        index += 1;
    }
    assert(list@.take(index as int) =~= list@);
    copy
}

impl Clone for Cell {
    fn clone(&self) -> (copy: Self)
        ensures
            copy@ == self@,
    {
        let emissions = copy_of(&self.emissions);
        Cell {
            id: self.id,
            dna: self.dna.clone(),
            attractions: self.attractions.clone(),
            emissions,
            food_to_replicate: self.food_to_replicate,
            size: self.size,
            x: self.x,
            y: self.y,
            next_x: self.next_x,
            next_y: self.next_y,
            food: self.food,
            last_forces: self.last_forces.clone(),
            iterations: self.iterations,
            _initial_food_usage: self._initial_food_usage,
        }
    }
}

/// What one emission costs each tick: toxin costs more than other forces.
pub open spec fn spec_emission_cost(emission: (u16, Fixed)) -> Fixed {
    if emission.0 == TOXIN_FORCE {
        spec_times(emission.1, FOOD_USED_PER_TOXIN_UNIT_EMITTED)
    } else {
        spec_times(emission.1, FOOD_USED_PER_FORCE_EMITTED)
    }
}

/// `start` and the cost of each emission, added in the order of the list.
pub open spec fn spec_with_emission_costs(start: Fixed, emissions: Seq<(u16, Fixed)>) -> Fixed
    decreases emissions.len(),
{
    if emissions.len() == 0 {
        start
    } else {
        spec_plus(
            spec_with_emission_costs(start, emissions.drop_last()),
            spec_emission_cost(emissions.last()),
        )
    }
}

/// The food that a cell of this size and with these emissions burns each
/// tick without moving.
pub open spec fn spec_upkeep(size: Fixed, emissions: Seq<(u16, Fixed)>) -> Fixed {
    spec_plus(
        spec_with_emission_costs(spec_times(size, FOOD_USED_PER_SIZE_UNIT), emissions),
        FOOD_USED_PER_FRAME,
    )
}

/// The cell that is made of a genome at a place, with the forces that were
/// around at that time.
pub open spec fn spec_new_cell(
    id: u64,
    initial_forces: Map<u16, Fixed>,
    dna: Seq<Codon>,
    x: Fixed,
    y: Fixed,
) -> CellView {
    let active = spec_active_indices(dna, initial_forces, dna.len());
    let size = spec_last_of_kind(dna, active, PrimaryBases::CellSize, DEFAULT_CELL_SIZE_SQ);
    let emissions = spec_emissions(dna, active);
    CellView {
        id,
        dna,
        attractions: spec_attractions(dna, active),
        emissions,
        food_to_replicate: spec_last_of_kind(
            dna,
            active,
            PrimaryBases::ReplicationFood,
            DEFAULT_FOOD_TO_REPLICATE,
        ),
        size,
        x,
        y,
        next_x: x,
        next_y: y,
        food: CELL_STARTING_FOOD,
        last_forces: Map::empty(),
        iterations: 0,
        initial_food_usage: spec_upkeep(size, emissions),
    }
}

/// The cell after it has received `magnitude` of `force` from the point
/// (`force_x`, `force_y`).
///
/// Toxin takes food away at once. The force is added to what the cell has
/// received. Unless the source is too near, the cell's next position moves
/// toward the source by the magnitude, times the cell's attraction to the
/// force, over the squared distance, along each axis.
pub open spec fn spec_receive(
    cell: CellView,
    force: u16,
    magnitude: Fixed,
    force_x: Fixed,
    force_y: Fixed,
) -> CellView {
    let food = if force == TOXIN_FORCE {
        spec_minus(cell.food, spec_times(magnitude, FOOD_STOLEN_PER_TOXIN_UNIT))
    } else {
        cell.food
    };
    let last_forces = cell.last_forces.insert(
        force,
        spec_plus(spec_force_on(cell.last_forces, force), magnitude),
    );
    let x = spec_minus(cell.x, force_x);
    let y = spec_minus(cell.y, force_y);
    let distance_sq = spec_plus(spec_times(x, x), spec_times(y, y));
    if distance_sq < MIN_FORCE_DISTANCE_SQ {
        CellView { food, last_forces, ..cell }
    } else {
        let scaled_force = spec_over(
            spec_times(magnitude, spec_force_on(cell.attractions, force)),
            distance_sq,
        );
        CellView {
            food,
            last_forces,
            next_x: spec_plus(cell.next_x, spec_times(spec_negated(x), scaled_force)),
            next_y: spec_plus(cell.next_y, spec_times(spec_negated(y), scaled_force)),
            ..cell
        }
    }
}

/// The cell after it has received each of `forces`, in order, from the point
/// (`force_x`, `force_y`).
pub open spec fn spec_add_forces(
    cell: CellView,
    forces: Seq<(u16, Fixed)>,
    force_x: Fixed,
    force_y: Fixed,
) -> CellView
    decreases forces.len(),
{
    if forces.len() == 0 {
        cell
    } else {
        spec_receive(
            spec_add_forces(cell, forces.drop_last(), force_x, force_y),
            forces.last().0,
            forces.last().1,
            force_x,
            force_y,
        )
    }
}

/// Whether a proposed coordinate lies in the world.
pub open spec fn spec_in_world(coordinate: Fixed) -> bool {
    0 <= coordinate < WORLD_EXTENT
}

/// The coordinate after a move: the proposed one if it lies in the world,
/// else the present one.
pub open spec fn spec_moved(present: Fixed, proposed: Fixed) -> Fixed {
    if spec_in_world(proposed) {
        proposed
    } else {
        present
    }
}

/// The food that a tick costs a cell that went from (`prev_x`, `prev_y`) to
/// (`x`, `y`): its upkeep, and a price on the distance along each axis.
pub open spec fn spec_food_usage(
    upkeep: Fixed,
    prev_x: Fixed,
    prev_y: Fixed,
    x: Fixed,
    y: Fixed,
) -> Fixed {
    spec_plus(
        spec_plus(
            upkeep,
            spec_times(spec_magnitude(spec_minus(x, prev_x)), FOOD_USED_PER_UNIT_MOVED),
        ),
        spec_times(spec_magnitude(spec_minus(y, prev_y)), FOOD_USED_PER_UNIT_MOVED),
    )
}

/// The cell after one tick of its own: moved to its next position, where
/// that lies in the world, charged for the tick, and one tick older.
pub open spec fn spec_updated(cell: CellView) -> CellView {
    let x = spec_moved(cell.x, cell.next_x);
    let y = spec_moved(cell.y, cell.next_y);
    CellView {
        x,
        y,
        next_x: x,
        next_y: y,
        food: spec_minus(
            cell.food,
            spec_food_usage(cell.initial_food_usage, cell.x, cell.y, x, y),
        ),
        iterations: if cell.iterations < usize::MAX {
            (cell.iterations + 1) as usize
        } else {
            cell.iterations
        },
        ..cell
    }
}

/// Whether the cell has starved or outlived its span.
pub open spec fn spec_is_dead(cell: CellView) -> bool {
    cell.food <= 0 || cell.iterations >= MAX_LIFESPAN
}

/// Whether the cell has the food to replicate.
pub open spec fn spec_can_replicate(cell: CellView) -> bool {
    cell.food >= cell.food_to_replicate
}

/// The step that a child is set off from its parent along one axis: one
/// whole back, or one forward where a step back would leave the world.
pub open spec fn spec_offset(coordinate: Fixed) -> Fixed {
    if coordinate >= SCALE {
        spec_negated(SCALE)
    } else {
        SCALE
    }
}

/// A child of a parent in the world lies in the world.
pub proof fn lemma_offset_stays_in_world(coordinate: Fixed)
    requires
        spec_in_world(coordinate),
    ensures
        spec_in_world(spec_plus(coordinate, spec_offset(coordinate))),
{
}

/// The food that replication costs a cell with this threshold: the share of
/// the threshold that it does not keep.
pub open spec fn spec_replication_cost(food_to_replicate: Fixed) -> Fixed {
    spec_times(food_to_replicate, spec_minus(SCALE, FOOD_RETENTION_FROM_REPLICATION))
}

/// The cell with the forces received forgotten.
pub open spec fn spec_rested(cell: CellView) -> CellView {
    CellView { last_forces: Map::empty(), ..cell }
}

/// The cell after it has paid for a replication.
pub open spec fn spec_paid(cell: CellView) -> CellView {
    CellView {
        food: spec_minus(cell.food, spec_replication_cost(cell.food_to_replicate)),
        ..cell
    }
}

/// Whether `child` can be what `parent` makes under the identifier `id`: a
/// cell one step off along each axis, with the phenotype that the parent's
/// genome has under the forces that the parent last received, and with a
/// genome that one mutation event makes of the parent's, the codons being
/// read as under those forces.
pub open spec fn spec_is_child(parent: CellView, id: u64, child: CellView) -> bool {
    &&& spec_is_mutant(
        parent.dna,
        spec_active_indices(parent.dna, parent.last_forces, parent.dna.len()),
        child.dna,
    )
    &&& child == CellView {
        dna: child.dna,
        ..spec_new_cell(
            id,
            parent.last_forces,
            parent.dna,
            spec_plus(parent.x, spec_offset(parent.x)),
            spec_plus(parent.y, spec_offset(parent.y)),
        )
    }
}

/// Whether two cells differ at most in what forces change: the food
/// reserve, the next position and the forces received.
pub open spec fn spec_same_but_forces(before: CellView, after: CellView) -> bool {
    after == (CellView {
        food: after.food,
        next_x: after.next_x,
        next_y: after.next_y,
        last_forces: after.last_forces,
        ..before
    })
}

/// Receiving forces changes nothing of a cell but its food reserve, its
/// next position and the forces received.
pub proof fn lemma_add_forces_frame(
    cell: CellView,
    forces: Seq<(u16, Fixed)>,
    force_x: Fixed,
    force_y: Fixed,
)
    ensures
        spec_same_but_forces(cell, spec_add_forces(cell, forces, force_x, force_y)),
    decreases forces.len(),
{
    if forces.len() > 0 {
        lemma_add_forces_frame(cell, forces.drop_last(), force_x, force_y);
    }
}

/// The squared distance between two points.
pub open spec fn spec_distance_sq(ax: Fixed, ay: Fixed, bx: Fixed, by: Fixed) -> Fixed {
    spec_plus(
        spec_times(spec_minus(ax, bx), spec_minus(ax, bx)),
        spec_times(spec_minus(ay, by), spec_minus(ay, by)),
    )
}

/// The squared distance between two points.
#[verifier::when_used_as_spec(spec_distance_sq)]
pub fn distance_sq(ax: Fixed, ay: Fixed, bx: Fixed, by: Fixed) -> (d: Fixed)
    ensures
        d == spec_distance_sq(ax, ay, bx, by),
{
    let dx = minus(ax, bx);
    let dy = minus(ay, by);
    plus(times(dx, dx), times(dy, dy))
}

/// Whether a cell is as [`Cell::new`] makes one: a genome of one fresh
/// codon, read with no forces around, at a place in the world.
pub open spec fn spec_is_newborn(cell: CellView) -> bool {
    &&& cell == spec_new_cell(cell.id, Map::empty(), cell.dna, cell.x, cell.y)
    &&& cell.dna.len() == 1
    &&& spec_is_fresh(cell.dna[0])
    &&& spec_in_world(cell.x)
    &&& spec_in_world(cell.y)
}

impl Cell {
    /// Makes a cell of a genome at (`x`, `y`), with the forces around at that
    /// time, and lists the codons that are read.
    pub fn _new(id: u64, initial_forces: FxHashMap<u16, Fixed>, dna: DNA, x: Fixed,
        y: Fixed) -> (made:
        (Cell, Vec<usize>))
        ensures
            made.0@ == spec_new_cell(id, initial_forces@, dna@, x, y),
            made.1@ == spec_active_indices(dna@, initial_forces@, dna@.len()),
            spec_indices_within(made.1@, dna@.len()),
    {
        let activated_codons = dna.get_activated_codons(&initial_forces);
        let (attractions, emissions, food_to_replicate, size) = dna.process_dna(
            activated_codons.as_slice(),
        );
        let mut usage = times(size, FOOD_USED_PER_SIZE_UNIT);
        let mut index: usize = 0;
        while index < emissions.len()
            invariant
                index <= emissions@.len(),
                usage == spec_with_emission_costs(
                    spec_times(size, FOOD_USED_PER_SIZE_UNIT),
                    emissions@.take(index as int),
                ),
            decreases emissions@.len() - index,
        {
            let (force, magnitude) = emissions[index];
            assert(emissions@.take(index + 1).drop_last() =~= emissions@.take(index as int));
            if force == TOXIN_FORCE {
                usage = plus(usage, times(magnitude, FOOD_USED_PER_TOXIN_UNIT_EMITTED));
            } else {
                usage = plus(usage, times(magnitude, FOOD_USED_PER_FORCE_EMITTED));
            }
            index += 1;
        }
        assert(emissions@.take(index as int) =~= emissions@);
        usage = plus(usage, FOOD_USED_PER_FRAME);
        (
            Cell {
                id,
                dna,
                attractions,
                emissions,
                food_to_replicate,
                size,
                x,
                y,
                next_x: x,
                next_y: y,
                food: CELL_STARTING_FOOD,
                last_forces: FxHashMap::default(),
                iterations: 0,
                _initial_food_usage: usage,
            },
            activated_codons,
        )
    }

    /// Makes a cell with a genome of one fresh codon at a place drawn from
    /// the world.
    pub fn new(id: u64, initial_forces: FxHashMap<u16, Fixed>) -> (cell: Cell)
        ensures
            cell@ == spec_new_cell(id, initial_forces@, cell@.dna, cell@.x, cell@.y),
            cell@.dna.len() == 1,
            spec_is_fresh(cell@.dna[0]),
            spec_in_world(cell@.x),
            spec_in_world(cell@.y),
    {
        let dna = DNA::new();
        let mut rng = rand::thread_rng();
        let x = draw_between(&mut rng, 0, WORLD_EXTENT - 1);
        let y = draw_between(&mut rng, 0, WORLD_EXTENT - 1);
        let (cell, _) = Cell::_new(id, initial_forces, dna, x, y);
        cell
    }

    /// Adds to the food reserve.
    pub fn add_food(&mut self, food: Fixed)
        ensures
            *final(self) == (Cell { food: spec_plus(old(self).food, food), ..*old(self) }),
    {
        self.food = plus(self.food, food);
    }

    /// Takes from the food reserve.
    pub fn remove_food(&mut self, food: Fixed)
        ensures
            *final(self) == (Cell { food: spec_minus(old(self).food, food), ..*old(self) }),
    {
        self.food = minus(self.food, food);
    }

    /// Receives `forces`, in order, from the point (`force_x`, `force_y`).
    pub fn add_forces(&mut self, forces: &[(u16, Fixed)], force_x: Fixed, force_y: Fixed)
        ensures
            final(self)@ == spec_add_forces(old(self)@, forces@, force_x, force_y),
    {
        let mut index: usize = 0;
        while index < forces.len()
            invariant
                index <= forces@.len(),
                self@ == spec_add_forces(old(self)@, forces@.take(index as int), force_x, force_y),
            decreases forces@.len() - index,
        {
            let (force, magnitude) = forces[index];
            assert(forces@.take(index + 1).drop_last() =~= forces@.take(index as int));
            self.receive(force, magnitude, force_x, force_y);
            index += 1;
        }
        assert(forces@.take(index as int) =~= forces@);
    }

    /// Receives `magnitude` of `force` from the point (`force_x`, `force_y`).
    pub fn receive(&mut self, force: u16, magnitude: Fixed, force_x: Fixed, force_y: Fixed)
        ensures
            final(self)@ == spec_receive(old(self)@, force, magnitude, force_x, force_y),
    {
        if force == TOXIN_FORCE {
            self.remove_food(times(magnitude, FOOD_STOLEN_PER_TOXIN_UNIT));
        }
        let received = plus(force_on(&self.last_forces, force), magnitude);
        map_insert(&mut self.last_forces, force, received);
        let x = minus(self.x, force_x);
        let y = minus(self.y, force_y);
        let distance_sq = plus(times(x, x), times(y, y));
        if distance_sq >= MIN_FORCE_DISTANCE_SQ {
            let scaled_force = over(
                times(magnitude, force_on(&self.attractions, force)),
                distance_sq,
            );
            self.next_x = plus(self.next_x, times(negated(x), scaled_force));
            self.next_y = plus(self.next_y, times(negated(y), scaled_force));
        }
    }

    /// One tick of the cell's own: it moves to its next position, where that
    /// lies in the world, pays for the tick, and ages. Returns where it was.
    pub fn update(&mut self) -> (previous: (Fixed, Fixed))
        ensures
            previous == (old(self).x, old(self).y),
            final(self)@ == spec_updated(old(self)@),
            final(self).dna == old(self).dna,
            final(self).attractions == old(self).attractions,
            final(self).emissions == old(self).emissions,
            final(self).last_forces == old(self).last_forces,
    {
        let prev_x = self.x;
        let prev_y = self.y;
        self.update_pos();
        self.update_food(prev_x, prev_y);
        if self.iterations < usize::MAX {
            self.iterations += 1;
        }
        (prev_x, prev_y)
    }

    /// Moves the cell to its next position, along each axis on which that
    /// lies in the world.
    pub fn update_pos(&mut self)
        ensures
            *final(self) == (Cell {
                x: spec_moved(old(self).x, old(self).next_x),
                y: spec_moved(old(self).y, old(self).next_y),
                next_x: spec_moved(old(self).x, old(self).next_x),
                next_y: spec_moved(old(self).y, old(self).next_y),
                ..*old(self)
            }),
    {
        if self.next_x < 0 || self.next_x >= WORLD_EXTENT {
            self.next_x = self.x;
        }
        if self.next_y < 0 || self.next_y >= WORLD_EXTENT {
            self.next_y = self.y;
        }
        self.x = self.next_x;
        self.y = self.next_y;
    }

    /// The food that a tick costs the cell, having come from (`prev_x`,
    /// `prev_y`).
    pub fn calculate_general_food_usage(&self, prev_x: Fixed, prev_y: Fixed) -> (usage: Fixed)
        ensures
            usage == spec_food_usage(self._initial_food_usage, prev_x, prev_y, self.x, self.y),
    {
        let mut food_usage = self._initial_food_usage;
        food_usage = plus(
            food_usage,
            times(magnitude(minus(self.x, prev_x)), FOOD_USED_PER_UNIT_MOVED),
        );
        food_usage = plus(
            food_usage,
            times(magnitude(minus(self.y, prev_y)), FOOD_USED_PER_UNIT_MOVED),
        );
        food_usage
    }

    /// Charges the cell for a tick, having come from (`prev_x`, `prev_y`).
    pub fn update_food(&mut self, prev_x: Fixed, prev_y: Fixed)
        ensures
            *final(self) == (Cell {
                food: spec_minus(
                    old(self).food,
                    spec_food_usage(
                        old(self)._initial_food_usage,
                        prev_x,
                        prev_y,
                        old(self).x,
                        old(self).y,
                    ),
                ),
                ..*old(self)
            }),
    {
        let food_usage = self.calculate_general_food_usage(prev_x, prev_y);
        self.remove_food(food_usage);
    }

    /// Makes a child under the identifier `id` and pays for it.
    ///
    /// The child stands one step off along each axis, inside the world if
    /// the parent is. Its phenotype is that
    /// of the parent's genome under the forces that the parent last
    /// received; its own genome is a mutant of the parent's.
    pub fn replicate(&mut self, id: u64) -> (child: Cell)
        ensures
            spec_is_child(old(self)@, id, child@),
            spec_in_world(old(self).x) ==> spec_in_world(child.x),
            spec_in_world(old(self).y) ==> spec_in_world(child.y),
            *final(self) == (Cell {
                food: spec_minus(
                    old(self).food,
                    spec_replication_cost(old(self).food_to_replicate),
                ),
                ..*old(self)
            }),
    {
        let x_change: Fixed = if self.x >= SCALE {
            negated(SCALE)
        } else {
            SCALE
        };
        let y_change: Fixed = if self.y >= SCALE {
            negated(SCALE)
        } else {
            SCALE
        };
        let (mut new_cell, activated_codons) = Cell::_new(
            id,
            self.last_forces.clone(),
            self.dna.clone(),
            plus(self.x, x_change),
            plus(self.y, y_change),
        );
        new_cell.dna.mutate(activated_codons.as_slice());
        self.food = minus(
            self.food,
            times(self.food_to_replicate, minus(SCALE, FOOD_RETENTION_FROM_REPLICATION)),
        );
        new_cell
    }

    /// Whether the cell has the food to replicate.
    pub fn can_replicate(&self) -> (yes: bool)
        ensures
            yes == spec_can_replicate(self@),
            yes == (self.food >= self.food_to_replicate),
    {
        self.food >= self.food_to_replicate
    }

    /// Forgets the forces received.
    pub fn reset(&mut self)
        ensures
            final(self)@ == (CellView { last_forces: Map::empty(), ..old(self)@ }),
            final(self).id == old(self).id,
            final(self).dna == old(self).dna,
            final(self).attractions == old(self).attractions,
            final(self).emissions == old(self).emissions,
    {
        self.last_forces.clear();
    }

    /// Whether the cell has starved or outlived its span.
    pub fn is_dead(&self) -> (yes: bool)
        ensures
            yes == spec_is_dead(self@),
            yes == (self.food <= 0 || self.iterations >= MAX_LIFESPAN),
    {
        self.food <= 0 || self.iterations >= MAX_LIFESPAN
    }

    /// The forces that the cell emits, with their magnitudes.
    pub fn get_emissions(&self) -> (emissions: Vec<(u16, Fixed)>)
        ensures
            emissions@ == self.emissions@,
    {
        copy_of(&self.emissions)
    }

    /// Where the cell is along the first axis.
    pub fn get_x(&self) -> (x: Fixed)
        ensures
            x == self.x,
    {
        self.x
    }

    /// Where the cell is along the second axis.
    pub fn get_y(&self) -> (y: Fixed)
        ensures
            y == self.y,
    {
        self.y
    }
}

/// A cell laid out for reading: its state, its genome, and what the genome
/// says of the phenotype and of the mutation rates.
#[derive(Debug)]
pub struct ReadableCell {
    pub x: Fixed,
    pub y: Fixed,
    pub food: Fixed,
    pub dna: DNA,
    pub attractions: FxHashMap<u16, Fixed>,
    pub emissions: Vec<(u16, Fixed)>,
    /// Every disable codon of the genome, with its index and whether it
    /// fires under the forces that the cell last received.
    pub disabled_codons: Vec<(usize, bool)>,
    pub global_mutation_rate: Fixed,
    pub individual_mutation_rates: FxHashMap<usize, Fixed>,
    pub primary_mutation_rate: Fixed,
    pub secondary_mutation_rate: Fixed,
    pub add_codon_mutation_rate: Fixed,
    pub remove_codon_mutation_rate: Fixed,
    pub food_to_replicate: Fixed,
    pub size: Fixed,
}

impl ReadableCell {
    /// The mutation rates that the record holds.
    pub open spec fn spec_rates(&self) -> MutationRates {
        (
            self.global_mutation_rate,
            self.individual_mutation_rates,
            self.primary_mutation_rate,
            self.secondary_mutation_rate,
            self.add_codon_mutation_rate,
            self.remove_codon_mutation_rate,
        )
    }

    /// Lays a cell out for reading. The mutation rates are those that the
    /// whole genome asks for.
    pub fn new(cell: &Cell) -> (record: ReadableCell)
        ensures
            record.x == cell.x,
            record.y == cell.y,
            record.food == cell.food,
            record.dna@ == cell.dna@,
            record.attractions@ == cell.attractions@,
            record.emissions@ == cell.emissions@,
            record.disabled_codons@ == spec_disable_report(
                cell.dna@,
                cell.last_forces@,
                cell.dna@.len(),
            ),
            spec_rates_read(record.spec_rates(), cell.dna@, spec_all_indices(cell.dna@.len())),
            record.food_to_replicate == cell.food_to_replicate,
            record.size == cell.size,
    {
        let (
            global_mutation_rate,
            individual_mutation_rates,
            primary_mutation_rate,
            secondary_mutation_rate,
            add_codon_mutation_rate,
            remove_codon_mutation_rate,
        ) = cell.dna.get_mutation_rates_no_rng();
        ReadableCell {
            x: cell.x,
            y: cell.y,
            food: cell.food,
            dna: cell.dna.clone(),
            attractions: cell.attractions.clone(),
            emissions: cell.get_emissions(),
            disabled_codons: cell.dna.get_disabled_codons(&cell.last_forces),
            global_mutation_rate,
            individual_mutation_rates,
            primary_mutation_rate,
            secondary_mutation_rate,
            add_codon_mutation_rate,
            remove_codon_mutation_rate,
            food_to_replicate: cell.food_to_replicate,
            size: cell.size,
        }
    }
}

} // verus!
