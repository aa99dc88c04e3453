//! The parameters of the world. Quantities are [`Fixed`] values, in millionths.

use crate::fixed::Fixed;
use vstd::prelude::*;

verus! {

/// Side length of the square world.
pub const GAME_SIZE: usize = 2000;

/// Side length of one square bucket of the spatial grid.
pub const GRID_CELL_SIZE: usize = 100;

/// Cells placed by a fresh start.
pub const STARTING_CELLS: usize = 1000;

/// Food items placed by a fresh start.
pub const STARTING_FOOD: usize = 2000;

/// Value of a food item that the world spawns.
pub const DEFAULT_FOOD_VALUE: Fixed = 25_000_000;

/// Value of the food item that a dead cell leaves.
pub const DEFAULT_CELL_FOOD_VALUE: Fixed = 20_000_000;

/// Food items spawned at the end of a tick.
pub const FOOD_ADDED_PER_FRAME: usize = 10;

/// No food is spawned while at least this many items lie in the world.
pub const MAX_FOOD: usize = 2000;

/// Forces reach as far as the square root of this squared distance.
pub const FORCE_MAX_RANGE_SQ: Fixed = 10_000_000_000;

/// Identifier of the force that food emits.
pub const FOOD_FORCE: u16 = 0;

/// Identifier of the force that drains the food of whoever receives it.
pub const TOXIN_FORCE: u16 = 1;

/// Food reserve of a newly made cell.
pub const CELL_STARTING_FOOD: Fixed = 50_000_000;

/// No cell replicates while at least this many are alive.
pub const MAX_CELLS: usize = 2000;

/// A replication threshold is at least this multiple of the starting food.
pub const MIN_FOOD_TO_REPLICATE_RATIO: Fixed = 1_100_000;

/// Largest magnitude of a toxin emission.
pub const MAX_TOXIN_FORCE: Fixed = 5_000_000;

/// Ticks after which a cell dies of age.
pub const MAX_LIFESPAN: usize = 5000;

/// Chance that one mutation event ignores the rates the genome asks for.
pub const FUDGED_MUTATION_RATE_CHANCE: Fixed = 10;

/// Chance that a codon mutates, unless the genome says otherwise.
pub const DEFAULT_MUTATION_RATE: Fixed = 10_000;

/// Share of mutations that redraw the kind of the codon.
pub const DEFAULT_PRIMARY_MUTATION_RATE: Fixed = 1_000;

/// Share of mutations, above the primary share, that shift the identifier.
pub const DEFAULT_SECONDARY_MUTATION_RATE: Fixed = 10_000;

/// Chance that a mutation event inserts a codon.
pub const DEFAULT_ADD_CODON_MUTATION_RATE: Fixed = 1_000;

/// Chance that a mutation event deletes a codon.
pub const DEFAULT_REMOVE_CODON_MUTATION_RATE: Fixed = 1_000;

/// Replication threshold of a genome that names none.
pub const DEFAULT_FOOD_TO_REPLICATE: Fixed = 60_000_000;

/// Squared reach of a cell whose genome names no size.
pub const DEFAULT_CELL_SIZE_SQ: Fixed = 16_000_000;

/// Food that a cell burns each tick whatever it does.
pub const FOOD_USED_PER_FRAME: Fixed = 200_000;

/// Food that one unit of received toxin takes away.
pub const FOOD_STOLEN_PER_TOXIN_UNIT: Fixed = 5_000_000;

/// Food burnt per unit of distance moved along an axis.
pub const FOOD_USED_PER_UNIT_MOVED: Fixed = 20_000;

/// Food burnt each tick per unit of size.
pub const FOOD_USED_PER_SIZE_UNIT: Fixed = 50_000;

/// Food burnt each tick per unit of force emitted.
pub const FOOD_USED_PER_FORCE_EMITTED: Fixed = 1_000;

/// Food burnt each tick per unit of toxin emitted.
pub const FOOD_USED_PER_TOXIN_UNIT_EMITTED: Fixed = 2_000;

/// Food that a codon of the genome is priced at.
pub const FOOD_USED_PER_CODON: Fixed = 100;

/// Share of the replication threshold that a parent keeps.
pub const FOOD_RETENTION_FROM_REPLICATION: Fixed = 500_000;

/// A force from nearer than the square root of this squared distance moves
/// nobody.
pub const MIN_FORCE_DISTANCE_SQ: Fixed = 100_000;

/// The world's side length as a coordinate.
pub const WORLD_EXTENT: Fixed = 2_000_000_000;

/// One bucket's side length as a coordinate.
pub const BUCKET_EXTENT: Fixed = 100_000_000;

/// Buckets along one axis of the grid.
pub const BUCKETS_PER_AXIS: usize = 20;

/// Buckets in the grid.
pub const BUCKET_COUNT: usize = 400;

} // verus!
