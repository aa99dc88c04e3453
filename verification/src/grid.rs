//! The spatial grid: the world cut into square buckets, each holding the
//! identifiers of the cells and of the food items that lie in it.

use crate::collections::{set_insert, set_items, set_remove};
use crate::config::{BUCKETS_PER_AXIS, BUCKET_COUNT, BUCKET_EXTENT, WORLD_EXTENT};
use crate::fixed::Fixed;
use rustc_hash::FxHashSet;
use vstd::prelude::*;

verus! {

/// Whether a coordinate falls into a bucket of the grid: it is less than the
/// extent of the world. A negative coordinate falls into the first bucket.
pub open spec fn spec_on_grid(coordinate: Fixed) -> bool {
    coordinate < WORLD_EXTENT
}

/// The bucket, along one axis, into which a coordinate falls.
pub open spec fn spec_axis_bucket(coordinate: Fixed) -> int {
    if coordinate < 0 {
        0
    } else {
        coordinate as int / BUCKET_EXTENT as int
    }
}

/// The index of the bucket into which the point (`x`, `y`) falls: buckets
/// are numbered row by row.
pub open spec fn spec_bucket_index(x: Fixed, y: Fixed) -> int {
    spec_axis_bucket(y) * BUCKETS_PER_AXIS + spec_axis_bucket(x)
}

/// Whether two numbers differ by at most one.
pub open spec fn spec_within_one(a: int, b: int) -> bool {
    a - 1 <= b <= a + 1
}

/// Whether the buckets `a` and `b` touch: they are the same bucket, or
/// neighbours along an axis or a diagonal.
pub open spec fn spec_adjacent(a: int, b: int) -> bool {
    &&& 0 <= a < BUCKET_COUNT
    &&& 0 <= b < BUCKET_COUNT
    &&& spec_within_one(a % BUCKETS_PER_AXIS as int, b % BUCKETS_PER_AXIS as int)
    &&& spec_within_one(a / BUCKETS_PER_AXIS as int, b / BUCKETS_PER_AXIS as int)
}

/// Whether `id` lies in a bucket that touches the bucket `index`.
pub open spec fn spec_near(buckets: Seq<Set<u64>>, index: int, id: u64) -> bool {
    exists|b: int| #[trigger] spec_adjacent(index, b) && buckets[b].contains(id)
}

/// Whether no identifier lies in two buckets.
pub open spec fn spec_disjoint(buckets: Seq<Set<u64>>) -> bool {
    forall|a: int, b: int, id: u64|
        0 <= a < buckets.len() && 0 <= b < buckets.len() && #[trigger] buckets[a].contains(id)
            && #[trigger] buckets[b].contains(id) ==> a == b
}

/// The grid of buckets.
#[derive(Debug)]
pub struct SpatialGrid {
    /// The cells in each bucket.
    pub grid: Vec<FxHashSet<u64>>,
    /// The food items in each bucket.
    pub food_grid: Vec<FxHashSet<u64>>,
    /// For each bucket, the buckets that touch it.
    pub relation: Vec<Vec<usize>>,
}

/// The bucket, along one axis, into which a coordinate falls.
pub fn axis_bucket(coordinate: Fixed) -> (bucket: usize)
    requires
        spec_on_grid(coordinate),
    ensures
        bucket == spec_axis_bucket(coordinate),
        bucket < BUCKETS_PER_AXIS,
{
    if coordinate < 0 {
        0
    } else {
        let wide: u64 = coordinate as u64;
        assert(wide < 2_000_000_000 && BUCKET_EXTENT == 100_000_000);
        assert(wide / 100_000_000 < 20);
        (wide / (BUCKET_EXTENT as u64)) as usize
    }
}

/// What a list of bucket sets holds, bucket by bucket.
pub open spec fn spec_contents(buckets: Seq<FxHashSet<u64>>) -> Seq<Set<u64>> {
    Seq::new(buckets.len(), |i: int| buckets[i]@)
}

/// Pushing an item adds it to what a list holds, and nothing else.
pub proof fn lemma_push_contains<T>(list: Seq<T>, item: T, other: T)
    ensures
        list.push(item).contains(other) <==> list.contains(other) || other == item,
{
    let longer = list.push(item);
    if longer.contains(other) {
        let k = choose|k: int| 0 <= k < longer.len() && longer[k] == other;
        if k < list.len() {
            assert(list[k] == other);
        }
    }
    if list.contains(other) {
        let k = choose|k: int| 0 <= k < list.len() && list[k] == other;
        assert(longer[k] == other);
    }
    assert(longer[list.len() as int] == item);
}

/// The `k`-th place of the block of three by three around the place in
/// column `x` of row `y`, counted row by row: the row above first, and in
/// each row the column to the left first.
pub open spec fn spec_around(x: int, y: int, k: int) -> (int, int) {
    (x + k % 3 - 1, y + k / 3 - 1)
}

/// Whether a place lies on a square grid of `grid_size` places a side.
pub open spec fn spec_on_square(place: (int, int), grid_size: int) -> bool {
    0 <= place.0 < grid_size && 0 <= place.1 < grid_size
}

/// The first `upto` places of the block around (`x`, `y`) that lie on the
/// grid, in the order of [`spec_around`]: each as column and row.
pub open spec fn spec_neighbors_indices(x: int, y: int, grid_size: int, upto: nat) -> Seq<
    (usize, usize),
>
    decreases upto,
{
    if upto == 0 {
        Seq::empty()
    } else {
        let before = spec_neighbors_indices(x, y, grid_size, (upto - 1) as nat);
        let place = spec_around(x, y, upto - 1);
        if spec_on_square(place, grid_size) {
            before.push((place.0 as usize, place.1 as usize))
        } else {
            before
        }
    }
}

/// The places listed by [`spec_neighbors_indices`] are, each once, the
/// places of the block that lie on the grid.
pub proof fn lemma_neighbors_indices(x: int, y: int, grid_size: int, upto: nat)
    requires
        0 <= x <= usize::MAX,
        0 <= y <= usize::MAX,
        0 <= grid_size <= usize::MAX,
        upto <= 9,
    ensures
        spec_neighbors_indices(x, y, grid_size, upto).no_duplicates(),
        forall|a: usize, b: usize|
            spec_neighbors_indices(x, y, grid_size, upto).contains((a, b)) <==> a < grid_size && b
                < grid_size && spec_within_one(x, a as int) && spec_within_one(y, b as int) && (b
                - y + 1) * 3 + (a - x + 1) < upto,
    decreases upto,
{
    if upto > 0 {
        lemma_neighbors_indices(x, y, grid_size, (upto - 1) as nat);
        let before = spec_neighbors_indices(x, y, grid_size, (upto - 1) as nat);
        let now = spec_neighbors_indices(x, y, grid_size, upto);
        let place = spec_around(x, y, upto - 1);
        if spec_on_square(place, grid_size) {
            let pair = (place.0 as usize, place.1 as usize);
            assert((pair.1 - y + 1) * 3 + (pair.0 - x + 1) == upto - 1);
            assert(!before.contains(pair));
            assert forall|a: usize, b: usize|
                now.contains((a, b)) <==> a < grid_size && b < grid_size && spec_within_one(
                    x,
                    a as int,
                ) && spec_within_one(y, b as int) && (b - y + 1) * 3 + (a - x + 1) < upto by {
                lemma_push_contains(before, pair, (a, b));
            }
            assert forall|i: int, j: int|
                0 <= i < now.len() && 0 <= j < now.len() && i != j implies now[i] != now[j] by {
                if i < before.len() {
                    assert(before.contains(before[i]));
                }
                if j < before.len() {
                    assert(before.contains(before[j]));
                }
            }
        } else {
            assert forall|a: usize, b: usize|
                now.contains((a, b)) <==> a < grid_size && b < grid_size && spec_within_one(
                    x,
                    a as int,
                ) && spec_within_one(y, b as int) && (b - y + 1) * 3 + (a - x + 1) < upto by {
                if a < grid_size && b < grid_size && spec_within_one(x, a as int)
                    && spec_within_one(y, b as int) && (b - y + 1) * 3 + (a - x + 1) == upto - 1 {
                    assert(place == (a as int, b as int));
                }
            }
        }
    }
}

/// The place that lies `by - 1` steps from `at`, along an axis of
/// `grid_size` places: if there is such a place.
pub fn step_along(at: usize, by: usize, grid_size: usize) -> (place: Option<usize>)
    requires
        by <= 2,
    ensures
        place == if 0 <= at + by - 1 < grid_size {
            Some((at + by - 1) as usize)
        } else {
            None
        },
{
    if by == 0 {
        if at >= 1 && at - 1 < grid_size {
            Some(at - 1)
        } else {
            None
        }
    } else if by == 1 {
        if at < grid_size {
            Some(at)
        } else {
            None
        }
    } else {
        if at < usize::MAX && at + 1 < grid_size {
            Some(at + 1)
        } else {
            None
        }
    }
}

/// The index of the bucket in column `column` of row `row`.
pub open spec fn spec_flat(column: int, row: int) -> int {
    row * BUCKETS_PER_AXIS + column
}

/// A bucket index gives its column and its row back.
pub proof fn lemma_flat(column: int, row: int)
    requires
        0 <= column < BUCKETS_PER_AXIS,
        0 <= row < BUCKETS_PER_AXIS,
    ensures
        0 <= spec_flat(column, row) < BUCKET_COUNT,
        spec_flat(column, row) % BUCKETS_PER_AXIS as int == column,
        spec_flat(column, row) / BUCKETS_PER_AXIS as int == row,
{
}

/// The indices of the buckets that touch the bucket `index`, itself
/// included, row by row: the buckets of the row above first, and in each
/// row the bucket to the left first.
pub open spec fn spec_touching(index: int) -> Seq<usize> {
    let pairs = spec_neighbors_indices(
        index % BUCKETS_PER_AXIS as int,
        index / BUCKETS_PER_AXIS as int,
        BUCKETS_PER_AXIS as int,
        9,
    );
    Seq::new(pairs.len(), |i: int| spec_flat(pairs[i].0 as int, pairs[i].1 as int) as usize)
}

/// A bucket that lies off the border of the grid is touched by nine: the
/// three above it, the three of its own row and the three below it.
pub proof fn lemma_touching_inside(index: int)
    requires
        0 <= index < BUCKET_COUNT,
        1 <= (index % BUCKETS_PER_AXIS as int) && (index % BUCKETS_PER_AXIS as int) + 1
            < BUCKETS_PER_AXIS,
        1 <= (index / BUCKETS_PER_AXIS as int) && (index / BUCKETS_PER_AXIS as int) + 1
            < BUCKETS_PER_AXIS,
    ensures
        spec_touching(index) == seq![
            (index - BUCKETS_PER_AXIS - 1) as usize,
            (index - BUCKETS_PER_AXIS) as usize,
            (index - BUCKETS_PER_AXIS + 1) as usize,
            (index - 1) as usize,
            index as usize,
            (index + 1) as usize,
            (index + BUCKETS_PER_AXIS - 1) as usize,
            (index + BUCKETS_PER_AXIS) as usize,
            (index + BUCKETS_PER_AXIS + 1) as usize,
        ],
{
    reveal_with_fuel(spec_neighbors_indices, 10);
    let x = index % BUCKETS_PER_AXIS as int;
    let y = index / BUCKETS_PER_AXIS as int;
    let pairs = spec_neighbors_indices(x, y, BUCKETS_PER_AXIS as int, 9);
    assert(pairs =~= seq![
        ((x - 1) as usize, (y - 1) as usize),
        (x as usize, (y - 1) as usize),
        ((x + 1) as usize, (y - 1) as usize),
        ((x - 1) as usize, y as usize),
        (x as usize, y as usize),
        ((x + 1) as usize, y as usize),
        ((x - 1) as usize, (y + 1) as usize),
        (x as usize, (y + 1) as usize),
        ((x + 1) as usize, (y + 1) as usize),
    ]);
    assert(spec_touching(index) =~= seq![
        (index - BUCKETS_PER_AXIS - 1) as usize,
        (index - BUCKETS_PER_AXIS) as usize,
        (index - BUCKETS_PER_AXIS + 1) as usize,
        (index - 1) as usize,
        index as usize,
        (index + 1) as usize,
        (index + BUCKETS_PER_AXIS - 1) as usize,
        (index + BUCKETS_PER_AXIS) as usize,
        (index + BUCKETS_PER_AXIS + 1) as usize,
    ]);
}

/// The first bucket of the grid is touched by four: itself, the one to its
/// right, and the two below these.
pub proof fn lemma_touching_corner()
    ensures
        spec_touching(0) == seq![0usize, 1usize, BUCKETS_PER_AXIS, (BUCKETS_PER_AXIS + 1) as usize],
{
    reveal_with_fuel(spec_neighbors_indices, 10);
    let pairs = spec_neighbors_indices(0, 0, BUCKETS_PER_AXIS as int, 9);
    assert(pairs =~= seq![(0usize, 0usize), (1usize, 0usize), (0usize, 1usize), (1usize, 1usize)]);
    assert(spec_touching(0) =~= seq![
        0usize,
        1usize,
        BUCKETS_PER_AXIS,
        (BUCKETS_PER_AXIS + 1) as usize,
    ]);
}

/// The indices of the buckets that touch the bucket in column `column` of
/// row `row`, row by row.
pub fn touching_buckets(column: usize, row: usize) -> (touching: Vec<usize>)
    requires
        column < BUCKETS_PER_AXIS,
        row < BUCKETS_PER_AXIS,
    ensures
        touching@ == spec_touching(spec_flat(column as int, row as int)),
        touching@.no_duplicates(),
        forall|b: usize|
            touching@.contains(b)
                <==> spec_adjacent(spec_flat(column as int, row as int), b as int),
{
    let pairs = SpatialGrid::get_neighbors_indices(column, row, BUCKETS_PER_AXIS);
    let mut touching: Vec<usize> = Vec::new();
    let mut k: usize = 0;
    while k < pairs.len()
        invariant
            k <= pairs@.len(),
            touching@.len() == k,
            forall|a: usize, b: usize|
                pairs@.contains((a, b)) ==> a < BUCKETS_PER_AXIS && b < BUCKETS_PER_AXIS,
            forall|m: int|
                0 <= m < k ==> #[trigger] touching@[m] == spec_flat(
                    pairs@[m].0 as int,
                    pairs@[m].1 as int,
                ),
        decreases pairs@.len() - k,
    {
        let (a, b) = pairs[k];
        assert(pairs@.contains((a, b)));
        touching.push(b * BUCKETS_PER_AXIS + a);
        k += 1;
    }
    proof {
        let here = spec_flat(column as int, row as int);
        lemma_flat(column as int, row as int);
        assert(touching@ =~= spec_touching(here));
        assert forall|m: int| 0 <= m < pairs@.len() implies (#[trigger] pairs@[m]).0
            < BUCKETS_PER_AXIS && pairs@[m].1 < BUCKETS_PER_AXIS by {
            assert(pairs@.contains((pairs@[m].0, pairs@[m].1)));
        }
        assert forall|m: int, n: int|
            0 <= m < touching@.len() && 0 <= n < touching@.len() && m != n implies touching@[m]
            != touching@[n] by {
            lemma_flat(pairs@[m].0 as int, pairs@[m].1 as int);
            lemma_flat(pairs@[n].0 as int, pairs@[n].1 as int);
            if touching@[m] == touching@[n] {
                assert(pairs@[m] == pairs@[n]);
            }
        }
        assert forall|b: usize| touching@.contains(b) <==> spec_adjacent(here, b as int) by {
            if touching@.contains(b) {
                let m = choose|m: int| 0 <= m < touching@.len() && touching@[m] == b;
                lemma_flat(pairs@[m].0 as int, pairs@[m].1 as int);
                assert(pairs@.contains((pairs@[m].0, pairs@[m].1)));
            }
            if spec_adjacent(here, b as int) {
                let a0: usize = (b % BUCKETS_PER_AXIS) as usize;
                let b0: usize = (b / BUCKETS_PER_AXIS) as usize;
                assert(pairs@.contains((a0, b0)));
                let m = choose|m: int| 0 <= m < pairs@.len() && pairs@[m] == (a0, b0);
                assert(touching@[m] == b);
            }
        }
    }
    touching
}

/// Whether `id` lies in one of the first `upto` of the buckets that
/// `touching` lists.
pub open spec fn spec_in_listed(
    contents: Seq<Set<u64>>,
    touching: Seq<usize>,
    upto: int,
    id: u64,
) -> bool {
    exists|j: int| 0 <= j < upto && contents[#[trigger] touching[j] as int].contains(id)
}

/// What lies in the buckets that `touching` lists, but for `skip`.
pub fn gather(buckets: &Vec<FxHashSet<u64>>, touching: &Vec<usize>, skip: Option<u64>) -> (found:
    Vec<u64>)
    requires
        touching@.no_duplicates(),
        forall|j: int| 0 <= j < touching@.len() ==> #[trigger] touching@[j] < buckets@.len(),
    ensures
        forall|v: u64|
            found@.contains(v) <==> Some(v) != skip && spec_in_listed(
                spec_contents(buckets@),
                touching@,
                touching@.len() as int,
                v,
            ),
        spec_disjoint(spec_contents(buckets@)) ==> found@.no_duplicates(),
{
    let ghost contents = spec_contents(buckets@);
    let mut found: Vec<u64> = Vec::new();
    let mut k: usize = 0;
    while k < touching.len()
        invariant
            k <= touching@.len(),
            contents == spec_contents(buckets@),
            touching@.no_duplicates(),
            forall|j: int| 0 <= j < touching@.len() ==> #[trigger] touching@[j] < buckets@.len(),
            forall|v: u64|
                found@.contains(v) <==> Some(v) != skip && spec_in_listed(
                    contents,
                    touching@,
                    k as int,
                    v,
                ),
            spec_disjoint(contents) ==> found@.no_duplicates(),
        decreases touching@.len() - k,
    {
        let bucket = touching[k];
        let items = set_items(&buckets[bucket]);
        assert(contents[bucket as int] == buckets@[bucket as int]@);
        assert forall|v: u64| items@.contains(v) <==> contents[bucket as int].contains(v) by {
            assert(items@.to_set().contains(v) <==> items@.contains(v));
        }
        let mut t: usize = 0;
        while t < items.len()
            invariant
                t <= items@.len(),
                k < touching@.len(),
                bucket == touching@[k as int],
                bucket < buckets@.len(),
                contents == spec_contents(buckets@),
                touching@.no_duplicates(),
                forall|j: int| 0 <= j < touching@.len()
                    ==> #[trigger] touching@[j] < buckets@.len(),
                items@.no_duplicates(),
                forall|v: u64| items@.contains(v) <==> contents[bucket as int].contains(v),
                forall|v: u64|
                    found@.contains(v) <==> Some(v) != skip && (spec_in_listed(
                        contents,
                        touching@,
                        k as int,
                        v,
                    ) || exists|m: int| 0 <= m < t && items@[m] == v),
                spec_disjoint(contents) ==> found@.no_duplicates(),
            decreases items@.len() - t,
        {
            let item = items[t];
            let ghost before = found@;
            if Some(item) != skip {
                proof {
                    if spec_disjoint(contents) {
                        assert(!before.contains(item)) by {
                            if before.contains(item) {
                                if spec_in_listed(contents, touching@, k as int, item) {
                                    let j = choose|j: int|
                                        0 <= j < k && contents[#[trigger] touching@[j] as int].contains(
                                            item,
                                        );
                                    assert(items@.contains(item));
                                    assert(contents[bucket as int].contains(item));
                                    assert(touching@[j] == touching@[k as int]);
                                } else {
                                    let m = choose|m: int| 0 <= m < t && items@[m] == item;
                                    assert(items@[m] == items@[t as int]);
                                }
                            }
                        }
                    }
                }
                found.push(item);
            }
            proof {
                assert forall|v: u64|
                    found@.contains(v) <==> Some(v) != skip && (spec_in_listed(
                        contents,
                        touching@,
                        k as int,
                        v,
                    ) || exists|m: int| 0 <= m < t + 1 && items@[m] == v) by {
                    if Some(item) != skip {
                        lemma_push_contains(before, item, v);
                    }
                    if exists|m: int| 0 <= m < t + 1 && items@[m] == v {
                        let m = choose|m: int| 0 <= m < t + 1 && items@[m] == v;
                        if m < t {
                        } else {
                            assert(v == item);
                        }
                    }
                    if v == item {
                        assert(items@[t as int] == v);
                    }
                }
            }
            t += 1;
        }
        proof {
            assert forall|v: u64|
                found@.contains(v) <==> Some(v) != skip && spec_in_listed(
                    contents,
                    touching@,
                    k + 1,
                    v,
                ) by {
                if exists|m: int| 0 <= m < t && items@[m] == v {
                    assert(items@.contains(v));
                    assert(contents[touching@[k as int] as int].contains(v));
                }
                if spec_in_listed(contents, touching@, k as int, v) {
                    let j = choose|j: int|
                        0 <= j < k && contents[#[trigger] touching@[j] as int].contains(v);
                    assert(0 <= j < k + 1);
                }
                if spec_in_listed(contents, touching@, k + 1, v) {
                    let j = choose|j: int|
                        0 <= j < k + 1 && contents[#[trigger] touching@[j] as int].contains(v);
                    if j < k {
                    } else {
                        assert(items@.contains(v));
                        let m = choose|m: int| 0 <= m < items@.len() && items@[m] == v;
                        assert(0 <= m < t && items@[m] == v);
                    }
                }
            }
        }
        k += 1;
    }
    found
}

impl SpatialGrid {
    /// The cells in each bucket.
    pub open spec fn cells(&self) -> Seq<Set<u64>> {
        spec_contents(self.grid@)
    }

    /// The food items in each bucket.
    pub open spec fn food(&self) -> Seq<Set<u64>> {
        spec_contents(self.food_grid@)
    }

    /// Whether the grid has all its buckets and lists, for each, the buckets
    /// that touch it, row by row: each of them once, and no other.
    pub open spec fn wf(&self) -> bool {
        &&& self.grid@.len() == BUCKET_COUNT
        &&& self.food_grid@.len() == BUCKET_COUNT
        &&& self.relation@.len() == BUCKET_COUNT
        &&& forall|a: int|
            0 <= a < BUCKET_COUNT ==> (#[trigger] self.relation@[a])@ == spec_touching(a)
        &&& forall|a: int|
            0 <= a < BUCKET_COUNT ==> (#[trigger] self.relation@[a])@.no_duplicates()
        &&& forall|a: int, b: usize|
            0 <= a < BUCKET_COUNT ==> (#[trigger] self.relation@[a]@.contains(b) <==> spec_adjacent(
                a,
                b as int,
            ))
    }

    /// The column and the row of the bucket into which (`x`, `y`) falls.
    pub fn calculate_grid_position(x: Fixed, y: Fixed) -> (position: (usize, usize))
        requires
            spec_on_grid(x),
            spec_on_grid(y),
        ensures
            position.0 == spec_axis_bucket(x),
            position.1 == spec_axis_bucket(y),
            position.0 < BUCKETS_PER_AXIS,
            position.1 < BUCKETS_PER_AXIS,
    {
        (axis_bucket(x), axis_bucket(y))
    }

    /// The index of the bucket into which (`x`, `y`) falls.
    pub fn get_cell_grid_index(x: Fixed, y: Fixed) -> (index: usize)
        requires
            spec_on_grid(x),
            spec_on_grid(y),
        ensures
            index == spec_bucket_index(x, y),
            index < BUCKET_COUNT,
    {
        let (column, row) = SpatialGrid::calculate_grid_position(x, y);
        row * BUCKETS_PER_AXIS + column
    }

    /// The columns and rows, in a square grid of `grid_size` buckets a side,
    /// of the buckets that touch the bucket in column `x` of row `y`: that
    /// bucket, if it is on the grid, and its neighbours on the grid. They
    /// come row by row, and in each row from the left.
    pub fn get_neighbors_indices(x: usize, y: usize, grid_size: usize) -> (neighbors: Vec<
        (usize, usize),
    >)
        ensures
            neighbors@ == spec_neighbors_indices(x as int, y as int, grid_size as int, 9),
            neighbors@.no_duplicates(),
            forall|a: usize, b: usize|
                neighbors@.contains((a, b)) <==> a < grid_size && b < grid_size
                    && spec_within_one(x as int, a as int) && spec_within_one(y as int, b as int),
    {
        let mut neighbors: Vec<(usize, usize)> = Vec::new();
        let mut dy: usize = 0;
        while dy < 3
            invariant
                dy <= 3,
                neighbors@ == spec_neighbors_indices(
                    x as int,
                    y as int,
                    grid_size as int,
                    (dy * 3) as nat,
                ),
            decreases 3 - dy,
        {
            let row = step_along(y, dy, grid_size);
            let mut dx: usize = 0;
            while dx < 3
                invariant
                    dy < 3,
                    dx <= 3,
                    row == if 0 <= y + dy - 1 < grid_size {
                        Some((y + dy - 1) as usize)
                    } else {
                        None
                    },
                    neighbors@ == spec_neighbors_indices(
                        x as int,
                        y as int,
                        grid_size as int,
                        (dy * 3 + dx) as nat,
                    ),
                decreases 3 - dx,
            {
                let column = step_along(x, dx, grid_size);
                proof {
                    let k = dy * 3 + dx;
                    assert(k % 3 == dx && k / 3 == dy);
                    assert(spec_around(x as int, y as int, k as int) == (x + dx - 1, y + dy - 1));
                }
                if let Some(b) = row {
                    if let Some(a) = column {
                        neighbors.push((a, b));
                    }
                }
                dx += 1;
            }
            dy += 1;
        }
        proof {
            lemma_neighbors_indices(x as int, y as int, grid_size as int, 9);
        }
        neighbors
    }

    /// A grid with every bucket empty.
    pub fn new() -> (grid: SpatialGrid)
        ensures
            grid.wf(),
            forall|a: int| 0 <= a < BUCKET_COUNT ==> #[trigger] grid.cells()[a]
                == Set::<u64>::empty(),
            forall|a: int| 0 <= a < BUCKET_COUNT ==> #[trigger] grid.food()[a]
                == Set::<u64>::empty(),
    {
        let mut grid: Vec<FxHashSet<u64>> = Vec::new();
        let mut food_grid: Vec<FxHashSet<u64>> = Vec::new();
        let mut relation: Vec<Vec<usize>> = Vec::new();
        let mut row: usize = 0;
        while row < BUCKETS_PER_AXIS
            invariant
                row <= BUCKETS_PER_AXIS,
                grid@.len() == row * BUCKETS_PER_AXIS,
                food_grid@.len() == row * BUCKETS_PER_AXIS,
                relation@.len() == row * BUCKETS_PER_AXIS,
                forall|a: int| 0 <= a < grid@.len() ==> (#[trigger] grid@[a])@
                    == Set::<u64>::empty(),
                forall|a: int|
                    0 <= a < food_grid@.len() ==> (#[trigger] food_grid@[a])@
                        == Set::<u64>::empty(),
                forall|a: int| 0 <= a < relation@.len()
                    ==> (#[trigger] relation@[a])@ == spec_touching(a),
                forall|a: int| 0 <= a < relation@.len()
                    ==> (#[trigger] relation@[a])@.no_duplicates(),
                forall|a: int, b: usize|
                    0 <= a < relation@.len() ==> (#[trigger] relation@[a]@.contains(b)
                        <==> spec_adjacent(a, b as int)),
            decreases BUCKETS_PER_AXIS - row,
        {
            let mut column: usize = 0;
            while column < BUCKETS_PER_AXIS
                invariant
                    row < BUCKETS_PER_AXIS,
                    column <= BUCKETS_PER_AXIS,
                    grid@.len() == row * BUCKETS_PER_AXIS + column,
                    food_grid@.len() == row * BUCKETS_PER_AXIS + column,
                    relation@.len() == row * BUCKETS_PER_AXIS + column,
                    forall|a: int|
                        0 <= a < grid@.len() ==> (#[trigger] grid@[a])@ == Set::<u64>::empty(),
                    forall|a: int|
                        0 <= a < food_grid@.len() ==> (#[trigger] food_grid@[a])@ == Set::<
                            u64,
                        >::empty(),
                    forall|a: int|
                        0 <= a < relation@.len() ==> (#[trigger] relation@[a])@ == spec_touching(a),
                    forall|a: int|
                        0 <= a < relation@.len() ==> (#[trigger] relation@[a])@.no_duplicates(),
                    forall|a: int, b: usize|
                        0 <= a < relation@.len() ==> (#[trigger] relation@[a]@.contains(b)
                            <==> spec_adjacent(a, b as int)),
                decreases BUCKETS_PER_AXIS - column,
            {
                let touching = touching_buckets(column, row);
                relation.push(touching);
                grid.push(FxHashSet::default());
                food_grid.push(FxHashSet::default());
                column += 1;
            }
            row += 1;
        }
        SpatialGrid { grid, food_grid, relation }
    }

    /// Puts the cell `id` into the bucket into which (`x`, `y`) falls.
    pub fn add_cell(&mut self, x: Fixed, y: Fixed, id: u64)
        requires
            old(self).wf(),
            spec_on_grid(x),
            spec_on_grid(y),
        ensures
            final(self).wf(),
            final(self).cells() == old(self).cells().update(
                spec_bucket_index(x, y),
                old(self).cells()[spec_bucket_index(x, y)].insert(id),
            ),
            final(self).food_grid == old(self).food_grid,
            final(self).relation == old(self).relation,
    {
        let index = SpatialGrid::get_cell_grid_index(x, y);
        set_insert(&mut self.grid[index], id);
        assert(self.cells() =~= old(self).cells().update(
            index as int,
            old(self).cells()[index as int].insert(id),
        ));
    }

    /// Takes the cell `id` out of the bucket into which (`x`, `y`) falls.
    pub fn remove_cell(&mut self, x: Fixed, y: Fixed, id: u64)
        requires
            old(self).wf(),
            spec_on_grid(x),
            spec_on_grid(y),
        ensures
            final(self).wf(),
            final(self).cells() == old(self).cells().update(
                spec_bucket_index(x, y),
                old(self).cells()[spec_bucket_index(x, y)].remove(id),
            ),
            final(self).food_grid == old(self).food_grid,
            final(self).relation == old(self).relation,
    {
        let index = SpatialGrid::get_cell_grid_index(x, y);
        set_remove(&mut self.grid[index], &id);
        assert(self.cells() =~= old(self).cells().update(
            index as int,
            old(self).cells()[index as int].remove(id),
        ));
    }

    /// Moves the cell `id` from the bucket of (`old_x`, `old_y`) to the
    /// bucket of (`new_x`, `new_y`). Where the two are one bucket, nothing
    /// changes.
    pub fn move_cell(&mut self, old_x: Fixed, old_y: Fixed, new_x: Fixed, new_y: Fixed, id: u64)
        requires
            old(self).wf(),
            spec_on_grid(old_x),
            spec_on_grid(old_y),
            spec_on_grid(new_x),
            spec_on_grid(new_y),
        ensures
            final(self).wf(),
            final(self).cells() == if spec_bucket_index(old_x, old_y) == spec_bucket_index(
                new_x,
                new_y,
            ) {
                old(self).cells()
            } else {
                old(self).cells().update(
                    spec_bucket_index(old_x, old_y),
                    old(self).cells()[spec_bucket_index(old_x, old_y)].remove(id),
                ).update(
                    spec_bucket_index(new_x, new_y),
                    old(self).cells()[spec_bucket_index(new_x, new_y)].insert(id),
                )
            },
            final(self).food_grid == old(self).food_grid,
            final(self).relation == old(self).relation,
    {
        let prev_index = SpatialGrid::get_cell_grid_index(old_x, old_y);
        let index = SpatialGrid::get_cell_grid_index(new_x, new_y);
        if prev_index != index {
            self.remove_cell(old_x, old_y, id);
            self.add_cell(new_x, new_y, id);
        }
    }

    /// Puts the food item `id` into the bucket into which (`x`, `y`) falls.
    pub fn add_food(&mut self, x: Fixed, y: Fixed, id: u64)
        requires
            old(self).wf(),
            spec_on_grid(x),
            spec_on_grid(y),
        ensures
            final(self).wf(),
            final(self).food() == old(self).food().update(
                spec_bucket_index(x, y),
                old(self).food()[spec_bucket_index(x, y)].insert(id),
            ),
            final(self).grid == old(self).grid,
            final(self).relation == old(self).relation,
    {
        let index = SpatialGrid::get_cell_grid_index(x, y);
        set_insert(&mut self.food_grid[index], id);
        assert(self.food() =~= old(self).food().update(
            index as int,
            old(self).food()[index as int].insert(id),
        ));
    }

    /// Takes the food item `id` out of the bucket into which (`x`, `y`)
    /// falls.
    pub fn remove_food(&mut self, x: Fixed, y: Fixed, id: u64)
        requires
            old(self).wf(),
            spec_on_grid(x),
            spec_on_grid(y),
        ensures
            final(self).wf(),
            final(self).food() == old(self).food().update(
                spec_bucket_index(x, y),
                old(self).food()[spec_bucket_index(x, y)].remove(id),
            ),
            final(self).grid == old(self).grid,
            final(self).relation == old(self).relation,
    {
        let index = SpatialGrid::get_cell_grid_index(x, y);
        set_remove(&mut self.food_grid[index], &id);
        assert(self.food() =~= old(self).food().update(
            index as int,
            old(self).food()[index as int].remove(id),
        ));
    }

    /// Under a sound grid, the buckets listed for `index` are on the grid.
    pub proof fn lemma_listed_on_grid(&self, index: int)
        requires
            self.wf(),
            0 <= index < BUCKET_COUNT,
        ensures
            forall|j: int|
                0 <= j < self.relation@[index]@.len() ==> #[trigger] self.relation@[index]@[j]
                    < BUCKET_COUNT,
    {
        let touching = self.relation@[index]@;
        assert forall|j: int| 0 <= j < touching.len() implies #[trigger] touching[j]
            < BUCKET_COUNT by {
            assert(touching.contains(touching[j]));
            assert(spec_adjacent(index, touching[j] as int));
        }
    }

    /// Under a sound grid, what lies in the buckets listed for `index` is
    /// what lies near `index`.
    pub proof fn lemma_listed_is_near(&self, contents: Seq<Set<u64>>, index: int, id: u64)
        requires
            self.wf(),
            0 <= index < BUCKET_COUNT,
            contents.len() == BUCKET_COUNT,
        ensures
            spec_in_listed(
                contents,
                self.relation@[index]@,
                self.relation@[index]@.len() as int,
                id,
            ) <==> spec_near(contents, index, id),
    {
        let touching = self.relation@[index]@;
        if spec_in_listed(contents, touching, touching.len() as int, id) {
            let j = choose|j: int|
                0 <= j < touching.len() && contents[#[trigger] touching[j] as int].contains(id);
            assert(touching.contains(touching[j]));
            assert(spec_adjacent(index, touching[j] as int));
        }
        if spec_near(contents, index, id) {
            let b = choose|b: int| #[trigger] spec_adjacent(index, b) && contents[b].contains(id);
            assert(touching.contains(b as usize));
            let j = choose|j: int| 0 <= j < touching.len() && touching[j] == b as usize;
            assert(contents[touching[j] as int].contains(id));
        }
    }

    /// The cells, other than `id`, in the buckets that touch the bucket of
    /// (`x`, `y`). Where no cell lies in two buckets, none is listed twice.
    pub fn get_cell_neighbors(&self, x: Fixed, y: Fixed, id: u64) -> (neighbors: Vec<u64>)
        requires
            self.wf(),
            spec_on_grid(x),
            spec_on_grid(y),
        ensures
            forall|v: u64|
                neighbors@.contains(v) <==> v != id && spec_near(
                    self.cells(),
                    spec_bucket_index(x, y),
                    v,
                ),
            spec_disjoint(self.cells()) ==> neighbors@.no_duplicates(),
    {
        let index = SpatialGrid::get_cell_grid_index(x, y);
        proof {
            self.lemma_listed_on_grid(index as int);
        }
        let neighbors = gather(&self.grid, &self.relation[index], Some(id));
        proof {
            assert forall|v: u64|
                neighbors@.contains(v) <==> v != id && spec_near(self.cells(), index as int, v) by {
                self.lemma_listed_is_near(self.cells(), index as int, v);
            }
        }
        neighbors
    }

    /// The food items in the buckets that touch the bucket of (`x`, `y`).
    /// Where no item lies in two buckets, none is listed twice.
    pub fn get_food_neighbors(&self, x: Fixed, y: Fixed) -> (neighbors: Vec<u64>)
        requires
            self.wf(),
            spec_on_grid(x),
            spec_on_grid(y),
        ensures
            forall|v: u64|
                neighbors@.contains(v) <==> spec_near(self.food(), spec_bucket_index(x, y), v),
            spec_disjoint(self.food()) ==> neighbors@.no_duplicates(),
    {
        let index = SpatialGrid::get_cell_grid_index(x, y);
        proof {
            self.lemma_listed_on_grid(index as int);
        }
        let neighbors = gather(&self.food_grid, &self.relation[index], None);
        proof {
            assert forall|v: u64|
                neighbors@.contains(v) <==> spec_near(self.food(), index as int, v) by {
                self.lemma_listed_is_near(self.food(), index as int, v);
            }
        }
        neighbors
    }
}

} // verus!
