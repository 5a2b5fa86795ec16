//! The processor-side physics engine: a uniform grid of linked lists and the per-particle
//! bookkeeping of a step.
use vstd::prelude::*;
use rayon::iter::{IntoParallelRefMutIterator, ParallelIterator};
use crate::params::SimParams;
use crate::particle::Particle;
use crate::settle::{settle, settled_residue, settles_to, Motion, Walls};
use crate::single::{law_integer_parts_grow, num, Single};

verus! {

/// Columns of the grid.
pub const GRID_W: u32 = 1024;

/// Rows of the grid.
pub const GRID_H: u32 = 1024;

/// A grid cell: column, then row.
pub type Cell = [i32; 2];

/// Whether a cell lies on the grid.
pub open spec fn on_grid(x: int, y: int) -> bool {
    0 <= x < GRID_W && 0 <= y < GRID_H
}

/// Where a cell stands in the row-major list of cells.
pub open spec fn cell_index(x: int, y: int) -> int {
    y * (GRID_W as int) + x
}

/// The list that starts at `head`, following `next`. Links of a grid list always lead to a
/// smaller index, so following them ends.
pub open spec fn chain(next: Seq<i32>, head: int) -> Seq<int>
    decreases head + 1,
{
    if 0 <= head < next.len() {
        if -1 <= next[head] < head {
            seq![head] + chain(next, next[head] as int)
        } else {
            seq![head]
        }
    } else {
        Seq::empty()
    }
}

/// Whether particle `j` is listed under the cell at `(x, y)`.
pub open spec fn listed_at(ps: Seq<Particle>, cells: Seq<Cell>, j: int, x: int, y: int) -> bool {
    !ps[j].removed() && cells[j]@[0] == x && cells[j]@[1] == y
}

/// The particles among the first `n` that are listed under the cell at `(x, y)`, the youngest
/// first.
pub open spec fn members(ps: Seq<Particle>, cells: Seq<Cell>, n: int, x: int, y: int) -> Seq<int>
    decreases n,
{
    if n <= 0 {
        Seq::empty()
    } else if listed_at(ps, cells, n - 1, x, y) {
        seq![n - 1] + members(ps, cells, n - 1, x, y)
    } else {
        members(ps, cells, n - 1, x, y)
    }
}

/// All of the first `n` cells lie on the grid.
pub open spec fn cells_on_grid(cells: Seq<Cell>, n: int) -> bool {
    forall|j: int| 0 <= j < n ==> on_grid(#[trigger] cells[j]@[0] as int, cells[j]@[1] as int)
}

/// The lists found, in reading order, in the first `k` cells of row `y` counted from column
/// `x0`; cells off the grid hold nothing.
pub open spec fn row_lists(grid: Seq<i32>, next: Seq<i32>, x0: int, y: int, k: int) -> Seq<int>
    decreases k,
{
    if k <= 0 {
        Seq::empty()
    } else {
        let before = row_lists(grid, next, x0, y, k - 1);
        let x = x0 + k - 1;
        if on_grid(x, y) {
            before + chain(next, grid[cell_index(x, y)] as int)
        } else {
            before
        }
    }
}

/// The lists found, in reading order, in the first `rows` rows, from row `y0` on, of a block
/// that starts in column `x0` and is `width` cells wide.
pub open spec fn block_lists(
    grid: Seq<i32>,
    next: Seq<i32>,
    x0: int,
    y0: int,
    width: int,
    rows: int,
) -> Seq<int>
    decreases rows,
{
    if rows <= 0 {
        Seq::empty()
    } else {
        block_lists(grid, next, x0, y0, width, rows - 1) + row_lists(
            grid,
            next,
            x0,
            y0 + rows - 1,
            width,
        )
    }
}

/// Following a list does not look at entries beyond its head.
proof fn lemma_chain_ignores_later(next: Seq<i32>, head: int, i: int, v: i32)
    requires
        head < i < next.len(),
    ensures
        chain(next.update(i, v), head) == chain(next, head),
    decreases head + 1,
{
    if 0 <= head < next.len() && -1 <= next[head] < head {
        lemma_chain_ignores_later(next, next[head] as int, i, v);
    }
}

/// 1023.0: the last column and row.
pub const LAST_CELL: u32 = 0x447f_c000;

/// The column or row of a coordinate that was scaled to the grid: held between the first and the
/// last one, and cut down to an integer. A lost coordinate is in the first.
pub open spec fn coordinate_cell(v: Single) -> int {
    if v.nan() || v.at_most(num(0)) {
        0
    } else if num(LAST_CELL).at_most(v) {
        1023
    } else {
        v.whole()
    }
}

/// The column or row of a coordinate that was scaled to the grid.
fn coordinate_to_cell(v: Single) -> (r: i32)
    ensures
        r == coordinate_cell(v),
        0 <= r < 1024,
{
    if v.is_nan() || v.le(Single::from_bits(0)) {
        0
    } else if v.ge(Single::from_bits(LAST_CELL)) {
        1023
    } else {
        v.trunc() as i32
    }
}

/// The cell of a position that was scaled to the grid.
pub fn pos_to_cell(scaled: [Single; 2]) -> (r: Cell)
    ensures
        r@[0] == coordinate_cell(scaled@[0]),
        r@[1] == coordinate_cell(scaled@[1]),
        on_grid(r@[0] as int, r@[1] as int),
{
    [coordinate_to_cell(scaled[0]), coordinate_to_cell(scaled[1])]
}

/// Empties one cell.
fn empty_cell(cell: &mut i32)
    ensures
        *final(cell) == -1,
{
    *cell = -1;
}

/// Empties every cell, the cells spread over the worker threads.
///
/// `ParallelIterator::for_each` on `par_iter_mut` runs the given operation once on every
/// element; the operation here is `empty_cell`. Claimed: the number of cells is kept and each
/// of them is empty afterwards.
#[verifier::external_body]
fn empty_cells(grid: &mut Vec<i32>)
    ensures
        final(grid)@.len() == old(grid)@.len(),
        forall|c: int| 0 <= c < final(grid)@.len() ==> final(grid)@[c] == -1,
{
    grid.par_iter_mut().for_each(empty_cell);
}

/// What the force computation hands to the end of a step: the particle after forces, links and
/// tools, and the numbers of its motion.
#[derive(Clone, Copy, Debug, PartialEq, Eq)]
pub struct PhysicsResult {
    pub particle: Particle,
    pub motion: Motion,
}

/// The engine: for every cell the youngest particle in it, for every particle the next older
/// one of its cell, and the rounding residue of every particle's position.
pub struct CpuPhysics {
    pub grid: Vec<i32>,
    pub particle_next: Vec<i32>,
    pub pos_residue: Vec<[Single; 2]>,
    pub max_particles: u32,
}

impl CpuPhysics {
    /// The tables have their sizes, and every head and every continuation of a list leads to a
    /// smaller index, so that every walk ends.
    pub open spec fn wf(self) -> bool {
        &&& self.grid@.len() == GRID_W * GRID_H
        &&& self.particle_next@.len() == self.max_particles
        &&& self.pos_residue@.len() == self.max_particles
        &&& forall|c: int|
            0 <= c < self.grid@.len() ==> -1 <= #[trigger] self.grid@[c] < self.max_particles
        &&& forall|j: int|
            0 <= j < self.max_particles ==> -1 <= #[trigger] self.particle_next@[j] < j
    }

    /// Every list starts with one of the first `n` particles.
    pub open spec fn heads_below(self, n: int) -> bool {
        forall|c: int| 0 <= c < self.grid@.len() ==> #[trigger] self.grid@[c] < n
    }

    /// How many particles a step looks at.
    pub open spec fn counted(self, active_count: u32) -> int {
        if active_count <= self.max_particles {
            active_count as int
        } else {
            self.max_particles as int
        }
    }

    /// Every cell lists exactly its members among the first `n` particles.
    pub open spec fn lists(self, ps: Seq<Particle>, cells: Seq<Cell>, n: int) -> bool {
        forall|x: int, y: int| #[trigger]
            on_grid(x, y) ==> chain(
                self.particle_next@,
                self.grid@[cell_index(x, y)] as int,
            ) == members(ps, cells, n, x, y)
    }

    /// An engine for at most `max_particles` particles: empty lists, no residue.
    pub fn new(max_particles: u32) -> (r: Self)
        ensures
            r.wf(),
            r.max_particles == max_particles,
            forall|c: int| 0 <= c < r.grid@.len() ==> r.grid@[c] == -1,
            forall|i: int| 0 <= i < max_particles ==> r.particle_next@[i] == -1,
            forall|i: int|
                0 <= i < max_particles ==> (#[trigger] r.pos_residue@[i])@ == seq![
                    Single { bits: 0 },
                    Single { bits: 0 },
                ],
    {
        let size: usize = (GRID_W * GRID_H) as usize;
        let zero = Single { bits: 0 };
        let grid: Vec<i32> = vec![-1i32; size];
        let particle_next: Vec<i32> = vec![-1i32; max_particles as usize];
        let pos_residue: Vec<[Single; 2]> = vec![[zero, zero]; max_particles as usize];
        CpuPhysics { grid, particle_next, pos_residue, max_particles }
    }

    /// Rebuilds the lists from the cells that the particles stand in: empties the grid, then
    /// puts every particle that is not removed at the front of its cell's list.
    pub fn populate(&mut self, particles: &Vec<Particle>, cells: &Vec<Cell>, active_count: u32)
        requires
            old(self).wf(),
            particles@.len() >= old(self).counted(active_count),
            cells@.len() >= old(self).counted(active_count),
            old(self).counted(active_count) <= i32::MAX,
            cells_on_grid(cells@, old(self).counted(active_count)),
        ensures
            final(self).wf(),
            final(self).max_particles == old(self).max_particles,
            final(self).pos_residue@ == old(self).pos_residue@,
            active_count == 0 ==> *final(self) == *old(self),
            active_count != 0 ==> final(self).lists(
                particles@,
                cells@,
                old(self).counted(active_count),
            ),
            active_count != 0 ==> final(self).heads_below(old(self).counted(active_count)),
    {
        if active_count == 0 {
            return;
        }
        let ac: usize = if active_count <= self.max_particles {
            active_count as usize
        } else {
            self.max_particles as usize
        };
        empty_cells(&mut self.grid);
        assert(self.lists(particles@, cells@, 0)) by {
            assert forall|x: int, y: int| #[trigger] on_grid(x, y) implies chain(
                self.particle_next@,
                self.grid@[cell_index(x, y)] as int,
            ) == members(particles@, cells@, 0, x, y) by {
                assert(0 <= cell_index(x, y) < GRID_W * GRID_H);
            }
        }
        let mut i: usize = 0;
        while i < ac
            invariant
                i <= ac,
                ac == old(self).counted(active_count),
                ac <= i32::MAX,
                self.wf(),
                self.max_particles == old(self).max_particles,
                self.pos_residue@ == old(self).pos_residue@,
                ac <= self.max_particles,
                particles@.len() >= ac,
                cells@.len() >= ac,
                cells_on_grid(cells@, ac as int),
                forall|c: int| 0 <= c < self.grid@.len() ==> -1 <= #[trigger] self.grid@[c] < i,
                self.lists(particles@, cells@, i as int),
            decreases ac - i,
        {
            if !particles[i].is_removed() {
                let cell = cells[i];
                let ghost cx = cell@[0] as int;
                let ghost cy = cell@[1] as int;
                assert(on_grid(cells@[i as int]@[0] as int, cells@[i as int]@[1] as int));
                let idx: u32 = cell[1] as u32 * GRID_W + cell[0] as u32;
                assert(idx == cell_index(cx, cy));
                let ghost grid0 = self.grid@;
                let ghost next0 = self.particle_next@;
                let old_head: i32 = self.grid[idx as usize];
                self.grid[idx as usize] = i as i32;
                self.particle_next[i] = old_head;
                assert forall|x: int, y: int| #[trigger] on_grid(x, y) implies chain(
                    self.particle_next@,
                    self.grid@[cell_index(x, y)] as int,
                ) == members(particles@, cells@, i + 1, x, y) by {
                    let head0 = grid0[cell_index(x, y)] as int;
                    assert(0 <= cell_index(x, y) < GRID_W * GRID_H);
                    lemma_chain_ignores_later(next0, head0, i as int, old_head);
                    if cell_index(x, y) == idx {
                        assert(x == cx && y == cy);
                        assert(chain(self.particle_next@, i as int) == seq![i as int] + chain(
                            self.particle_next@,
                            old_head as int,
                        ));
                    } else {
                        assert(!listed_at(particles@, cells@, i as int, x, y));
                    }
                }
            }
            i += 1;
        }
    }

    /// Ends a step: settles each counted particle from its result, and keeps its residue.
    /// Particles beyond the count, and the lists, stay as they are.
    pub fn step(
        &mut self,
        particles: &mut Vec<Particle>,
        params: &SimParams,
        walls: &Walls,
        results: &Vec<PhysicsResult>,
        active_count: u32,
    )
        requires
            old(self).wf(),
            old(particles)@.len() >= old(self).counted(active_count),
            results@.len() >= old(self).counted(active_count),
        ensures
            final(self).wf(),
            final(self).max_particles == old(self).max_particles,
            final(self).grid == old(self).grid,
            final(self).particle_next == old(self).particle_next,
            final(particles)@.len() == old(particles)@.len(),
            forall|i: int|
                0 <= i < old(self).counted(active_count) ==> {
                    &&& settles_to(
                        results@[i].particle,
                        *params,
                        results@[i].motion,
                        *walls,
                        #[trigger] final(particles)@[i],
                    )
                    &&& final(self).pos_residue@[i]@ == settled_residue(
                        results@[i].particle,
                        results@[i].motion,
                    )
                },
            forall|i: int|
                old(self).counted(active_count) <= i < final(particles)@.len()
                    ==> final(particles)@[i] == old(particles)@[i],
            forall|i: int|
                old(self).counted(active_count) <= i < final(self).pos_residue@.len()
                    ==> final(self).pos_residue@[i] == old(self).pos_residue@[i],
    {
        if active_count == 0 {
            return;
        }
        let ac: usize = if active_count <= self.max_particles {
            active_count as usize
        } else {
            self.max_particles as usize
        };
        let mut i: usize = 0;
        while i < ac
            invariant
                i <= ac,
                ac == old(self).counted(active_count),
                self.wf(),
                self.max_particles == old(self).max_particles,
                ac <= self.max_particles,
                self.grid == old(self).grid,
                self.particle_next == old(self).particle_next,
                particles@.len() == old(particles)@.len(),
                particles@.len() >= ac,
                results@.len() >= ac,
                self.pos_residue@.len() == old(self).pos_residue@.len(),
                forall|k: int|
                    0 <= k < i ==> {
                        &&& settles_to(
                            results@[k].particle,
                            *params,
                            results@[k].motion,
                            *walls,
                            #[trigger] particles@[k],
                        )
                        &&& self.pos_residue@[k]@ == settled_residue(
                            results@[k].particle,
                            results@[k].motion,
                        )
                    },
                forall|k: int| i <= k < particles@.len() ==> particles@[k] == old(particles)@[k],
                forall|k: int|
                    i <= k < self.pos_residue@.len() ==> self.pos_residue@[k]
                        == old(self).pos_residue@[k],
            decreases ac - i,
        {
            let r: &PhysicsResult = &results[i];
            let (p, residue) = settle(&r.particle, params, &r.motion, walls);
            particles[i] = p;
            self.pos_residue[i] = residue;
            i += 1;
        }
    }

    /// The particles listed in the square block of cells around `cell`, `radius` cells to each
    /// side: row by row, cell by cell, the youngest of each cell first.
    pub open spec fn around(self, cell: Cell, radius: int) -> Seq<int> {
        block_lists(
            self.grid@,
            self.particle_next@,
            cell@[0] - radius,
            cell@[1] - radius,
            2 * radius + 1,
            2 * radius + 1,
        )
    }

    /// Appends the list of one cell.
    fn append_chain(&self, out: &mut Vec<u32>, head: i32)
        requires
            self.wf(),
            -1 <= head < self.max_particles,
        ensures
            final(out)@.map_values(|j: u32| j as int) == old(out)@.map_values(|j: u32| j as int)
                + chain(self.particle_next@, head as int),
    {
        let mut ci: i32 = head;
        let ghost start = out@.map_values(|j: u32| j as int);
        let ghost whole = chain(self.particle_next@, head as int);
        while ci != -1
            invariant
                self.wf(),
                -1 <= ci < self.max_particles,
                out@.map_values(|j: u32| j as int) + chain(self.particle_next@, ci as int) == start
                    + whole,
            decreases ci + 1,
        {
            let ghost before = out@;
            out.push(ci as u32);
            assert(out@.map_values(|j: u32| j as int) == before.map_values(|j: u32| j as int).push(
                ci as int,
            ));
            assert(-1 <= self.particle_next@[ci as int] < ci);
            let ghost rest = chain(self.particle_next@, self.particle_next@[ci as int] as int);
            assert(before.map_values(|j: u32| j as int) + (seq![ci as int] + rest)
                == before.map_values(|j: u32| j as int).push(ci as int) + rest);
            ci = self.particle_next[ci as usize];
        }
        assert(out@.map_values(|j: u32| j as int) + Seq::<int>::empty() == out@.map_values(
            |j: u32| j as int,
        ));
    }

    /// The particles listed around a cell, in the order in which the block is read.
    pub fn neighbors(&self, cell: Cell, radius: i32) -> (r: Vec<u32>)
        requires
            self.wf(),
            on_grid(cell@[0] as int, cell@[1] as int),
            0 <= radius <= GRID_W,
        ensures
            r@.map_values(|j: u32| j as int) == self.around(cell, radius as int),
    {
        let mut out: Vec<u32> = Vec::new();
        let ghost x0 = cell@[0] - radius;
        let ghost y0 = cell@[1] - radius;
        let ghost width = 2 * radius + 1;
        assert(out@.map_values(|j: u32| j as int) == Seq::<int>::empty());
        let mut dy: i32 = -radius;
        while dy <= radius
            invariant
                self.wf(),
                on_grid(cell@[0] as int, cell@[1] as int),
                0 <= radius <= GRID_W,
                -radius <= dy <= radius + 1,
                x0 == cell@[0] - radius,
                y0 == cell@[1] - radius,
                width == 2 * radius + 1,
                out@.map_values(|j: u32| j as int) == block_lists(
                    self.grid@,
                    self.particle_next@,
                    x0,
                    y0,
                    width,
                    dy + radius,
                ),
            decreases radius + 1 - dy,
        {
            let ghost above = out@.map_values(|j: u32| j as int);
            assert(above + Seq::<int>::empty() == above);
            let mut dx: i32 = -radius;
            while dx <= radius
                invariant
                    self.wf(),
                    on_grid(cell@[0] as int, cell@[1] as int),
                    0 <= radius <= GRID_W,
                    -radius <= dy <= radius,
                    -radius <= dx <= radius + 1,
                    x0 == cell@[0] - radius,
                    y0 == cell@[1] - radius,
                    out@.map_values(|j: u32| j as int) == above + row_lists(
                        self.grid@,
                        self.particle_next@,
                        x0,
                        cell@[1] + dy,
                        dx + radius,
                    ),
                decreases radius + 1 - dx,
            {
                let nx: i32 = cell[0] + dx;
                let ny: i32 = cell[1] + dy;
                let ghost left = row_lists(
                    self.grid@,
                    self.particle_next@,
                    x0,
                    cell@[1] + dy,
                    dx + radius,
                );
                if nx >= 0 && nx < GRID_W as i32 && ny >= 0 && ny < GRID_H as i32 {
                    let idx: u32 = ny as u32 * GRID_W + nx as u32;
                    assert(idx == cell_index(nx as int, ny as int));
                    let head: i32 = self.grid[idx as usize];
                    self.append_chain(&mut out, head);
                    assert((above + left) + chain(self.particle_next@, head as int) == above + (left
                        + chain(self.particle_next@, head as int)));
                }
                dx += 1;
            }
            dy += 1;
        }
        out
    }
}

/// Cells follow the number line: a coordinate that is not smaller is in a cell that is not before.
/// The column of a position depends on its first coordinate alone, the row on its second.
pub proof fn law_cells_follow_the_coordinates(a: Single, b: Single)
    requires
        a.at_most(b),
    ensures
        0 <= coordinate_cell(a) <= coordinate_cell(b) < 1024,
{
    if !a.at_most(num(0)) && !num(LAST_CELL).at_most(b) {
        law_integer_parts_grow(a, b);
    }
    if num(0).less(a) && a.less(num(LAST_CELL)) {
        law_integer_parts_grow(a, a);
    }
    if num(0).less(b) && b.less(num(LAST_CELL)) {
        law_integer_parts_grow(b, b);
    }
}

/// Positions keep their order: where one is not to the right of another, its column is not to the
/// right either, whatever their other coordinates are, for every scaling that keeps the order. The
/// same holds of rows.
pub proof fn law_positions_keep_their_order(
    scaled: spec_fn(Single) -> Single,
    p: [Single; 2],
    q: [Single; 2],
    axis: int,
)
    requires
        forall|a: Single, b: Single|
            a.at_most(b) ==> (#[trigger] scaled(a)).at_most(#[trigger] scaled(b)),
        0 <= axis < 2,
        p@[axis].at_most(q@[axis]),
    ensures
        coordinate_cell(scaled(p@[axis])) <= coordinate_cell(scaled(q@[axis])),
{
    law_cells_follow_the_coordinates(scaled(p@[axis]), scaled(q@[axis]));
}

/// The members of a cell are its particles, each listed once, youngest first.
pub proof fn law_members_are_the_particles_of_the_cell(
    ps: Seq<Particle>,
    cells: Seq<Cell>,
    n: int,
    x: int,
    y: int,
)
    ensures
        forall|j: int| #[trigger]
            members(ps, cells, n, x, y).contains(j) <==> 0 <= j < n && listed_at(
                ps,
                cells,
                j,
                x,
                y,
            ),
        forall|a: int, b: int|
            0 <= a < b < members(ps, cells, n, x, y).len() ==> members(ps, cells, n, x, y)[b]
                < members(ps, cells, n, x, y)[a],
    decreases n,
{
    if n > 0 {
        law_members_are_the_particles_of_the_cell(ps, cells, n - 1, x, y);
        let rest = members(ps, cells, n - 1, x, y);
        let all = members(ps, cells, n, x, y);
        if listed_at(ps, cells, n - 1, x, y) {
            assert(all == seq![n - 1] + rest);
            assert forall|j: int| #[trigger] all.contains(j) <==> 0 <= j < n && listed_at(
                ps,
                cells,
                j,
                x,
                y,
            ) by {
                if all.contains(j) {
                    let k = choose|k: int| 0 <= k < all.len() && all[k] == j;
                    if k > 0 {
                        assert(rest[k - 1] == j);
                        assert(rest.contains(j));
                    }
                }
                if 0 <= j < n && listed_at(ps, cells, j, x, y) {
                    if j == n - 1 {
                        assert(all[0] == j);
                    } else {
                        assert(rest.contains(j));
                        let k = choose|k: int| 0 <= k < rest.len() && rest[k] == j;
                        assert(all[k + 1] == j);
                    }
                }
            }
            assert forall|a: int, b: int| 0 <= a < b < all.len() implies all[b] < all[a] by {
                assert(all[b] == rest[b - 1]);
                assert(rest.contains(rest[b - 1]));
                if a > 0 {
                    assert(all[a] == rest[a - 1]);
                }
            }
        }
    }
}

/// Appending a duplicate-free list of new elements keeps a list duplicate-free.
proof fn lemma_append_distinct(a: Seq<int>, b: Seq<int>)
    requires
        a.no_duplicates(),
        b.no_duplicates(),
        forall|j: int| #[trigger] b.contains(j) ==> !a.contains(j),
    ensures
        (a + b).no_duplicates(),
        forall|j: int| #[trigger] (a + b).contains(j) <==> a.contains(j) || b.contains(j),
{
    let c = a + b;
    assert forall|j: int| #[trigger] c.contains(j) <==> a.contains(j) || b.contains(j) by {
        if c.contains(j) {
            let k = choose|k: int| 0 <= k < c.len() && c[k] == j;
            if k < a.len() {
                assert(a[k] == j);
            } else {
                assert(b[k - a.len()] == j);
            }
        }
        if a.contains(j) {
            let k = choose|k: int| 0 <= k < a.len() && a[k] == j;
            assert(c[k] == j);
        }
        if b.contains(j) {
            let k = choose|k: int| 0 <= k < b.len() && b[k] == j;
            assert(c[k + a.len()] == j);
        }
    }
    assert forall|p: int, q: int| 0 <= p < c.len() && 0 <= q < c.len() && p != q implies c[p]
        != c[q] by {
        if p < a.len() && q >= a.len() {
            assert(b.contains(b[q - a.len()]));
            assert(a.contains(a[p]));
        }
        if q < a.len() && p >= a.len() {
            assert(b.contains(b[p - a.len()]));
            assert(a.contains(a[q]));
        }
    }
}

proof fn lemma_row_lists(
    e: CpuPhysics,
    ps: Seq<Particle>,
    cells: Seq<Cell>,
    n: int,
    x0: int,
    y: int,
    k: int,
)
    requires
        e.lists(ps, cells, n),
        cells_on_grid(cells, n),
        0 <= k,
    ensures
        row_lists(e.grid@, e.particle_next@, x0, y, k).no_duplicates(),
        forall|j: int| #[trigger]
            row_lists(e.grid@, e.particle_next@, x0, y, k).contains(j) <==> {
                &&& 0 <= j < n
                &&& !ps[j].removed()
                &&& cells[j]@[1] == y
                &&& x0 <= cells[j]@[0] < x0 + k
            },
    decreases k,
{
    if k > 0 {
        lemma_row_lists(e, ps, cells, n, x0, y, k - 1);
        let before = row_lists(e.grid@, e.particle_next@, x0, y, k - 1);
        let x = x0 + k - 1;
        if on_grid(x, y) {
            let here = members(ps, cells, n, x, y);
            assert(chain(e.particle_next@, e.grid@[cell_index(x, y)] as int) == here);
            law_members_are_the_particles_of_the_cell(ps, cells, n, x, y);
            lemma_append_distinct(before, here);
        } else {
            assert forall|j: int| 0 <= j < n implies !(cells[j]@[1] == y && cells[j]@[0] == x) by {
                assert(on_grid(cells[j]@[0] as int, cells[j]@[1] as int));
            }
        }
    }
}

proof fn lemma_block_lists(
    e: CpuPhysics,
    ps: Seq<Particle>,
    cells: Seq<Cell>,
    n: int,
    x0: int,
    y0: int,
    width: int,
    rows: int,
)
    requires
        e.lists(ps, cells, n),
        cells_on_grid(cells, n),
        0 <= width,
        0 <= rows,
    ensures
        block_lists(e.grid@, e.particle_next@, x0, y0, width, rows).no_duplicates(),
        forall|j: int| #[trigger]
            block_lists(e.grid@, e.particle_next@, x0, y0, width, rows).contains(j) <==> {
                &&& 0 <= j < n
                &&& !ps[j].removed()
                &&& y0 <= cells[j]@[1] < y0 + rows
                &&& x0 <= cells[j]@[0] < x0 + width
            },
    decreases rows,
{
    if rows > 0 {
        lemma_block_lists(e, ps, cells, n, x0, y0, width, rows - 1);
        lemma_row_lists(e, ps, cells, n, x0, y0 + rows - 1, width);
        lemma_append_distinct(
            block_lists(e.grid@, e.particle_next@, x0, y0, width, rows - 1),
            row_lists(e.grid@, e.particle_next@, x0, y0 + rows - 1, width),
        );
    }
}

/// A neighbourhood query misses nobody and meets nobody twice: it visits exactly the particles
/// that are not removed and whose cell is at most `radius` columns and `radius` rows away.
pub proof fn law_neighbors_are_complete(
    e: CpuPhysics,
    ps: Seq<Particle>,
    cells: Seq<Cell>,
    n: int,
    cell: Cell,
    radius: int,
)
    requires
        e.lists(ps, cells, n),
        cells_on_grid(cells, n),
        0 <= radius,
    ensures
        e.around(cell, radius).no_duplicates(),
        forall|j: int| #[trigger]
            e.around(cell, radius).contains(j) <==> {
                &&& 0 <= j < n
                &&& !ps[j].removed()
                &&& -radius <= cells[j]@[0] - cell@[0] <= radius
                &&& -radius <= cells[j]@[1] - cell@[1] <= radius
            },
{
    lemma_block_lists(
        e,
        ps,
        cells,
        n,
        cell@[0] - radius,
        cell@[1] - radius,
        2 * radius + 1,
        2 * radius + 1,
    );
}

/// Both lists hold the same particles, but for those that are removed in both.
pub open spec fn same_but_removed(ps: Seq<Particle>, qs: Seq<Particle>) -> bool {
    &&& ps.len() == qs.len()
    &&& forall|j: int|
        0 <= j < ps.len() ==> ps[j] == #[trigger] qs[j] || ps[j].removed() && qs[j].removed()
}

/// The particles that are not removed stand in the same cells.
pub open spec fn same_cells(ps: Seq<Particle>, cells: Seq<Cell>, others: Seq<Cell>, n: int) -> bool {
    forall|j: int| 0 <= j < n && !ps[j].removed() ==> cells[j]@ == #[trigger] others[j]@
}

proof fn lemma_same_members(
    ps: Seq<Particle>,
    cells: Seq<Cell>,
    qs: Seq<Particle>,
    others: Seq<Cell>,
    n: int,
    x: int,
    y: int,
)
    requires
        same_but_removed(ps, qs),
        same_cells(ps, cells, others, n),
        n <= ps.len(),
    ensures
        members(ps, cells, n, x, y) == members(qs, others, n, x, y),
    decreases n,
{
    if n > 0 {
        lemma_same_members(ps, cells, qs, others, n - 1, x, y);
        assert(ps[n - 1] == qs[n - 1] || ps[n - 1].removed() && qs[n - 1].removed());
        assert(!ps[n - 1].removed() ==> cells[n - 1]@ == others[n - 1]@);
    }
}

proof fn lemma_same_row(a: CpuPhysics, b: CpuPhysics, x0: int, y: int, k: int)
    requires
        forall|x: int, y: int| #[trigger]
            on_grid(x, y) ==> chain(a.particle_next@, a.grid@[cell_index(x, y)] as int) == chain(
                b.particle_next@,
                b.grid@[cell_index(x, y)] as int,
            ),
    ensures
        row_lists(a.grid@, a.particle_next@, x0, y, k) == row_lists(
            b.grid@,
            b.particle_next@,
            x0,
            y,
            k,
        ),
    decreases k,
{
    if k > 0 {
        lemma_same_row(a, b, x0, y, k - 1);
        assert(on_grid(x0 + k - 1, y) || !on_grid(x0 + k - 1, y));
    }
}

proof fn lemma_same_block(a: CpuPhysics, b: CpuPhysics, x0: int, y0: int, width: int, rows: int)
    requires
        forall|x: int, y: int| #[trigger]
            on_grid(x, y) ==> chain(a.particle_next@, a.grid@[cell_index(x, y)] as int) == chain(
                b.particle_next@,
                b.grid@[cell_index(x, y)] as int,
            ),
    ensures
        block_lists(a.grid@, a.particle_next@, x0, y0, width, rows) == block_lists(
            b.grid@,
            b.particle_next@,
            x0,
            y0,
            width,
            rows,
        ),
    decreases rows,
{
    if rows > 0 {
        lemma_same_block(a, b, x0, y0, width, rows - 1);
        lemma_same_row(a, b, x0, y0 + rows - 1, width);
    }
}

/// What is found around a cell depends on the particles alone, and on those of them that are not
/// removed: two engines that list them find the same, in the same order, whatever else they hold
/// from earlier steps.
pub proof fn law_lists_depend_on_the_particles(
    a: CpuPhysics,
    ps: Seq<Particle>,
    cells: Seq<Cell>,
    b: CpuPhysics,
    qs: Seq<Particle>,
    others: Seq<Cell>,
    n: int,
    cell: Cell,
    radius: int,
)
    requires
        a.lists(ps, cells, n),
        b.lists(qs, others, n),
        same_but_removed(ps, qs),
        same_cells(ps, cells, others, n),
        n <= ps.len(),
    ensures
        a.around(cell, radius) == b.around(cell, radius),
{
    assert forall|x: int, y: int| #[trigger] on_grid(x, y) implies chain(
        a.particle_next@,
        a.grid@[cell_index(x, y)] as int,
    ) == chain(b.particle_next@, b.grid@[cell_index(x, y)] as int) by {
        lemma_same_members(ps, cells, qs, others, n, x, y);
    }
    lemma_same_block(
        a,
        b,
        cell@[0] - radius,
        cell@[1] - radius,
        2 * radius + 1,
        2 * radius + 1,
    );
}

proof fn lemma_chain_below(next: Seq<i32>, head: int, n: int)
    requires
        head < n,
    ensures
        forall|k: int|
            0 <= k < chain(next, head).len() ==> 0 <= #[trigger] chain(next, head)[k] < n,
    decreases head + 1,
{
    if 0 <= head < next.len() && -1 <= next[head] < head {
        lemma_chain_below(next, next[head] as int, n);
        let rest = chain(next, next[head] as int);
        assert forall|k: int| 0 <= k < chain(next, head).len() implies 0 <= #[trigger] chain(
            next,
            head,
        )[k] < n by {
            if k > 0 {
                assert(chain(next, head)[k] == rest[k - 1]);
            }
        }
    }
}

/// Where every list starts with one of the first `n` particles, only these are found around a
/// cell.
pub proof fn law_neighbors_stay_below(engine: CpuPhysics, n: int, cell: Cell, radius: int)
    requires
        engine.wf(),
        engine.heads_below(n),
        0 <= radius,
    ensures
        forall|k: int|
            0 <= k < engine.around(cell, radius).len() ==> 0 <= #[trigger] engine.around(
                cell,
                radius,
            )[k] < n,
{
    lemma_block_below(
        engine,
        n,
        cell@[0] - radius,
        cell@[1] - radius,
        2 * radius + 1,
        2 * radius + 1,
    );
}

proof fn lemma_block_below(engine: CpuPhysics, n: int, x0: int, y0: int, width: int, rows: int)
    requires
        engine.wf(),
        engine.heads_below(n),
        0 <= rows,
        0 <= width,
    ensures
        forall|k: int|
            0 <= k < block_lists(
                engine.grid@,
                engine.particle_next@,
                x0,
                y0,
                width,
                rows,
            ).len() ==> 0 <= #[trigger] block_lists(
                engine.grid@,
                engine.particle_next@,
                x0,
                y0,
                width,
                rows,
            )[k] < n,
    decreases rows,
{
    if rows > 0 {
        lemma_block_below(engine, n, x0, y0, width, rows - 1);
        lemma_row_below(engine, n, x0, y0 + rows - 1, width);
        let (g, t) = (engine.grid@, engine.particle_next@);
        let above = block_lists(g, t, x0, y0, width, rows - 1);
        let row = row_lists(g, t, x0, y0 + rows - 1, width);
        let all = block_lists(g, t, x0, y0, width, rows);
        assert forall|k: int| 0 <= k < all.len() implies 0 <= #[trigger] all[k] < n by {
            if k < above.len() {
                assert(all[k] == above[k]);
            } else {
                assert(all[k] == row[k - above.len()]);
            }
        }
    }
}

proof fn lemma_row_below(engine: CpuPhysics, n: int, x0: int, y: int, width: int)
    requires
        engine.wf(),
        engine.heads_below(n),
        0 <= width,
    ensures
        forall|k: int|
            0 <= k < row_lists(engine.grid@, engine.particle_next@, x0, y, width).len() ==> 0
                <= #[trigger] row_lists(engine.grid@, engine.particle_next@, x0, y, width)[k] < n,
    decreases width,
{
    if width > 0 {
        lemma_row_below(engine, n, x0, y, width - 1);
        let (g, t) = (engine.grid@, engine.particle_next@);
        let x = x0 + width - 1;
        if on_grid(x, y) {
            assert(0 <= cell_index(x, y) < GRID_W * GRID_H);
            let head = g[cell_index(x, y)] as int;
            lemma_chain_below(t, head, n);
            let before = row_lists(g, t, x0, y, width - 1);
            let all = row_lists(g, t, x0, y, width);
            let own = chain(t, head);
            assert forall|k: int| 0 <= k < all.len() implies 0 <= #[trigger] all[k] < n by {
                if k < before.len() {
                    assert(all[k] == before[k]);
                } else {
                    assert(all[k] == own[k - before.len()]);
                }
            }
        } else {
            assert(row_lists(g, t, x0, y, width) == row_lists(g, t, x0, y, width - 1));
        }
    }
}

/// A coordinate is in the cell of its integer part; one that is lost or not above zero is in the
/// first, one from 1023 on in the last. The column goes by the first coordinate, the row by the
/// second.
pub proof fn law_cell_is_the_integer_part(scaled: [Single; 2], r: Cell, axis: int, part: u32)
    requires
        call_ensures(pos_to_cell, (scaled,), r),
        0 <= axis < 2,
        num(0).less(scaled@[axis]) && scaled@[axis].less(num(0x447f_c000)) ==> call_ensures(
            Single::trunc,
            (scaled@[axis],),
            part,
        ),
    ensures
        scaled@[axis].nan() || scaled@[axis].at_most(num(0)) ==> r@[axis] == 0,
        num(0x447f_c000).at_most(scaled@[axis]) ==> r@[axis] == 1023,
        num(0).less(scaled@[axis]) && scaled@[axis].less(num(0x447f_c000)) ==> r@[axis] == part,
{
}

/// A new engine has an empty list for every cell of a grid of 1024 by 1024, and room and no residue
/// for every particle.
pub proof fn law_new_engine_is_empty(max_particles: u32, r: CpuPhysics, c: int, i: int)
    requires
        call_ensures(CpuPhysics::new, (max_particles,), r),
    ensures
        r.grid@.len() == 1024 * 1024,
        0 <= c < 1024 * 1024 ==> r.grid@[c] == -1,
        r.particle_next@.len() == max_particles,
        r.pos_residue@.len() == max_particles,
        0 <= i < max_particles ==> {
            &&& r.particle_next@[i] == -1
            &&& r.pos_residue@[i]@[0].bits == 0
            &&& r.pos_residue@[i]@[1].bits == 0
        },
        r.max_particles == max_particles,
{
    let _ = r.pos_residue@[i];
}

/// Particle `a` is read before particle `b`: its row comes first, or its column in the same row, or
/// it is the younger one of the same cell.
spec fn read_before(cells: Seq<Cell>, a: int, b: int) -> bool {
    ||| cells[a]@[1] < cells[b]@[1]
    ||| cells[a]@[1] == cells[b]@[1] && cells[a]@[0] < cells[b]@[0]
    ||| cells[a]@[1] == cells[b]@[1] && cells[a]@[0] == cells[b]@[0] && a > b
}

/// A list is in reading order.
spec fn in_order(cells: Seq<Cell>, list: Seq<int>) -> bool {
    forall|s: int, t: int|
        0 <= s < t < list.len() ==> read_before(cells, #[trigger] list[s], #[trigger] list[t])
}

proof fn lemma_append_in_order(cells: Seq<Cell>, a: Seq<int>, b: Seq<int>)
    requires
        in_order(cells, a),
        in_order(cells, b),
        forall|s: int, t: int|
            0 <= s < a.len() && 0 <= t < b.len() ==> read_before(
                cells,
                #[trigger] a[s],
                #[trigger] b[t],
            ),
    ensures
        in_order(cells, a + b),
{
    let c = a + b;
    assert forall|s: int, t: int| 0 <= s < t < c.len() implies read_before(
        cells,
        #[trigger] c[s],
        #[trigger] c[t],
    ) by {
        if s < a.len() {
            assert(c[s] == a[s]);
        } else {
            assert(c[s] == b[s - a.len()]);
        }
        if t < a.len() {
            assert(c[t] == a[t]);
        } else {
            assert(c[t] == b[t - a.len()]);
        }
    }
}

proof fn lemma_row_in_order(
    e: CpuPhysics,
    ps: Seq<Particle>,
    cells: Seq<Cell>,
    n: int,
    x0: int,
    y: int,
    k: int,
)
    requires
        e.lists(ps, cells, n),
        cells_on_grid(cells, n),
        0 <= k,
    ensures
        in_order(cells, row_lists(e.grid@, e.particle_next@, x0, y, k)),
    decreases k,
{
    if k > 0 {
        lemma_row_in_order(e, ps, cells, n, x0, y, k - 1);
        lemma_row_lists(e, ps, cells, n, x0, y, k - 1);
        let before = row_lists(e.grid@, e.particle_next@, x0, y, k - 1);
        let x = x0 + k - 1;
        if on_grid(x, y) {
            let here = members(ps, cells, n, x, y);
            assert(chain(e.particle_next@, e.grid@[cell_index(x, y)] as int) == here);
            law_members_are_the_particles_of_the_cell(ps, cells, n, x, y);
            assert forall|s: int, t: int| 0 <= s < t < here.len() implies read_before(
                cells,
                #[trigger] here[s],
                #[trigger] here[t],
            ) by {
                assert(here.contains(here[s]) && here.contains(here[t]));
            }
            assert forall|s: int, t: int|
                0 <= s < before.len() && 0 <= t < here.len() implies read_before(
                cells,
                #[trigger] before[s],
                #[trigger] here[t],
            ) by {
                assert(before.contains(before[s]) && here.contains(here[t]));
            }
            lemma_append_in_order(cells, before, here);
        }
    }
}

proof fn lemma_block_in_order(
    e: CpuPhysics,
    ps: Seq<Particle>,
    cells: Seq<Cell>,
    n: int,
    x0: int,
    y0: int,
    width: int,
    rows: int,
)
    requires
        e.lists(ps, cells, n),
        cells_on_grid(cells, n),
        0 <= width,
        0 <= rows,
    ensures
        in_order(cells, block_lists(e.grid@, e.particle_next@, x0, y0, width, rows)),
    decreases rows,
{
    if rows > 0 {
        lemma_block_in_order(e, ps, cells, n, x0, y0, width, rows - 1);
        lemma_row_in_order(e, ps, cells, n, x0, y0 + rows - 1, width);
        lemma_block_lists(e, ps, cells, n, x0, y0, width, rows - 1);
        lemma_row_lists(e, ps, cells, n, x0, y0 + rows - 1, width);
        let before = block_lists(e.grid@, e.particle_next@, x0, y0, width, rows - 1);
        let row = row_lists(e.grid@, e.particle_next@, x0, y0 + rows - 1, width);
        assert forall|s: int, t: int|
            0 <= s < before.len() && 0 <= t < row.len() implies read_before(
            cells,
            #[trigger] before[s],
            #[trigger] row[t],
        ) by {
            assert(before.contains(before[s]) && row.contains(row[t]));
        }
        lemma_append_in_order(cells, before, row);
    }
}

/// After the lists were built, a query finds exactly the particles that are counted, not removed and
/// at most `radius` columns and rows away, each once: row by row, column by column, and in a cell the
/// youngest first. Building changes no residue, and with no active particle nothing at all.
pub proof fn law_query_finds_what_was_listed(
    engine: &mut CpuPhysics,
    particles: Vec<Particle>,
    cells: Vec<Cell>,
    active_count: u32,
    done: (),
    after: CpuPhysics,
    cell: Cell,
    radius: i32,
    found: Vec<u32>,
    j: int,
    s: int,
    t: int,
)
    requires
        old(engine).wf(),
        0 < active_count,
        active_count <= old(engine).max_particles,
        active_count <= i32::MAX,
        particles@.len() >= active_count,
        cells@.len() >= active_count,
        forall|k: int|
            0 <= k < active_count ==> 0 <= (#[trigger] cells@[k])@[0] < 1024 && 0 <= cells@[k]@[1]
                < 1024,
        call_ensures(CpuPhysics::populate, (engine, &particles, &cells, active_count), done),
        after == *final(engine),
        0 <= cell@[0] < 1024 && 0 <= cell@[1] < 1024,
        0 <= radius <= 1024,
        call_ensures(CpuPhysics::neighbors, (&after, cell, radius), found),
    ensures
        0 <= j < active_count && particles@[j].mat_type & 0x4000_0000 == 0 && -radius
            <= cells@[j]@[0] - cell@[0] <= radius && -radius <= cells@[j]@[1] - cell@[1] <= radius
            ==> exists|k: int| 0 <= k < found@.len() && #[trigger] found@[k] == j,
        0 <= s < found@.len() ==> {
            let a = found@[s] as int;
            &&& a < active_count
            &&& particles@[a].mat_type & 0x4000_0000 == 0
            &&& -radius <= cells@[a]@[0] - cell@[0] <= radius
            &&& -radius <= cells@[a]@[1] - cell@[1] <= radius
        },
        0 <= s < t < found@.len() ==> {
            let a = found@[s] as int;
            let b = found@[t] as int;
            ||| cells@[a]@[1] < cells@[b]@[1]
            ||| cells@[a]@[1] == cells@[b]@[1] && cells@[a]@[0] < cells@[b]@[0]
            ||| cells@[a]@[1] == cells@[b]@[1] && cells@[a]@[0] == cells@[b]@[0] && a > b
        },
        after.pos_residue@ == old(engine).pos_residue@,
        after.max_particles == old(engine).max_particles,
{
    let n = active_count as int;
    assert forall|k: int| 0 <= k < n implies on_grid(
        #[trigger] cells@[k]@[0] as int,
        cells@[k]@[1] as int,
    ) by {}
    assert(on_grid(cell@[0] as int, cell@[1] as int));
    law_neighbors_are_complete(after, particles@, cells@, n, cell, radius as int);
    lemma_block_in_order(
        after,
        particles@,
        cells@,
        n,
        cell@[0] - radius,
        cell@[1] - radius,
        2 * radius + 1,
        2 * radius + 1,
    );
    let around = after.around(cell, radius as int);
    let plain = found@.map_values(|k: u32| k as int);
    assert(plain == around);
    if 0 <= s < found@.len() {
        assert(plain[s] == around[s]);
        assert(around.contains(around[s]));
    }
    if 0 <= s < t < found@.len() {
        assert(plain[t] == around[t]);
    }
    if 0 <= j < n && particles@[j].mat_type & 0x4000_0000 == 0 && -radius <= cells@[j]@[0] - cell@[0]
        <= radius && -radius <= cells@[j]@[1] - cell@[1] <= radius {
        assert(!particles@[j].removed());
        assert(around.contains(j));
        let k = choose|k: int| 0 <= k < around.len() && around[k] == j;
        assert(plain[k] == j);
        assert(found@[k] == j);
    }
}

/// More particles than there is room for are not listed: then exactly the first of them are.
pub proof fn law_lists_stop_at_the_room(
    engine: &mut CpuPhysics,
    other: &mut CpuPhysics,
    particles: Vec<Particle>,
    cells: Vec<Cell>,
    active_count: u32,
    done: (),
    cell: Cell,
    radius: i32,
    after: CpuPhysics,
    after_other: CpuPhysics,
    found: Vec<u32>,
    found_other: Vec<u32>,
)
    requires
        old(engine).wf(),
        *old(other) == *old(engine),
        0 < old(engine).max_particles <= active_count,
        old(engine).max_particles <= i32::MAX,
        particles@.len() >= old(engine).max_particles,
        cells@.len() >= old(engine).max_particles,
        forall|k: int|
            0 <= k < old(engine).max_particles ==> 0 <= (#[trigger] cells@[k])@[0] < 1024 && 0
                <= cells@[k]@[1] < 1024,
        call_ensures(CpuPhysics::populate, (engine, &particles, &cells, active_count), done),
        call_ensures(
            CpuPhysics::populate,
            (other, &particles, &cells, old(other).max_particles),
            done,
        ),
        after == *final(engine),
        after_other == *final(other),
        0 <= cell@[0] < 1024 && 0 <= cell@[1] < 1024,
        0 <= radius <= 1024,
        call_ensures(CpuPhysics::neighbors, (&after, cell, radius), found),
        call_ensures(CpuPhysics::neighbors, (&after_other, cell, radius), found_other),
    ensures
        found@ == found_other@,
{
    let n = old(engine).max_particles as int;
    assert forall|k: int| 0 <= k < n implies on_grid(
        #[trigger] cells@[k]@[0] as int,
        cells@[k]@[1] as int,
    ) by {}
    assert(on_grid(cell@[0] as int, cell@[1] as int));
    law_lists_depend_on_the_particles(
        after,
        particles@,
        cells@,
        after_other,
        particles@,
        cells@,
        n,
        cell,
        radius as int,
    );
    let plain = found@.map_values(|k: u32| k as int);
    let plain_other = found_other@.map_values(|k: u32| k as int);
    assert(plain == plain_other);
    assert forall|k: int| 0 <= k < found@.len() implies found@[k] == found_other@[k] by {
        assert(plain[k] == plain_other[k]);
    }
    assert(plain.len() == found@.len() && plain_other.len() == found_other@.len());
    assert(found@ =~= found_other@);
}

/// A step ends for every counted particle as settling ends it, and leaves every other particle, and
/// the lists, as they are.
pub proof fn law_step_settles_each(
    engine: &mut CpuPhysics,
    particles: &mut Vec<Particle>,
    params: SimParams,
    walls: Walls,
    results: Vec<PhysicsResult>,
    active_count: u32,
    done: (),
    i: int,
    s: (Particle, [Single; 2]),
)
    requires
        old(engine).wf(),
        active_count <= old(particles)@.len() || old(engine).max_particles <= old(particles)@.len(),
        active_count <= results@.len() || old(engine).max_particles <= results@.len(),
        call_ensures(
            CpuPhysics::step,
            (engine, particles, &params, &walls, &results, active_count),
            done,
        ),
        0 <= i < old(particles)@.len(),
        i < active_count && i < old(engine).max_particles ==> call_ensures(
            settle,
            (&results@[i].particle, &params, &results@[i].motion, &walls),
            s,
        ),
    ensures
        final(particles)@.len() == old(particles)@.len(),
        i < active_count && i < old(engine).max_particles ==> {
            let q = final(particles)@[i];
            &&& q.pos@ == s.0.pos@
            &&& q.vel@ == s.0.vel@
            &&& q.links@ == s.0.links@
            &&& q.charge == s.0.charge
            &&& q.angle == s.0.angle
            &&& q.temperature == s.0.temperature
            &&& q.mat_type == s.0.mat_type
            &&& q.inv_mass == s.0.inv_mass
            &&& q.grav_scale == s.0.grav_scale
            &&& final(engine).pos_residue@[i]@ == s.1@
        },
        !(i < active_count && i < old(engine).max_particles) ==> {
            &&& final(particles)@[i] == old(particles)@[i]
            &&& i < old(engine).max_particles ==> final(engine).pos_residue@[i] == old(
                engine,
            ).pos_residue@[i]
        },
        final(engine).grid@ == old(engine).grid@,
        final(engine).particle_next@ == old(engine).particle_next@,
        final(engine).max_particles == old(engine).max_particles,
{
    let _ = final(particles)@[i];
}

/// With no active particle, building the lists changes nothing.
pub proof fn law_nothing_is_listed_without_particles(
    engine: &mut CpuPhysics,
    particles: Vec<Particle>,
    cells: Vec<Cell>,
    done: (),
)
    requires
        old(engine).wf(),
        call_ensures(CpuPhysics::populate, (engine, &particles, &cells, 0u32), done),
    ensures
        *final(engine) == *old(engine),
{
}

} // verus!
