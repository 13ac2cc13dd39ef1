use vstd::prelude::*;
use vstd::arithmetic::div_mod::lemma_fundamental_div_mod_converse;
use crate::framebuffer::{black_color, frame_text, white_color, Color, Framebuffer};

verus! {

/// A coordinate taken modulo the grid's extent: the grid has no edge.
#[verifier::opaque]
pub open spec fn wrap(v: int, n: int) -> int {
    v % n
}

/// Whether the cell at (x, y), both coordinates wrapped, is alive.
pub open spec fn alive_at(cells: Seq<Seq<bool>>, width: int, height: int, x: int, y: int) -> bool {
    cells[wrap(y, height)][wrap(x, width)]
}

/// 1 for alive, 0 for dead.
pub open spec fn bit(b: bool) -> nat {
    if b {
        1
    } else {
        0
    }
}

/// How many of the eight cells around (x, y) on the torus are alive.
#[verifier::opaque]
pub open spec fn neighbor_count(cells: Seq<Seq<bool>>, width: int, height: int, x: int, y: int) -> nat {
    bit(alive_at(cells, width, height, x - 1, y - 1)) + bit(alive_at(cells, width, height, x, y - 1))
        + bit(alive_at(cells, width, height, x + 1, y - 1)) + bit(alive_at(cells, width, height, x - 1, y))
        + bit(alive_at(cells, width, height, x + 1, y)) + bit(alive_at(cells, width, height, x - 1, y + 1))
        + bit(alive_at(cells, width, height, x, y + 1)) + bit(alive_at(cells, width, height, x + 1, y + 1))
}

/// Conway's rule: survival on 2 or 3 neighbours, birth on exactly 3.
pub open spec fn life_rule(alive: bool, neighbors: nat) -> bool {
    if alive {
        neighbors == 2 || neighbors == 3
    } else {
        neighbors == 3
    }
}

/// The generation that follows `cells`, every cell read from the same prior state.
pub open spec fn next_generation(cells: Seq<Seq<bool>>, width: int, height: int) -> Seq<Seq<bool>> {
    Seq::new(
        height as nat,
        |y: int|
            Seq::new(
                width as nat,
                |x: int| life_rule(cells[y][x], neighbor_count(cells, width, height, x, y)),
            ),
    )
}

/// A grid of `height` rows of `width` cells.
pub open spec fn is_grid(cells: Seq<Seq<bool>>, width: int, height: int) -> bool {
    &&& cells.len() == height
    &&& forall|y: int| 0 <= y < height ==> (#[trigger] cells[y]).len() == width
}

/// A grid of `height` rows of `width` dead cells.
pub open spec fn dead_cells(width: int, height: int) -> Seq<Seq<bool>> {
    Seq::new(height as nat, |y: int| Seq::new(width as nat, |x: int| false))
}

/// White for an alive cell, black for a dead one.
pub open spec fn color_of(alive: bool) -> Color {
    if alive {
        white_color()
    } else {
        black_color()
    }
}

/// The framebuffer contents that show `cells`, row by row.
pub open spec fn pixels_of(cells: Seq<Seq<bool>>, width: int, height: int) -> Seq<Color> {
    Seq::new((width * height) as nat, |i: int| color_of(cells[i / width][i % width]))
}

/// For a coordinate at most one step outside `0..n`, the modulo written out.
pub proof fn lemma_wrap(v: int, n: int)
    requires
        n > 0,
        -1 <= v <= n,
    ensures
        wrap(v, n) == if v < 0 {
            v + n
        } else if v == n {
            0
        } else {
            v
        },
{
    reveal(wrap);
    if v < 0 {
        lemma_fundamental_div_mod_converse(v, n, -1, v + n);
    } else if v == n {
        lemma_fundamental_div_mod_converse(v, n, 1, 0);
    } else {
        lemma_fundamental_div_mod_converse(v, n, 0, v);
    }
}

/// The coordinate before `v` on a ring of `n`.
fn ring_prev(v: usize, n: usize) -> (r: usize)
    requires
        v < n,
    ensures
        r == wrap(v - 1, n as int),
        r < n,
{
    proof {
        lemma_wrap(v - 1, n as int);
    }
    if v == 0 {
        n - 1
    } else {
        v - 1
    }
}

/// The coordinate after `v` on a ring of `n`.
fn ring_next(v: usize, n: usize) -> (r: usize)
    requires
        v < n,
    ensures
        r == wrap(v + 1, n as int),
        r < n,
{
    proof {
        lemma_wrap(v + 1, n as int);
    }
    if v + 1 == n {
        0
    } else {
        v + 1
    }
}

/// The coordinate before `v` on a ring of `n`.
pub open spec fn ring_before(v: int, n: int) -> int {
    if v == 0 {
        n - 1
    } else {
        v - 1
    }
}

/// The coordinate after `v` on a ring of `n`.
pub open spec fn ring_after(v: int, n: int) -> int {
    if v + 1 == n {
        0
    } else {
        v + 1
    }
}

/// The neighbour count of an in-range cell, with the wrap written out.
pub proof fn lemma_neighbor_count_ring(cells: Seq<Seq<bool>>, width: int, height: int, x: int, y: int)
    requires
        0 <= x < width,
        0 <= y < height,
    ensures
        ({
            let (l, r, u, d) = (
                ring_before(x, width),
                ring_after(x, width),
                ring_before(y, height),
                ring_after(y, height),
            );
            neighbor_count(cells, width, height, x, y) == bit(cells[u][l]) + bit(cells[u][x]) + bit(
                cells[u][r],
            ) + bit(cells[y][l]) + bit(cells[y][r]) + bit(cells[d][l]) + bit(cells[d][x]) + bit(
                cells[d][r],
            )
        }),
{
    reveal(neighbor_count);
    lemma_wrap(x - 1, width);
    lemma_wrap(x, width);
    lemma_wrap(x + 1, width);
    lemma_wrap(y - 1, height);
    lemma_wrap(y, height);
    lemma_wrap(y + 1, height);
}

/// The `width` x `height` grid whose alive cells are those where `alive` holds.
pub open spec fn grid_of(width: int, height: int, alive: spec_fn(int, int) -> bool) -> Seq<Seq<bool>> {
    Seq::new(height as nat, |y: int| Seq::new(width as nat, |x: int| alive(x, y)))
}

/// Index `i` of a row-major buffer with rows of `width` is pixel (i % width, i / width).
pub proof fn lemma_row_major(i: int, x: int, y: int, width: int)
    requires
        width > 0,
        0 <= x < width,
        i == y * width + x,
    ensures
        i % width == x,
        i / width == y,
{
    lemma_fundamental_div_mod_converse(i, width, y, x);
}

/// 1 for alive, 0 for dead.
fn bit_of(b: bool) -> (r: usize)
    ensures
        r == bit(b),
        r <= 1,
{
    if b {
        1
    } else {
        0
    }
}

/// Whether one of `offsets`, placed with its origin at row `row` and column `col`,
/// lands on (x, y).
pub open spec fn covers(offsets: Seq<(usize, usize)>, row: int, col: int, x: int, y: int) -> bool {
    exists|i: int| 0 <= i < offsets.len() && col + (#[trigger] offsets[i]).0 == x && row + offsets[i].1 == y
}

/// `cells` with every cell that the placed pattern covers made alive.
pub open spec fn stamped(cells: Seq<Seq<bool>>, offsets: Seq<(usize, usize)>, row: int, col: int) -> Seq<Seq<bool>> {
    Seq::new(
        cells.len(),
        |y: int| Seq::new(cells[y].len(), |x: int| cells[y][x] || covers(offsets, row, col, x, y)),
    )
}

/// Every offset of the placed pattern falls inside a `width` x `height` grid.
pub open spec fn fits(offsets: Seq<(usize, usize)>, row: int, col: int, width: int, height: int) -> bool {
    forall|i: int| 0 <= i < offsets.len() ==> col + (#[trigger] offsets[i]).0 < width && row + offsets[i].1 < height
}

/// A shape placed on the grid: a cell at (col + dx, row + dy) for each offset (dx, dy).
pub struct Pattern {
    pub row: usize,
    pub col: usize,
    pub offsets: Vec<(usize, usize)>,
}

impl Pattern {
    pub open spec fn view(&self) -> (usize, usize, Seq<(usize, usize)>) {
        (self.row, self.col, self.offsets@)
    }
}

pub open spec fn glider() -> Seq<(usize, usize)> {
    seq![(1, 0), (2, 1), (0, 2), (1, 2), (2, 2)]
}

pub open spec fn blinker() -> Seq<(usize, usize)> {
    seq![(0, 1), (1, 1), (2, 1)]
}

pub open spec fn toad() -> Seq<(usize, usize)> {
    seq![(1, 0), (2, 0), (3, 0), (0, 1), (1, 1), (2, 1)]
}

pub open spec fn beacon() -> Seq<(usize, usize)> {
    seq![(0, 0), (1, 0), (0, 1), (3, 2), (2, 3), (3, 3)]
}

pub open spec fn lightweight_spaceship() -> Seq<(usize, usize)> {
    seq![(0, 0), (3, 0), (4, 1), (0, 2), (4, 2), (1, 3), (2, 3), (3, 3), (4, 3)]
}

pub open spec fn custom_shape() -> Seq<(usize, usize)> {
    seq![(0, 0), (1, 0), (2, 0), (1, 1), (1, 2)]
}

pub open spec fn pulsar() -> Seq<(usize, usize)> {
    seq![
        (2, 0), (3, 0), (4, 0), (8, 0), (9, 0), (10, 0),
        (0, 2), (5, 2), (7, 2), (12, 2),
        (0, 3), (5, 3), (7, 3), (12, 3),
        (0, 4), (5, 4), (7, 4), (12, 4),
        (2, 5), (3, 5), (4, 5), (8, 5), (9, 5), (10, 5),
        (2, 7), (3, 7), (4, 7), (8, 7), (9, 7), (10, 7),
        (0, 8), (5, 8), (7, 8), (12, 8),
        (0, 9), (5, 9), (7, 9), (12, 9),
        (0, 10), (5, 10), (7, 10), (12, 10),
        (2, 12), (3, 12), (4, 12), (8, 12), (9, 12), (10, 12),
    ]
}

pub open spec fn diehard() -> Seq<(usize, usize)> {
    seq![(7, 0), (1, 1), (2, 1), (2, 2), (6, 2), (7, 2), (8, 2)]
}

pub open spec fn acorn() -> Seq<(usize, usize)> {
    seq![(1, 0), (3, 1), (0, 2), (1, 2), (4, 2), (5, 2), (6, 2)]
}

/// The seeded shapes as (row, column, offsets).
pub open spec fn seed_table() -> Seq<(usize, usize, Seq<(usize, usize)>)> {
    seq![
        (1, 1, glider()),
        (10, 10, blinker()),
        (20, 20, toad()),
        (30, 5, beacon()),
        (5, 50, lightweight_spaceship()),
        (35, 45, custom_shape()),
        (2, 65, pulsar()),
        (25, 10, diehard()),
        (15, 35, acorn()),
    ]
}

/// The smallest grid width that holds every seeded shape.
pub const MIN_WIDTH: usize = 78;

/// The smallest grid height that holds every seeded shape.
pub const MIN_HEIGHT: usize = 38;

/// A dead grid with the first `k` shapes of the table stamped onto it.
pub open spec fn seeded_upto(width: int, height: int, k: int) -> Seq<Seq<bool>>
    decreases k,
{
    if k <= 0 {
        dead_cells(width, height)
    } else {
        let (row, col, offsets) = seed_table()[k - 1];
        stamped(seeded_upto(width, height, k - 1), offsets, row as int, col as int)
    }
}

/// The grid that seeding produces.
pub open spec fn seeded_cells(width: int, height: int) -> Seq<Seq<bool>> {
    seeded_upto(width, height, seed_table().len() as int)
}

/// Every seeded shape fits a grid of the minimum size.
pub proof fn lemma_seed_table_fits(k: int)
    requires
        0 <= k < seed_table().len(),
    ensures
        fits(seed_table()[k].2, seed_table()[k].0 as int, seed_table()[k].1 as int, MIN_WIDTH as int, MIN_HEIGHT as int),
{
    let (row, col, offsets) = seed_table()[k];
    assert forall|i: int| 0 <= i < offsets.len() implies col + (#[trigger] offsets[i]).0 < MIN_WIDTH && row + offsets[i].1 < MIN_HEIGHT by {
        if k == 6 {
            assert(offsets == pulsar());
        }
    }
}

/// The table of seeded shapes.
pub fn seed_patterns() -> (r: Vec<Pattern>)
    ensures
        r@.len() == seed_table().len(),
        forall|k: int| 0 <= k < r@.len() ==> (#[trigger] r@[k]).view() == seed_table()[k],
{
    let mut t: Vec<Pattern> = Vec::new();
    t.push(Pattern { row: 1, col: 1, offsets: vec![(1, 0), (2, 1), (0, 2), (1, 2), (2, 2)] });
    t.push(Pattern { row: 10, col: 10, offsets: vec![(0, 1), (1, 1), (2, 1)] });
    t.push(Pattern { row: 20, col: 20, offsets: vec![(1, 0), (2, 0), (3, 0), (0, 1), (1, 1), (2, 1)] });
    t.push(Pattern { row: 30, col: 5, offsets: vec![(0, 0), (1, 0), (0, 1), (3, 2), (2, 3), (3, 3)] });
    t.push(
        Pattern {
            row: 5,
            col: 50,
            offsets: vec![(0, 0), (3, 0), (4, 1), (0, 2), (4, 2), (1, 3), (2, 3), (3, 3), (4, 3)],
        },
    );
    t.push(Pattern { row: 35, col: 45, offsets: vec![(0, 0), (1, 0), (2, 0), (1, 1), (1, 2)] });
    t.push(
        Pattern {
            row: 2,
            col: 65,
            offsets: vec![
                (2, 0), (3, 0), (4, 0), (8, 0), (9, 0), (10, 0),
                (0, 2), (5, 2), (7, 2), (12, 2),
                (0, 3), (5, 3), (7, 3), (12, 3),
                (0, 4), (5, 4), (7, 4), (12, 4),
                (2, 5), (3, 5), (4, 5), (8, 5), (9, 5), (10, 5),
                (2, 7), (3, 7), (4, 7), (8, 7), (9, 7), (10, 7),
                (0, 8), (5, 8), (7, 8), (12, 8),
                (0, 9), (5, 9), (7, 9), (12, 9),
                (0, 10), (5, 10), (7, 10), (12, 10),
                (2, 12), (3, 12), (4, 12), (8, 12), (9, 12), (10, 12),
            ],
        },
    );
    t.push(Pattern { row: 25, col: 10, offsets: vec![(7, 0), (1, 1), (2, 1), (2, 2), (6, 2), (7, 2), (8, 2)] });
    t.push(Pattern { row: 15, col: 35, offsets: vec![(1, 0), (3, 1), (0, 2), (1, 2), (4, 2), (5, 2), (6, 2)] });
    proof {
        assert(t@[0].offsets@ =~= glider());
        assert(t@[1].offsets@ =~= blinker());
        assert(t@[2].offsets@ =~= toad());
        assert(t@[3].offsets@ =~= beacon());
        assert(t@[4].offsets@ =~= lightweight_spaceship());
        assert(t@[5].offsets@ =~= custom_shape());
        assert(t@[6].offsets@ =~= pulsar());
        assert(t@[7].offsets@ =~= diehard());
        assert(t@[8].offsets@ =~= acorn());
    }
    t
}

/// A grid of `height` rows of `width` dead cells.
fn dead_grid(width: usize, height: usize) -> (r: Vec<Vec<bool>>)
    ensures
        r@.len() == height,
        forall|y: int| 0 <= y < height ==> (#[trigger] r@[y])@ == Seq::new(width as nat, |x: int| false),
{
    let mut g: Vec<Vec<bool>> = Vec::new();
    let mut y: usize = 0;
    while y < height
        invariant
            y <= height,
            g@.len() == y,
            forall|yy: int| 0 <= yy < y ==> (#[trigger] g@[yy])@ == Seq::new(width as nat, |x: int| false),
        decreases height - y,
    {
        let row: Vec<bool> = vec![false; width];
        proof {
            assert(row@ =~= Seq::new(width as nat, |x: int| false));
        }
        g.push(row);
        y = y + 1;
    }
    g
}

/// The simulation: the live grid, a scratch grid of the same shape, and the
/// framebuffer that shows it.
pub struct GameOfLife {
    grid: Vec<Vec<bool>>,
    next: Vec<Vec<bool>>,
    framebuffer: Framebuffer,
    width: usize,
    height: usize,
    generation: usize,
}

impl GameOfLife {
    pub closed spec fn spec_width(&self) -> int {
        self.width as int
    }

    pub closed spec fn spec_height(&self) -> int {
        self.height as int
    }

    pub closed spec fn spec_generation(&self) -> int {
        self.generation as int
    }

    /// The live grid, row by row.
    pub closed spec fn cells(&self) -> Seq<Seq<bool>> {
        Seq::new(self.grid@.len(), |y: int| self.grid@[y]@)
    }

    /// What the framebuffer currently holds.
    pub closed spec fn frame(&self) -> Seq<Color> {
        self.framebuffer.pixels()
    }

    pub closed spec fn wf(&self) -> bool {
        &&& self.width > 0
        &&& self.height > 0
        &&& self.framebuffer.wf()
        &&& self.framebuffer.spec_width() == self.width
        &&& self.framebuffer.spec_height() == self.height
        &&& self.grid@.len() == self.height
        &&& self.next@.len() == self.height
        &&& forall|y: int| 0 <= y < self.height ==> (#[trigger] self.grid@[y])@.len() == self.width
        &&& forall|y: int| 0 <= y < self.height ==> (#[trigger] self.next@[y])@.len() == self.width
    }

    /// A `width` x `height` simulation seeded with the fixed shapes, at generation 0,
    /// with a black framebuffer of the same size.
    pub fn new(width: usize, height: usize) -> (r: Self)
        requires
            width >= MIN_WIDTH,
            height >= MIN_HEIGHT,
            width * height <= usize::MAX,
        ensures
            r.wf(),
            r.spec_width() == width,
            r.spec_height() == height,
            r.spec_generation() == 0,
            r.cells() == seeded_cells(width as int, height as int),
            r.frame() == Seq::new((width * height) as nat, |i: int| black_color()),
    {
        let mut game = GameOfLife {
            grid: dead_grid(width, height),
            next: dead_grid(width, height),
            framebuffer: Framebuffer::new(width, height),
            width,
            height,
            generation: 0,
        };
        game.load_multiple_patterns();
        game
    }

    /// Makes every cell of the live grid dead.
    pub fn clear(&mut self)
        requires
            old(self).wf(),
        ensures
            final(self).wf(),
            final(self).spec_width() == old(self).spec_width(),
            final(self).spec_height() == old(self).spec_height(),
            final(self).spec_generation() == old(self).spec_generation(),
            final(self).frame() == old(self).frame(),
            final(self).cells() == dead_cells(old(self).spec_width(), old(self).spec_height()),
    {
        self.grid = dead_grid(self.width, self.height);
        proof {
            assert(self.cells() =~~= dead_cells(self.width as int, self.height as int));
        }
    }

    /// Sets the cell at (x, y) alive or dead.
    pub fn set_cell(&mut self, x: usize, y: usize, alive: bool)
        requires
            old(self).wf(),
            x < old(self).spec_width(),
            y < old(self).spec_height(),
        ensures
            final(self).wf(),
            final(self).spec_width() == old(self).spec_width(),
            final(self).spec_height() == old(self).spec_height(),
            final(self).spec_generation() == old(self).spec_generation(),
            final(self).frame() == old(self).frame(),
            final(self).cells() == old(self).cells().update(
                y as int,
                old(self).cells()[y as int].update(x as int, alive),
            ),
    {
        let ghost c0 = self.cells();
        self.grid[y][x] = alive;
        proof {
            assert(self.cells() =~~= c0.update(y as int, c0[y as int].update(x as int, alive)));
        }
    }

    /// Makes alive every cell that the pattern covers when placed at (row, col).
    fn stamp(&mut self, offsets: &Vec<(usize, usize)>, row: usize, col: usize)
        requires
            old(self).wf(),
            fits(offsets@, row as int, col as int, old(self).spec_width(), old(self).spec_height()),
        ensures
            final(self).wf(),
            final(self).spec_width() == old(self).spec_width(),
            final(self).spec_height() == old(self).spec_height(),
            final(self).spec_generation() == old(self).spec_generation(),
            final(self).frame() == old(self).frame(),
            final(self).cells() == stamped(old(self).cells(), offsets@, row as int, col as int),
    {
        let ghost c0 = self.cells();
        let ghost frame0 = self.frame();
        let mut i: usize = 0;
        while i < offsets.len()
            invariant
                self.wf(),
                self.width == old(self).width,
                self.height == old(self).height,
                self.generation == old(self).generation,
                self.frame() == frame0,
                c0 == old(self).cells(),
                fits(offsets@, row as int, col as int, self.width as int, self.height as int),
                i <= offsets@.len(),
                self.cells().len() == c0.len(),
                forall|y: int| 0 <= y < self.height ==> (#[trigger] self.cells()[y]).len() == c0[y].len(),
                forall|y: int, x: int|
                    0 <= y < self.height && 0 <= x < self.width ==> #[trigger] self.cells()[y][x] == (c0[y][x]
                        || covers(offsets@.take(i as int), row as int, col as int, x, y)),
            decreases offsets@.len() - i,
        {
            let (dx, dy) = offsets[i];
            proof {
                assert(col + offsets@[i as int].0 < self.width);
            }
            let ghost c1 = self.cells();
            self.grid[row + dy][col + dx] = true;
            proof {
                let (ry, cx) = ((row + dy) as int, (col + dx) as int);
                assert(self.cells() =~~= c1.update(ry, c1[ry].update(cx, true)));
                assert forall|y: int, x: int|
                    0 <= y < self.height && 0 <= x < self.width implies #[trigger] self.cells()[y][x] == (c0[y][x]
                        || covers(offsets@.take(i + 1), row as int, col as int, x, y)) by {
                    assert(c1[y][x] == (c0[y][x] || covers(offsets@.take(i as int), row as int, col as int, x, y)));
                    let t = offsets@.take(i + 1);
                    assert(self.cells()[y][x] == (c1[y][x] || (x == cx && y == ry)));
                    if covers(offsets@.take(i as int), row as int, col as int, x, y) {
                        let j = choose|j: int| 0 <= j < i && col + (#[trigger] offsets@.take(i as int)[j]).0 == x
                            && row + offsets@.take(i as int)[j].1 == y;
                        assert(t[j] == offsets@.take(i as int)[j]);
                    }
                    if x == col + dx && y == row + dy {
                        assert(t[i as int] == offsets@[i as int]);
                    }
                    if covers(t, row as int, col as int, x, y) {
                        let j = choose|j: int| 0 <= j < i + 1 && col + (#[trigger] t[j]).0 == x && row + t[j].1 == y;
                        if j < i {
                            assert(offsets@.take(i as int)[j] == t[j]);
                        }
                    }
                }
            }
            i = i + 1;
        }
        proof {
            assert(offsets@.take(offsets@.len() as int) =~= offsets@);
            let st = stamped(c0, offsets@, row as int, col as int);
            assert forall|y: int| 0 <= y < self.height implies #[trigger] self.cells()[y] =~= st[y] by {
                assert forall|x: int| 0 <= x < self.width implies self.cells()[y][x] == st[y][x] by {
                    assert(self.cells()[y][x] == (c0[y][x] || covers(offsets@.take(i as int), row as int, col as int, x, y)));
                }
            }
            assert(self.cells() =~= st);
        }
    }

    /// Kills every cell, then stamps each shape of the seed table at its place.
    pub fn load_multiple_patterns(&mut self)
        requires
            old(self).wf(),
            old(self).spec_width() >= MIN_WIDTH,
            old(self).spec_height() >= MIN_HEIGHT,
        ensures
            final(self).wf(),
            final(self).spec_width() == old(self).spec_width(),
            final(self).spec_height() == old(self).spec_height(),
            final(self).spec_generation() == old(self).spec_generation(),
            final(self).frame() == old(self).frame(),
            final(self).cells() == seeded_cells(old(self).spec_width(), old(self).spec_height()),
    {
        self.clear();
        let table = seed_patterns();
        let mut k: usize = 0;
        while k < table.len()
            invariant
                self.wf(),
                self.width == old(self).width,
                self.height == old(self).height,
                self.generation == old(self).generation,
                self.frame() == old(self).frame(),
                self.width >= MIN_WIDTH,
                self.height >= MIN_HEIGHT,
                table@.len() == seed_table().len(),
                forall|j: int| 0 <= j < table@.len() ==> (#[trigger] table@[j]).view() == seed_table()[j],
                k <= table@.len(),
                self.cells() == seeded_upto(self.width as int, self.height as int, k as int),
            decreases table@.len() - k,
        {
            let p = &table[k];
            proof {
                lemma_seed_table_fits(k as int);
                assert(table@[k as int].view() == seed_table()[k as int]);
            }
            self.stamp(&p.offsets, p.row, p.col);
            k = k + 1;
        }
    }

    /// What `update` guarantees of the state `after` it leaves, starting from `self`.
    pub open spec fn updates_to(&self, after: &Self) -> bool {
        &&& after.wf()
        &&& after.spec_width() == self.spec_width()
        &&& after.spec_height() == self.spec_height()
        &&& after.cells() == next_generation(self.cells(), self.spec_width(), self.spec_height())
        &&& after.frame() == self.frame()
        &&& after.spec_generation() == self.spec_generation() + 1
    }

    /// What `render` guarantees of the state `after` it leaves, starting from `self`.
    pub open spec fn renders_to(&self, after: &Self) -> bool {
        &&& after.wf()
        &&& after.spec_width() == self.spec_width()
        &&& after.spec_height() == self.spec_height()
        &&& after.cells() == self.cells()
        &&& after.spec_generation() == self.spec_generation()
        &&& after.frame() == pixels_of(self.cells(), self.spec_width(), self.spec_height())
    }

    /// The number of completed generations.
    pub fn generation(&self) -> (r: usize)
        ensures
            r == self.spec_generation(),
    {
        self.generation
    }

    /// Whether the cell at (x, y) is alive.
    pub fn is_alive(&self, x: usize, y: usize) -> (r: bool)
        requires
            self.wf(),
            x < self.spec_width(),
            y < self.spec_height(),
        ensures
            r == self.cells()[y as int][x as int],
    {
        self.grid[y][x]
    }

    /// Counts the alive cells among the eight around (x, y), wrapping at every edge.
    pub fn count_neighbors(&self, x: usize, y: usize) -> (r: usize)
        requires
            self.wf(),
            x < self.spec_width(),
            y < self.spec_height(),
        ensures
            r == neighbor_count(self.cells(), self.spec_width(), self.spec_height(), x as int, y as int),
    {
        let w = self.width;
        let h = self.height;
        let left = ring_prev(x, w);
        let right = ring_next(x, w);
        let up = ring_prev(y, h);
        let down = ring_next(y, h);
        let row_up = &self.grid[up];
        let row_mid = &self.grid[y];
        let row_down = &self.grid[down];
        let a0 = row_up[left];
        let a1 = row_up[x];
        let a2 = row_up[right];
        let a3 = row_mid[left];
        let a4 = row_mid[right];
        let a5 = row_down[left];
        let a6 = row_down[x];
        let a7 = row_down[right];
        proof {
            let c = self.cells();
            lemma_wrap(x as int, w as int);
            lemma_wrap(y as int, h as int);
            assert(c[up as int] == row_up@);
            assert(c[y as int] == row_mid@);
            assert(c[down as int] == row_down@);
            reveal(neighbor_count);
        }
        let count: usize = bit_of(a0) + bit_of(a1) + bit_of(a2) + bit_of(a3) + bit_of(a4) + bit_of(a5)
            + bit_of(a6) + bit_of(a7);
        assert(count == bit(a0) + bit(a1) + bit(a2) + bit(a3) + bit(a4) + bit(a5) + bit(a6) + bit(a7));
        count
    }

    /// Advances one generation: every cell is computed from the current grid
    /// into the scratch grid, then the two grids trade places.
    pub fn update(&mut self)
        requires
            old(self).wf(),
            old(self).spec_generation() < usize::MAX,
        ensures
            final(self).wf(),
            final(self).spec_width() == old(self).spec_width(),
            final(self).spec_height() == old(self).spec_height(),
            final(self).cells() == next_generation(
                old(self).cells(),
                old(self).spec_width(),
                old(self).spec_height(),
            ),
            final(self).frame() == old(self).frame(),
            final(self).spec_generation() == old(self).spec_generation() + 1,
            old(self).updates_to(&*final(self)),
    {
        let ghost cur = self.cells();
        let ghost target = next_generation(cur, self.width as int, self.height as int);
        let ghost frame0 = self.frame();
        let ghost gen0 = self.generation;
        let ghost w0 = self.width;
        let ghost h0 = self.height;
        let mut y: usize = 0;
        while y < self.height
            invariant
                self.wf(),
                self.cells() == cur,
                self.frame() == frame0,
                self.generation == gen0,
                self.width == w0,
                self.height == h0,
                target == next_generation(cur, w0 as int, h0 as int),
                y <= self.height,
                forall|yy: int, xx: int|
                    0 <= yy < y && 0 <= xx < self.width ==> self.next@[yy]@[xx] == target[yy][xx],
            decreases self.height - y,
        {
            let mut x: usize = 0;
            while x < self.width
                invariant
                    self.wf(),
                    self.cells() == cur,
                    self.frame() == frame0,
                    self.generation == gen0,
                    self.width == w0,
                    self.height == h0,
                    target == next_generation(cur, w0 as int, h0 as int),
                    y < self.height,
                    x <= self.width,
                    forall|yy: int, xx: int|
                        0 <= yy < y && 0 <= xx < self.width ==> self.next@[yy]@[xx] == target[yy][xx],
                    forall|xx: int| 0 <= xx < x ==> self.next@[y as int]@[xx] == target[y as int][xx],
                decreases self.width - x,
            {
                let neighbors = self.count_neighbors(x, y);
                let alive = self.grid[y][x];
                let born_or_kept = if alive {
                    neighbors == 2 || neighbors == 3
                } else {
                    neighbors == 3
                };
                self.next[y][x] = born_or_kept;
                x = x + 1;
            }
            y = y + 1;
        }
        std::mem::swap(&mut self.grid, &mut self.next);
        self.generation = self.generation + 1;
        proof {
            assert(self.cells() =~~= target);
        }
    }

    /// Draws the live grid into the framebuffer: white for alive, black for dead.
    pub fn render(&mut self)
        requires
            old(self).wf(),
        ensures
            final(self).wf(),
            final(self).spec_width() == old(self).spec_width(),
            final(self).spec_height() == old(self).spec_height(),
            final(self).cells() == old(self).cells(),
            final(self).spec_generation() == old(self).spec_generation(),
            final(self).frame() == pixels_of(
                old(self).cells(),
                old(self).spec_width(),
                old(self).spec_height(),
            ),
            old(self).renders_to(&*final(self)),
    {
        let ghost cur = self.cells();
        let ghost w0 = self.width as int;
        let ghost h0 = self.height as int;
        let ghost target = pixels_of(cur, w0, h0);
        let ghost gen0 = self.generation;
        proof {
            self.framebuffer.lemma_pixels_len();
        }
        let mut y: usize = 0;
        while y < self.height
            invariant
                self.wf(),
                self.cells() == cur,
                self.generation == gen0,
                self.width == w0,
                self.height == h0,
                target == pixels_of(cur, w0, h0),
                self.frame().len() == w0 * h0,
                y <= self.height,
                forall|i: int| 0 <= i < y * w0 ==> self.frame()[i] == target[i],
            decreases self.height - y,
        {
            let mut x: usize = 0;
            while x < self.width
                invariant
                    self.wf(),
                    self.cells() == cur,
                    self.generation == gen0,
                    self.width == w0,
                    self.height == h0,
                    target == pixels_of(cur, w0, h0),
                    self.frame().len() == w0 * h0,
                    y < self.height,
                    x <= self.width,
                    forall|i: int| 0 <= i < y * w0 + x ==> self.frame()[i] == target[i],
                decreases self.width - x,
            {
                let color = if self.grid[y][x] {
                    Color::white()
                } else {
                    Color::black()
                };
                proof {
                    lemma_row_major(y * w0 + x, x as int, y as int, w0);
                    crate::framebuffer::lemma_index_in_bounds(x as int, y as int, w0, h0);
                    assert(cur[y as int] == self.grid@[y as int]@);
                }
                self.framebuffer.point(x, y, color);
                x = x + 1;
            }
            proof {
                assert(y * w0 + w0 == (y + 1) * w0) by (nonlinear_arith);
            }
            y = y + 1;
        }
        proof {
            assert(h0 * w0 == w0 * h0) by (nonlinear_arith);
            assert(self.frame() =~= target);
        }
    }

    /// The current frame as terminal text.
    pub fn display(&self) -> (r: String)
        requires
            self.wf(),
        ensures
            r@ == frame_text(self.frame(), self.spec_width() as nat, self.spec_height() as nat),
    {
        self.framebuffer.display()
    }
}

} // verus!
