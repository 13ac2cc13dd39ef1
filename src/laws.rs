use vstd::prelude::*;
use crate::framebuffer::frame_text;
use crate::life::{
    bit, grid_of, is_grid, lemma_neighbor_count_ring, lemma_wrap, neighbor_count, next_generation,
    GameOfLife,
};

verus! {

/// The corner cell (0, 0) counts as neighbours the cells across both edges:
/// the last column, the last row and the opposite corner.
pub proof fn lemma_corner_neighbors_wrap(cells: Seq<Seq<bool>>, width: int, height: int)
    requires
        width >= 2,
        height >= 2,
        is_grid(cells, width, height),
    ensures
        neighbor_count(cells, width, height, 0, 0) == bit(cells[height - 1][width - 1]) + bit(
            cells[height - 1][0],
        ) + bit(cells[height - 1][1]) + bit(cells[0][width - 1]) + bit(cells[0][1]) + bit(
            cells[1][width - 1],
        ) + bit(cells[1][0]) + bit(cells[1][1]),
        neighbor_count(cells, width, height, width - 1, height - 1) == bit(cells[height - 2][width - 2])
            + bit(cells[height - 2][width - 1]) + bit(cells[height - 2][0]) + bit(
            cells[height - 1][width - 2],
        ) + bit(cells[height - 1][0]) + bit(cells[0][width - 2]) + bit(cells[0][width - 1]) + bit(
            cells[0][0],
        ),
{
    reveal(neighbor_count);
    lemma_wrap(-1, width);
    lemma_wrap(0, width);
    lemma_wrap(1, width);
    lemma_wrap(-1, height);
    lemma_wrap(0, height);
    lemma_wrap(1, height);
    lemma_wrap(width - 2, width);
    lemma_wrap(width - 1, width);
    lemma_wrap(width, width);
    lemma_wrap(height - 2, height);
    lemma_wrap(height - 1, height);
    lemma_wrap(height, height);
}

/// A dead cell with exactly three alive neighbours is born; one with two or
/// four stays dead.
pub proof fn lemma_birth_rule(cells: Seq<Seq<bool>>, width: int, height: int, x: int, y: int)
    requires
        is_grid(cells, width, height),
        0 <= x < width,
        0 <= y < height,
        !cells[y][x],
    ensures
        neighbor_count(cells, width, height, x, y) == 3 ==> next_generation(cells, width, height)[y][x],
        neighbor_count(cells, width, height, x, y) == 2 ==> !next_generation(cells, width, height)[y][x],
        neighbor_count(cells, width, height, x, y) == 4 ==> !next_generation(cells, width, height)[y][x],
{
}

/// A live cell survives exactly when it has two or three alive neighbours.
pub proof fn lemma_survival_rule(cells: Seq<Seq<bool>>, width: int, height: int, x: int, y: int)
    requires
        is_grid(cells, width, height),
        0 <= x < width,
        0 <= y < height,
        cells[y][x],
    ensures
        next_generation(cells, width, height)[y][x] <==> (neighbor_count(cells, width, height, x, y) == 2
            || neighbor_count(cells, width, height, x, y) == 3),
{
}

/// A 2x2 block with every other cell dead, on a grid of at least 4 x 4, is unchanged by a step.
pub proof fn lemma_block_still_life(width: int, height: int, bx: int, by: int)
    requires
        width >= 4,
        height >= 4,
        0 <= bx,
        bx + 1 < width,
        0 <= by,
        by + 1 < height,
    ensures
        ({
            let block = grid_of(width, height, |x: int, y: int| bx <= x <= bx + 1 && by <= y <= by + 1);
            next_generation(block, width, height) == block
        }),
{
    let block = grid_of(width, height, |x: int, y: int| bx <= x <= bx + 1 && by <= y <= by + 1);
    let next = next_generation(block, width, height);
    assert forall|y: int| 0 <= y < height implies #[trigger] next[y] =~= block[y] by {
        assert forall|x: int| 0 <= x < width implies next[y][x] == block[y][x] by {
            lemma_neighbor_count_ring(block, width, height, x, y);
        }
    }
    assert(next =~= block);
}

/// A horizontal line of three cells centred on (cx, cy), every other cell dead.
pub open spec fn blinker_horizontal(width: int, height: int, cx: int, cy: int) -> Seq<Seq<bool>> {
    grid_of(width, height, |x: int, y: int| y == cy && cx - 1 <= x <= cx + 1)
}

/// A vertical line of three cells centred on (cx, cy), every other cell dead.
pub open spec fn blinker_vertical(width: int, height: int, cx: int, cy: int) -> Seq<Seq<bool>> {
    grid_of(width, height, |x: int, y: int| x == cx && cy - 1 <= y <= cy + 1)
}

/// A horizontal blinker with a free cell on each side turns vertical after one step
/// and horizontal again after two: it oscillates with period 2.
pub proof fn lemma_blinker_oscillates(width: int, height: int, cx: int, cy: int)
    requires
        2 <= cx,
        cx + 2 < width,
        2 <= cy,
        cy + 2 < height,
    ensures
        next_generation(blinker_horizontal(width, height, cx, cy), width, height) == blinker_vertical(
            width,
            height,
            cx,
            cy,
        ),
        next_generation(blinker_vertical(width, height, cx, cy), width, height) == blinker_horizontal(
            width,
            height,
            cx,
            cy,
        ),
        next_generation(
            next_generation(blinker_horizontal(width, height, cx, cy), width, height),
            width,
            height,
        ) == blinker_horizontal(width, height, cx, cy),
{
    let hor = blinker_horizontal(width, height, cx, cy);
    let ver = blinker_vertical(width, height, cx, cy);
    let next_h = next_generation(hor, width, height);
    let next_v = next_generation(ver, width, height);
    assert forall|y: int| 0 <= y < height implies #[trigger] next_h[y] =~= ver[y] by {
        assert forall|x: int| 0 <= x < width implies next_h[y][x] == ver[y][x] by {
            lemma_neighbor_count_ring(hor, width, height, x, y);
        }
    }
    assert(next_h =~= ver);
    assert forall|y: int| 0 <= y < height implies #[trigger] next_v[y] =~= hor[y] by {
        assert forall|x: int| 0 <= x < width implies next_v[y][x] == hor[y][x] by {
            lemma_neighbor_count_ring(ver, width, height, x, y);
        }
    }
    assert(next_v =~= hor);
}

/// Rendering twice with no update in between leaves the same frame, so the
/// two displays write the same text.
pub proof fn lemma_render_twice_same_display(start: GameOfLife, once: GameOfLife, twice: GameOfLife)
    requires
        start.renders_to(&once),
        once.renders_to(&twice),
    ensures
        twice.frame() == once.frame(),
        frame_text(twice.frame(), twice.spec_width() as nat, twice.spec_height() as nat) == frame_text(
            once.frame(),
            once.spec_width() as nat,
            once.spec_height() as nat,
        ),
{
}

/// Along a run of updates, the generation counter grows by one per update.
pub proof fn lemma_generation_counts_updates(run: Seq<GameOfLife>)
    requires
        run.len() >= 1,
        forall|i: int| 0 <= i < run.len() - 1 ==> (#[trigger] run[i]).updates_to(&run[i + 1]),
    ensures
        run.last().spec_generation() == run[0].spec_generation() + run.len() - 1,
    decreases run.len(),
{
    if run.len() > 1 {
        let prefix = run.drop_last();
        assert forall|i: int| 0 <= i < prefix.len() - 1 implies (#[trigger] prefix[i]).updates_to(&prefix[i + 1]) by {
            assert(run[i].updates_to(&run[i + 1]));
        }
        lemma_generation_counts_updates(prefix);
        assert(run[run.len() - 2].updates_to(&run[run.len() - 1]));
    }
}

} // verus!
