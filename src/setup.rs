//! Initial placement of a simulated game.
use vstd::prelude::*;
use crate::env::{Vec2D, MAX_DIM};
use crate::game::Game;
use crate::grid::{Cell, CellKind, Grid};

verus! {

/// The four start cells: the cells diagonal to the corners, or the middles
/// of the edges one cell in.
pub open spec fn start_cells(width: int, height: int, corners: bool) -> Seq<(int, int)> {
    if corners {
        seq![(1, 1), (width - 2, 1), (width - 2, height - 2), (1, height - 2)]
    } else {
        seq![(width / 2, 1), (width - 2, height / 2), (width / 2, height - 2), (1, height / 2)]
    }
}

/// The start cells of a `width` x `height` board, in corners or on edges.
pub fn start_positions(width: usize, height: usize, corners: bool) -> (r: [Vec2D; 4])
    requires
        2 <= width <= MAX_DIM,
        2 <= height <= MAX_DIM,
    ensures
        forall|i: int|
            0 <= i < 4 ==> (#[trigger] r@[i]).x == start_cells(width as int, height as int, corners)[i].0
                && r@[i].y == start_cells(width as int, height as int, corners)[i].1,
{
    let w = width as i16;
    let h = height as i16;
    if corners {
        [Vec2D::new(1, 1), Vec2D::new(w - 2, 1), Vec2D::new(w - 2, h - 2), Vec2D::new(1, h - 2)]
    } else {
        [Vec2D::new(w / 2, 1), Vec2D::new(w - 2, h / 2), Vec2D::new(w / 2, h - 2), Vec2D::new(1, h / 2)]
    }
}

/// Whether `p` lies on the border of the board but not in a corner.
pub open spec fn on_edge(width: int, height: int, p: Vec2D) -> bool {
    (p.x == 0 || p.x == width - 1) != (p.y == 0 || p.y == height - 1)
}

/// Whether `p` is one of the four cells diagonal to `head`.
pub open spec fn diagonal(head: Vec2D, p: Vec2D) -> bool {
    (p.x == head.x - 1 || p.x == head.x + 1) && (p.y == head.y - 1 || p.y == head.y + 1)
}

/// The cells where the first food of a snake with head `head` may go: a
/// diagonal neighbour on the board, not occupied, on an edge but not in a
/// corner.
pub fn food_candidates(game: &Game, head: Vec2D) -> (r: Vec<Vec2D>)
    requires
        game.wf(),
        game.grid.in_bounds(head),
    ensures
        forall|p: Vec2D|
            #[trigger] r@.contains(p) <==> (diagonal(head, p) && game.grid.in_bounds(p) && game.grid.kind_at(p)
                != CellKind::Occupied && on_edge(game.grid.width as int, game.grid.height as int, p)),
{
    let offsets: [(i16, i16); 4] = [(-1, -1), (-1, 1), (1, 1), (1, -1)];
    let mut r: Vec<Vec2D> = Vec::new();
    let w = game.grid.width;
    let h = game.grid.height;
    let mut i: usize = 0;
    while i < 4
        invariant
            game.wf(),
            game.grid.in_bounds(head),
            w == game.grid.width,
            h == game.grid.height,
            i <= 4,
            offsets@ == seq![(-1i16, -1i16), (-1i16, 1i16), (1i16, 1i16), (1i16, -1i16)],
            forall|p: Vec2D|
                #[trigger] r@.contains(p) <==> (exists|j: int|
                    0 <= j < i && p.x == head.x + offsets@[j].0 && p.y == head.y + offsets@[j].1)
                    && game.grid.in_bounds(p) && game.grid.kind_at(p) != CellKind::Occupied && on_edge(
                    w as int,
                    h as int,
                    p,
                ),
        decreases 4 - i,
    {
        let (dx, dy) = offsets[i];
        let p = Vec2D::new(head.x + dx, head.y + dy);
        let ghost prev = r@;
        if game.free_at(p) {
            let px = p.x as usize;
            let py = p.y as usize;
            if (px == 0 || px == w - 1) != (py == 0 || py == h - 1) {
                r.push(p);
            }
        }
        proof {
            assert forall|q: Vec2D| #[trigger] r@.contains(q) <==> (exists|j: int|
                0 <= j < i + 1 && q.x == head.x + offsets@[j].0 && q.y == head.y + offsets@[j].1)
                && game.grid.in_bounds(q) && game.grid.kind_at(q) != CellKind::Occupied && on_edge(
                w as int,
                h as int,
                q,
            ) by {
                if r@.contains(q) && !prev.contains(q) {
                    assert(r@ == prev.push(p));
                    let a = choose|a: int| 0 <= a < r@.len() && r@[a] == q;
                    assert(q == p);
                }
                if prev.contains(q) {
                    let a = choose|a: int| 0 <= a < prev.len() && prev[a] == q;
                    assert(r@[a] == q);
                }
                if q == p && game.grid.in_bounds(q) && game.grid.kind_at(q) != CellKind::Occupied && on_edge(
                    w as int,
                    h as int,
                    q,
                ) {
                    assert(r@[r@.len() - 1] == p);
                }
            }
        }
        i += 1;
    }
    proof {
        assert forall|p: Vec2D| diagonal(head, p) implies exists|j: int|
            0 <= j < 4 && p.x == head.x + offsets@[j].0 && p.y == head.y + offsets@[j].1 by {
            if p.x == head.x - 1 && p.y == head.y - 1 {
                assert(p.x == head.x + offsets@[0].0 && p.y == head.y + offsets@[0].1);
            } else if p.x == head.x - 1 {
                assert(p.x == head.x + offsets@[1].0 && p.y == head.y + offsets@[1].1);
            } else if p.y == head.y + 1 {
                assert(p.x == head.x + offsets@[2].0 && p.y == head.y + offsets@[2].1);
            } else {
                assert(p.x == head.x + offsets@[3].0 && p.y == head.y + offsets@[3].1);
            }
        }
    }
    r
}

/// Whether the hazard can grow: rows and columns are left outside it.
/// `insets` counts the hazard lines from the bottom, left, top and right.
pub fn hazard_can_grow(width: usize, height: usize, insets: &[usize; 4]) -> (r: bool)
    ensures
        r == (insets@[0] + insets@[2] < height && insets@[1] + insets@[3] < width),
{
    insets[0] < height && insets[2] < height - insets[0] && insets[1] < width && insets[3] < width
        - insets[1]
}

/// The line that grows the hazard on `side` with the given insets: the row
/// `y == insets[0]` (bottom), the column `x == insets[1]` (left), the row
/// `y == height - 1 - insets[2]` (top) or the column `x == width - 1 - insets[3]` (right).
pub open spec fn on_hazard_line(width: int, height: int, insets: Seq<usize>, side: int, q: Vec2D) -> bool {
    if side == 0 {
        q.y == insets[0]
    } else if side == 1 {
        q.x == insets[1]
    } else if side == 2 {
        q.y == height - 1 - insets[2]
    } else {
        q.x == width - 1 - insets[3]
    }
}

/// Grows the hazard by one line on `side` (0 bottom, 1 left, 2 top, 3 right).
pub fn grow_hazard(grid: &mut Grid, insets: &mut [usize; 4], side: usize)
    requires
        old(grid).wf(),
        side < 4,
        old(insets)@[0] + old(insets)@[2] < old(grid).height,
        old(insets)@[1] + old(insets)@[3] < old(grid).width,
    ensures
        final(grid).wf(),
        final(grid).width == old(grid).width,
        final(grid).height == old(grid).height,
        final(insets)@ == old(insets)@.update(side as int, (old(insets)@[side as int] + 1) as usize),
        forall|q: Vec2D| #[trigger]
            final(grid).in_bounds(q) ==> final(grid).cell_at(q) == (Cell {
                hazard: old(grid).cell_at(q).hazard || on_hazard_line(
                    old(grid).width as int,
                    old(grid).height as int,
                    old(insets)@,
                    side as int,
                    q,
                ),
                ..old(grid).cell_at(q)
            }),
{
    let w = grid.width;
    let h = grid.height;
    let row = side % 2 == 0;
    let fixed: usize = if side == 0 {
        insets[0]
    } else if side == 1 {
        insets[1]
    } else if side == 2 {
        h - 1 - insets[2]
    } else {
        w - 1 - insets[3]
    };
    let n: usize = if row { w } else { h };
    let ghost ins = insets@;
    let mut k: usize = 0;
    while k < n
        invariant
            grid.wf(),
            grid.width == w == old(grid).width,
            grid.height == h == old(grid).height,
            side < 4,
            ins == old(insets)@,
            row == (side % 2 == 0),
            n == if row { w } else { h },
            row ==> fixed < h,
            !row ==> fixed < w,
            fixed == if side == 0 {
                ins[0] as int
            } else if side == 1 {
                ins[1] as int
            } else if side == 2 {
                h - 1 - ins[2]
            } else {
                w - 1 - ins[3]
            },
            k <= n,
            forall|q: Vec2D| #[trigger]
                grid.in_bounds(q) ==> grid.cell_at(q) == (Cell {
                    hazard: old(grid).cell_at(q).hazard || (on_hazard_line(w as int, h as int, ins, side as int, q)
                        && (if row { q.x < k } else { q.y < k })),
                    ..old(grid).cell_at(q)
                }),
        decreases n - k,
    {
        let p = if row {
            Vec2D::new(k as i16, fixed as i16)
        } else {
            Vec2D::new(fixed as i16, k as i16)
        };
        let ghost before = *grid;
        grid.set_hazard(p, true);
        proof {
            assert forall|q: Vec2D| #[trigger] grid.in_bounds(q) implies grid.cell_at(q) == (Cell {
                hazard: old(grid).cell_at(q).hazard || (on_hazard_line(w as int, h as int, ins, side as int, q)
                    && (if row { q.x < k + 1 } else { q.y < k + 1 })),
                ..old(grid).cell_at(q)
            }) by {
                assert(before.in_bounds(q));
            }
        }
        k += 1;
    }
    insets[side] = insets[side] + 1;
}

} // verus!
