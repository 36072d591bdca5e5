//! Depth-bounded max-n search over the game tree.
use vstd::prelude::*;
use crate::env::{dir_of, interior, moved, Direction, Vec2D};
use crate::game::{has_id, head_of, move_ok, next_grid, next_snakes, snake_fits, Game, SnakeView};
use crate::grid::{CellKind, GridView};

verus! {

/// The value of a certain win for the evaluated snake.
pub const WIN: i64 = 1_000_000_000;

/// The value of a certain loss for the evaluated snake.
pub const LOSS: i64 = -1_000_000_000;

/// A scoring strategy: higher is better for the evaluated snake. It must
/// accept any reachable game, also one in which that snake is dead.
pub trait Heuristic {
    /// The score of a position for snake `snake`.
    spec fn score(&self, ss: Seq<SnakeView>, grid: GridView, snake: u8) -> int;

    fn eval(&self, game: &Game, snake: u8) -> (r: i64)
        ensures
            r == self.score(game.snakes_view(), game.grid@, snake),
    ;
}

/// The score of snake `id` from position `i` on: ten per segment (up to a
/// million segments) plus its health, or -1 where no snake from `i` on has that id.
pub open spec fn length_score(ss: Seq<SnakeView>, id: u8, i: int) -> int
    decreases ss.len() - i,
{
    if i < 0 || i >= ss.len() {
        -1
    } else if ss[i].id == id {
        10 * (if ss[i].body.len() > 1_000_000 { 1_000_000 } else { ss[i].body.len() as int }) + ss[i].health
    } else {
        length_score(ss, id, i + 1)
    }
}

/// A heuristic that values length, then health.
#[derive(Clone, Copy, Debug, Default)]
pub struct Standard;

impl Heuristic for Standard {
    open spec fn score(&self, ss: Seq<SnakeView>, grid: GridView, snake: u8) -> int {
        length_score(ss, snake, 0)
    }

    fn eval(&self, game: &Game, snake: u8) -> (r: i64) {
        let n = game.snakes.len();
        let mut i: usize = 0;
        while i < n
            invariant
                i <= n == game.snakes@.len(),
                length_score(game.snakes_view(), snake, 0) == length_score(game.snakes_view(), snake, i as int),
            decreases n - i,
        {
            let s = &game.snakes[i];
            if s.id == snake {
                let len: usize = if s.body.len() > 1_000_000 { 1_000_000 } else { s.body.len() };
                return 10 * (len as i64) + (s.health as i64);
            }
            i += 1;
        }
        -1
    }
}

/// A score moved strictly between a loss and a win.
pub open spec fn clamped(v: int) -> i64 {
    if v <= LOSS {
        (LOSS + 1) as i64
    } else if v >= WIN {
        (WIN - 1) as i64
    } else {
        v as i64
    }
}

/// The value of a leaf for snake `id`: a loss where it is dead, a win where
/// it alone survives, its clamped score otherwise.
pub open spec fn leaf<H: Heuristic>(h: &H, ss: Seq<SnakeView>, grid: GridView, id: u8) -> i64 {
    if !has_id(ss, id) {
        LOSS
    } else if ss.len() == 1 {
        WIN
    } else {
        clamped(h.score(ss, grid, id))
    }
}

pub open spec fn leaf_vec<H: Heuristic>(h: &H, ss: Seq<SnakeView>, grid: GridView) -> Seq<i64> {
    seq![leaf(h, ss, grid, 0), leaf(h, ss, grid, 1), leaf(h, ss, grid, 2), leaf(h, ss, grid, 3)]
}

/// Whether `p` is on the board and not occupied.
pub open spec fn free_cell(grid: GridView, p: Vec2D) -> bool {
    grid.in_bounds(p) && grid.kind_at(p) != CellKind::Occupied
}

/// The value vector of a max-n node. Within a ply the snakes at positions
/// `ply`, `ply + 1`, ... choose in turn (position `skip` has chosen already);
/// once all have chosen, the turn is played and the search goes a level
/// deeper; at depth 0 or with fewer than two snakes the leaf values count.
pub open spec fn search_value<H: Heuristic>(
    h: &H,
    ss: Seq<SnakeView>,
    grid: GridView,
    depth: nat,
    ply: nat,
    moves: Seq<Direction>,
    skip: nat,
) -> Seq<i64>
    decreases depth, 5 - ply, 5nat,
{
    if (ply == 0 && (depth == 0 || ss.len() < 2)) || ss.len() > 4 || ply > 4 {
        leaf_vec(h, ss, grid)
    } else if ply >= ss.len() {
        if depth == 0 {
            leaf_vec(h, ss, grid)
        } else {
            search_value(
                h,
                next_snakes(ss, grid, moves),
                next_grid(ss, grid, moves),
                (depth - 1) as nat,
                0,
                seq![Direction::Up, Direction::Up, Direction::Up, Direction::Up],
                4,
            )
        }
    } else if ply == skip {
        search_value(h, ss, grid, depth, ply + 1, moves, skip)
    } else {
        let c = best_choice(h, ss, grid, depth, ply, moves, skip, 4);
        if c.0 {
            c.1
        } else {
            search_value(h, ss, grid, depth, ply + 1, moves, skip)
        }
    }
}

/// The choice of the snake at position `ply` among its legal directions
/// below `d`: the first whose value vector is largest in its own entry, and
/// whether there was a legal direction at all.
pub open spec fn best_choice<H: Heuristic>(
    h: &H,
    ss: Seq<SnakeView>,
    grid: GridView,
    depth: nat,
    ply: nat,
    moves: Seq<Direction>,
    skip: nat,
    d: nat,
) -> (bool, Seq<i64>)
    decreases depth, 5 - ply, d,
{
    if d == 0 || ply > 4 {
        (false, seq![LOSS, LOSS, LOSS, LOSS])
    } else {
        let prev = best_choice(h, ss, grid, depth, ply, moves, skip, (d - 1) as nat);
        let id = ss[ply as int].id;
        let dir = dir_of(d - 1);
        if free_cell(grid, moved(head_of(ss[ply as int]), dir)) {
            let v = search_value(h, ss, grid, depth, ply + 1, moves.update(id as int, dir), skip);
            if !prev.0 || v[id as int] > prev.1[id as int] {
                (true, v)
            } else {
                prev
            }
        } else {
            prev
        }
    }
}

/// The bounds on a leaf value: a loss where the snake is dead, a win where it
/// alone survives, strictly between the two otherwise.
pub open spec fn leaf_ok(ss: Seq<SnakeView>, id: u8, v: int) -> bool {
    if !has_id(ss, id) {
        v == LOSS
    } else if ss.len() == 1 {
        v == WIN
    } else {
        LOSS < v < WIN
    }
}

/// Every entry lies between a loss and a win.
pub open spec fn bounded(r: Seq<i64>) -> bool {
    forall|i: int| 0 <= i < r.len() ==> LOSS <= #[trigger] r[i] <= WIN
}

/// The value of a leaf for snake `id`: the heuristic, clamped to the open
/// interval between the sentinels, unless the snake is dead or the sole survivor.
fn leaf_value<H: Heuristic>(heuristic: &H, game: &Game, id: u8) -> (r: i64)
    requires
        game.wf(),
    ensures
        r == leaf(heuristic, game.snakes_view(), game.grid@, id),
        leaf_ok(game.snakes_view(), id, r as int),
{
    if !game.snake_is_alive(id) {
        LOSS
    } else if game.snakes.len() == 1 {
        WIN
    } else {
        let v = heuristic.eval(game, id);
        if v <= LOSS {
            LOSS + 1
        } else if v >= WIN {
            WIN - 1
        } else {
            v
        }
    }
}

/// The leaf values of every snake id.
fn leaf_values<H: Heuristic>(heuristic: &H, game: &Game) -> (r: [i64; 4])
    requires
        game.wf(),
    ensures
        r@ == leaf_vec(heuristic, game.snakes_view(), game.grid@),
        forall|i: int| 0 <= i < 4 ==> leaf_ok(game.snakes_view(), i as u8, #[trigger] r@[i] as int),
        bounded(r@),
{
    let r = [
        leaf_value(heuristic, game, 0),
        leaf_value(heuristic, game, 1),
        leaf_value(heuristic, game, 2),
        leaf_value(heuristic, game, 3),
    ];
    assert(forall|i: int| 0 <= i < 4 ==> leaf_ok(game.snakes_view(), i as u8, #[trigger] r@[i] as int));
    assert(r@ =~= leaf_vec(heuristic, game.snakes_view(), game.grid@));
    r
}

/// One ply of max-n: the snakes from position `ply` on choose their moves in
/// turn (the one at position `skip` has chosen already), each maximizing its
/// own entry of the value vector; once all have chosen, the turn is played
/// and the search goes one level deeper.
fn max_n_rec<H: Heuristic>(
    heuristic: &H,
    game: &Game,
    depth: usize,
    ply: usize,
    moves: [Direction; 4],
    skip: usize,
) -> (r: [i64; 4])
    requires
        game.wf(),
        ply <= game.snakes@.len(),
        ply > 0 ==> depth > 0 && game.snakes@.len() >= 2,
        skip < game.snakes@.len() ==> depth > 0 && game.snakes@.len() >= 2,
    ensures
        r@ == search_value(heuristic, game.snakes_view(), game.grid@, depth as nat, ply as nat, moves@, skip as nat),
        bounded(r@),
    decreases depth, 5 - ply,
{
    let n = game.snakes.len();
    if ply == 0 && (depth == 0 || n < 2) {
        leaf_values(heuristic, game)
    } else if ply >= n {
        let mut next = game.copy();
        next.step(moves);
        let ups = [Direction::Up; 4];
        assert(ups@ =~= seq![Direction::Up, Direction::Up, Direction::Up, Direction::Up]);
        max_n_rec(heuristic, &next, depth - 1, 0, ups, 4)
    } else if ply == skip {
        max_n_rec(heuristic, game, depth, ply + 1, moves, skip)
    } else {
        let id = game.snakes[ply].id;
        proof {
            assert(snake_fits(game.snakes_view()[ply as int], game.grid@));
            assert(game.grid.in_bounds(game.snakes@[ply as int].body@[game.snakes@[ply as int].body@.len() - 1]));
        }
        let head = game.snakes[ply].head();
        let mut best = [LOSS; 4];
        let mut found = false;
        assert(best@ =~= seq![LOSS, LOSS, LOSS, LOSS]);
        let mut d: usize = 0;
        while d < 4
            invariant
                game.wf(),
                ply < n == game.snakes@.len(),
                depth > 0 && n >= 2,
                id < 4,
                interior(head),
                d <= 4,
                bounded(best@),
                ply != skip,
                id == game.snakes_view()[ply as int].id,
                head == head_of(game.snakes_view()[ply as int]),
                (found, best@) == best_choice(
                    heuristic,
                    game.snakes_view(),
                    game.grid@,
                    depth as nat,
                    ply as nat,
                    moves@,
                    skip as nat,
                    d as nat,
                ),
            decreases 4 - d,
        {
            let dir = Direction::from_index(d);
            if game.free_at(head.apply(dir)) {
                let mut m = moves;
                m[id as usize] = dir;
                assert(m@ == moves@.update(id as int, dir));
                let v = max_n_rec(heuristic, game, depth, ply + 1, m, skip);
                if !found || v[id as usize] > best[id as usize] {
                    best = v;
                    found = true;
                }
            }
            d += 1;
        }
        if !found {
            best = max_n_rec(heuristic, game, depth, ply + 1, moves, skip);
        }
        best
    }
}

/// The position of snake 0 among the living snakes.
pub open spec fn root_position(ss: Seq<SnakeView>) -> int {
    choose|p: int| 0 <= p < ss.len() && ss[p].id == 0
}

/// The value for snake 0 of playing direction index `d`: a loss where that
/// is not a legal move; else the max-n value of the node where snake 0 has
/// chosen `d`, or the leaf value when there is no ply to search.
pub open spec fn root_value<H: Heuristic>(h: &H, ss: Seq<SnakeView>, grid: GridView, depth: nat, d: int) -> i64 {
    if !move_ok(ss, grid, 0, dir_of(d)) {
        LOSS
    } else if depth > 0 && ss.len() >= 2 {
        search_value(
            h,
            ss,
            grid,
            depth,
            0,
            seq![Direction::Up, Direction::Up, Direction::Up, Direction::Up].update(0, dir_of(d)),
            root_position(ss) as nat,
        )[0]
    } else {
        leaf(h, ss, grid, 0)
    }
}

/// Searches `depth` plies ahead for snake 0 and returns, for each direction
/// index, the value of playing that direction: a loss where the direction is
/// not a legal move (or snake 0 is dead), a value between loss and win otherwise.
pub fn max_n<H: Heuristic>(game: &Game, depth: usize, heuristic: &H) -> (r: [i64; 4])
    requires
        game.wf(),
    ensures
        forall|d: int|
            0 <= d < 4 ==> #[trigger] r@[d] == root_value(heuristic, game.snakes_view(), game.grid@, depth as nat, d),
        forall|d: int|
            0 <= d < 4 && !move_ok(game.snakes_view(), game.grid@, 0, dir_of(d)) ==> #[trigger] r@[d]
                == LOSS,
        bounded(r@),
{
    let n = game.snakes.len();
    let mut p: usize = 0;
    while p < n && game.snakes[p].id != 0
        invariant
            p <= n == game.snakes@.len(),
            forall|j: int| 0 <= j < p ==> #[trigger] game.snakes_view()[j].id != 0,
        decreases n - p,
    {
        p += 1;
    }
    let mut r = [LOSS; 4];
    if p == n {
        proof {
            assert forall|d: int| 0 <= d < 4 implies !move_ok(game.snakes_view(), game.grid@, 0, dir_of(d)) by {
                if move_ok(game.snakes_view(), game.grid@, 0, dir_of(d)) {
                    let j = choose|j: int| 0 <= j < n && #[trigger] game.snakes_view()[j].id == 0 && game.grid.in_bounds(
                        moved(head_of(game.snakes_view()[j]), dir_of(d)),
                    ) && game.grid.kind_at(moved(head_of(game.snakes_view()[j]), dir_of(d))) != CellKind::Occupied;
                }
            }
        }
        return r;
    }
    let ghost sv = game.snakes_view();
    proof {
        let q = root_position(sv);
        assert(sv[p as int].id == 0);
        assert(q == p);
        assert(snake_fits(sv[p as int], game.grid@));
        assert(game.grid.in_bounds(game.snakes@[p as int].body@[game.snakes@[p as int].body@.len() - 1]));
    }
    let head = game.snakes[p].head();
    let mut d: usize = 0;
    while d < 4
        invariant
            game.wf(),
            sv == game.snakes_view(),
            p < n == game.snakes@.len(),
            sv[p as int].id == 0,
            head == head_of(sv[p as int]),
            interior(head),
            d <= 4,
            bounded(r@),
            forall|e: int|
                0 <= e < 4 && !move_ok(sv, game.grid@, 0, dir_of(e)) ==> #[trigger] r@[e] == LOSS,
            root_position(sv) == p,
            forall|e: int|
                0 <= e < d ==> #[trigger] r@[e] == root_value(heuristic, sv, game.grid@, depth as nat, e),
        decreases 4 - d,
    {
        let dir = Direction::from_index(d);
        let t = head.apply(dir);
        if game.free_at(t) && depth > 0 && n >= 2 {
            let mut m = [Direction::Up; 4];
            m[0] = dir;
            assert(m@ =~= seq![Direction::Up, Direction::Up, Direction::Up, Direction::Up].update(0, dir));
            let v = max_n_rec(heuristic, game, depth, 0, m, p);
            r[d] = v[0];
            assert(move_ok(sv, game.grid@, 0, dir_of(d as int)));
        } else if game.free_at(t) {
            let v = leaf_value(heuristic, game, 0);
            r[d] = v;
            assert(move_ok(sv, game.grid@, 0, dir_of(d as int)));
        } else {
            proof {
                if move_ok(sv, game.grid@, 0, dir_of(d as int)) {
                    let j = choose|j: int|
                        0 <= j < sv.len() && #[trigger] sv[j].id == 0 && game.grid@.in_bounds(
                            moved(head_of(sv[j]), dir_of(d as int)),
                        ) && game.grid@.kind_at(moved(head_of(sv[j]), dir_of(d as int))) != CellKind::Occupied;
                    assert(j == p);
                }
            }
        }
        d += 1;
    }
    r
}

} // verus!
