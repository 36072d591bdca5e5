//! The game state and its simultaneous-move transition.
use vstd::prelude::*;
use crate::env::{dir_index, dir_of, interior, moved, Direction, Vec2D, MAX_DIM};
use crate::grid::{Cell, CellKind, Grid, GridView};

verus! {

/// The result of a game, derived from the living snakes.
#[derive(Clone, Copy, Debug, PartialEq, Eq, Structural)]
pub enum Outcome {
    /// Two or more snakes are alive.
    Ongoing,
    /// No snake is alive.
    Draw,
    /// Exactly one snake, with this id, is alive.
    Winner(u8),
}

/// A snake as given by a snapshot: its health and its body, head first.
#[derive(Clone, Debug)]
pub struct SnakeData {
    pub health: u8,
    pub body: Vec<Vec2D>,
}

impl SnakeData {
    pub fn new(health: u8, body: Vec<Vec2D>) -> (r: SnakeData)
        ensures
            r.health == health,
            r.body@ == body@,
    {
        SnakeData { health, body }
    }
}

/// A living snake; its body runs from tail to head.
#[derive(Debug)]
pub struct Snake {
    pub id: u8,
    pub body: Vec<Vec2D>,
    pub health: u8,
}

/// The mathematical value of a snake.
pub struct SnakeView {
    pub id: u8,
    pub body: Seq<Vec2D>,
    pub health: u8,
}

impl View for Snake {
    type V = SnakeView;

    open spec fn view(&self) -> SnakeView {
        SnakeView { id: self.id, body: self.body@, health: self.health }
    }
}

impl Snake {
    pub fn new(id: u8, body: Vec<Vec2D>, health: u8) -> (r: Snake)
        ensures
            r@ == (SnakeView { id, body: body@, health }),
    {
        Snake { id, body, health }
    }

    /// The last body segment.
    pub fn head(&self) -> (r: Vec2D)
        requires
            self.body@.len() >= 1,
        ensures
            r == self.body@.last(),
    {
        self.body[self.body.len() - 1]
    }

    pub fn copy(&self) -> (r: Snake)
        ensures
            r@ == self@,
    {
        let mut body: Vec<Vec2D> = Vec::new();
        let mut i: usize = 0;
        while i < self.body.len()
            invariant
                i <= self.body@.len(),
                body@ == self.body@.subrange(0, i as int),
            decreases self.body@.len() - i,
        {
            body.push(self.body[i]);
            i += 1;
            proof {
                assert(body@ =~= self.body@.subrange(0, i as int));
            }
        }
        proof {
            assert(body@ =~= self.body@);
        }
        Snake { id: self.id, body, health: self.health }
    }
}

/// The authoritative state of one turn: the living snakes and the board.
#[derive(Debug)]
pub struct Game {
    pub snakes: Vec<Snake>,
    pub grid: Grid,
}

/// The id `id` with `0` and `me` exchanged.
pub open spec fn swapped_id(id: u8, me: u8) -> u8 {
    if id == 0 {
        me
    } else if id == me {
        0
    } else {
        id
    }
}

/// The views of a sequence of snakes.
pub open spec fn views(s: Seq<Snake>) -> Seq<SnakeView> {
    s.map_values(|x: Snake| x@)
}

pub open spec fn head_of(s: SnakeView) -> Vec2D {
    s.body.last()
}

pub open spec fn snake_fits(s: SnakeView, grid: GridView) -> bool {
    &&& s.id < 4
    &&& s.body.len() >= 2
    &&& forall|k: int| 0 <= k < s.body.len() ==> grid.in_bounds(#[trigger] s.body[k])
}

/// At most four snakes with distinct ids below four, each at least two
/// segments long and lying on the board.
pub open spec fn snakes_fit(ss: Seq<SnakeView>, grid: GridView) -> bool {
    &&& ss.len() <= 4
    &&& forall|i: int| 0 <= i < ss.len() ==> snake_fits(#[trigger] ss[i], grid)
    &&& forall|i: int, j: int|
        0 <= i < ss.len() && 0 <= j < ss.len() && i != j ==> #[trigger] ss[i].id != #[trigger] ss[j].id
}

/// Whether some snake of `ss` has a segment at `p`.
pub open spec fn in_bodies(ss: Seq<SnakeView>, p: Vec2D) -> bool {
    exists|j: int| 0 <= j < ss.len() && #[trigger] ss[j].body.contains(p)
}

/// Whether a snake with this id is in `ss`.
pub open spec fn has_id(ss: Seq<SnakeView>, id: u8) -> bool {
    exists|j: int| 0 <= j < ss.len() && #[trigger] ss[j].id == id
}

// The transition, stated over the state before it.
/// The body after its tail segment is released.
pub open spec fn rest_of(s: SnakeView) -> Seq<Vec2D> {
    s.body.drop_first()
}

/// Whether releasing the tail moves the tail to another cell.
pub open spec fn tail_moves(s: SnakeView) -> bool {
    s.body[0] != s.body[1]
}

/// Whether one of the first `k` snakes frees `p` when its tail is released.
pub open spec fn freed_before(ss: Seq<SnakeView>, k: int, p: Vec2D) -> bool {
    exists|j: int| 0 <= j < k && tail_moves(ss[j]) && #[trigger] ss[j].body[0] == p
}

/// The kind of `p` once every tail is released.
pub open spec fn released_kind(ss: Seq<SnakeView>, grid: GridView, p: Vec2D) -> CellKind {
    if freed_before(ss, ss.len() as int, p) {
        CellKind::Free
    } else {
        grid.kind_at(p)
    }
}

/// Where the head of `s` goes.
pub open spec fn target(s: SnakeView, moves: Seq<Direction>) -> Vec2D {
    moved(head_of(s), moves[s.id as int])
}

/// Whether snake `i` makes its move: it has health left, and its target is on
/// the board and not occupied once the tails are released.
pub open spec fn can_move(ss: Seq<SnakeView>, grid: GridView, moves: Seq<Direction>, i: int) -> bool {
    let t = target(ss[i], moves);
    &&& ss[i].health > 0
    &&& grid.in_bounds(t)
    &&& released_kind(ss, grid, t) != CellKind::Occupied
}

/// Snake `i` after its move: on food it keeps its released tail twice and
/// gets health 100, else it loses one health.
pub open spec fn advanced(ss: Seq<SnakeView>, grid: GridView, moves: Seq<Direction>, i: int) -> SnakeView {
    let s = ss[i];
    let rest = rest_of(s);
    let t = target(s, moves);
    if released_kind(ss, grid, t) == CellKind::Food {
        SnakeView { id: s.id, body: seq![rest[0]] + rest.push(t), health: 100 }
    } else {
        SnakeView { id: s.id, body: rest.push(t), health: (s.health - 1) as u8 }
    }
}

/// Snake `i` moves and every other moving snake with the same target is shorter.
pub open spec fn survives(ss: Seq<SnakeView>, grid: GridView, moves: Seq<Direction>, i: int) -> bool {
    &&& can_move(ss, grid, moves, i)
    &&& forall|j: int|
        0 <= j < ss.len() && j != i && can_move(ss, grid, moves, j) && #[trigger] target(ss[j], moves)
            == target(ss[i], moves) ==> advanced(ss, grid, moves, j).body.len() < advanced(
            ss,
            grid,
            moves,
            i,
        ).body.len()
}

/// The survivors among the first `k` snakes, after their move, in order.
pub open spec fn survivors(ss: Seq<SnakeView>, grid: GridView, moves: Seq<Direction>, k: int) -> Seq<
    SnakeView,
>
    decreases k,
{
    if k <= 0 {
        seq![]
    } else if survives(ss, grid, moves, k - 1) {
        survivors(ss, grid, moves, k - 1).push(advanced(ss, grid, moves, k - 1))
    } else {
        survivors(ss, grid, moves, k - 1)
    }
}

/// The living snakes after a step.
pub open spec fn next_snakes(ss: Seq<SnakeView>, grid: GridView, moves: Seq<Direction>) -> Seq<SnakeView> {
    survivors(ss, grid, moves, ss.len() as int)
}

/// Whether a moving snake's head goes to `p`.
pub open spec fn claimed(ss: Seq<SnakeView>, grid: GridView, moves: Seq<Direction>, p: Vec2D) -> bool {
    exists|j: int| 0 <= j < ss.len() && can_move(ss, grid, moves, j) && #[trigger] target(ss[j], moves) == p
}

/// The kind of `p` after a step: occupied where a survivor lies, food where
/// food lay and no head went, free elsewhere.
pub open spec fn next_kind(ss: Seq<SnakeView>, grid: GridView, moves: Seq<Direction>, p: Vec2D) -> CellKind {
    if in_bodies(next_snakes(ss, grid, moves), p) {
        CellKind::Occupied
    } else if released_kind(ss, grid, p) == CellKind::Food && !claimed(ss, grid, moves, p) {
        CellKind::Food
    } else {
        CellKind::Free
    }
}

/// The board after a step: kinds as `next_kind` says, hazards unchanged.
pub open spec fn next_grid(ss: Seq<SnakeView>, grid: GridView, moves: Seq<Direction>) -> GridView {
    GridView {
        width: grid.width,
        height: grid.height,
        cells: Seq::new(
            grid.cells.len(),
            |i: int| Cell { kind: next_kind(ss, grid, moves, grid.pos_of(i)), hazard: grid.cells[i].hazard },
        ),
    }
}

/// The outcome of a collection of living snakes.
pub open spec fn outcome_of(ss: Seq<SnakeView>) -> Outcome {
    if ss.len() == 0 {
        Outcome::Draw
    } else if ss.len() == 1 {
        Outcome::Winner(ss[0].id)
    } else {
        Outcome::Ongoing
    }
}

/// Whether snake `id` is alive and its head can move in direction `d`.
pub open spec fn move_ok(ss: Seq<SnakeView>, grid: GridView, id: u8, d: Direction) -> bool {
    exists|i: int|
        0 <= i < ss.len() && #[trigger] ss[i].id == id && grid.in_bounds(moved(head_of(ss[i]), d))
            && grid.kind_at(moved(head_of(ss[i]), d)) != CellKind::Occupied
}

pub open spec fn reversed(s: Seq<Vec2D>) -> Seq<Vec2D> {
    Seq::new(s.len(), |j: int| s[s.len() - 1 - j])
}

/// A snapshot that `Game::new` accepts: the board fits the coordinates, at
/// most four snakes, each at least two segments long, health at most 100,
/// and every point on the board.
pub open spec fn snapshot_ok(width: usize, height: usize, snakes: Seq<SnakeData>, food: Seq<Vec2D>) -> bool {
    &&& width <= MAX_DIM
    &&& height <= MAX_DIM
    &&& snakes.len() <= 4
    &&& forall|i: int| 0 <= i < snakes.len() ==> #[trigger] snakes[i].body@.len() >= 2
    &&& forall|i: int| 0 <= i < snakes.len() ==> #[trigger] snakes[i].health <= 100
    &&& forall|i: int, k: int|
        0 <= i < snakes.len() && 0 <= k < snakes[i].body@.len() ==> on_board(
            width,
            height,
            #[trigger] snakes[i].body@[k],
        )
    &&& forall|k: int| 0 <= k < food.len() ==> on_board(width, height, #[trigger] food[k])
}

pub open spec fn on_board(width: usize, height: usize, p: Vec2D) -> bool {
    0 <= p.x < width && 0 <= p.y < height
}

impl Game {
    pub open spec fn snakes_view(&self) -> Seq<SnakeView> {
        views(self.snakes@)
    }

    pub open spec fn wf(&self) -> bool {
        &&& self.grid.wf()
        &&& snakes_fit(self.snakes_view(), self.grid@)
    }

    /// A cell is occupied exactly where a living snake lies.
    pub open spec fn consistent(&self) -> bool {
        forall|q: Vec2D| #[trigger]
            self.grid.in_bounds(q) ==> (self.grid.kind_at(q) == CellKind::Occupied <==> in_bodies(
                self.snakes_view(),
                q,
            ))
    }
}

/// Removes every tail segment, freeing the old tail cell where the tail moves.
fn release_tails(pending: Vec<Snake>, grid: &mut Grid) -> (r: Vec<Snake>)
    requires
        old(grid).wf(),
        snakes_fit(views(pending@), old(grid)@),
    ensures
        final(grid).wf(),
        final(grid).same_frame(old(grid)),
        r@.len() == pending@.len(),
        forall|i: int|
            0 <= i < r@.len() ==> (#[trigger] r@[i])@ == (SnakeView {
                id: pending@[i].id,
                body: rest_of(pending@[i]@),
                health: pending@[i].health,
            }),
        forall|q: Vec2D| #[trigger]
            final(grid).in_bounds(q) ==> final(grid).kind_at(q) == released_kind(
                views(pending@),
                old(grid)@,
                q,
            ),
{
    let ghost ss = views(pending@);
    let ghost orig = pending@;
    let n = pending.len();
    let mut pending = pending;
    let mut out: Vec<Snake> = Vec::new();
    let mut k: usize = 0;
    while k < n
        invariant
            k <= n == orig.len() == ss.len(),
            ss == views(orig),
            snakes_fit(ss, old(grid)@),
            pending@ == orig.subrange(k as int, n as int),
            out@.len() == k,
            grid.wf(),
            grid.same_frame(old(grid)),
            forall|i: int|
                0 <= i < k ==> (#[trigger] out@[i])@ == (SnakeView {
                    id: orig[i].id,
                    body: rest_of(orig[i]@),
                    health: orig[i].health,
                }),
            forall|q: Vec2D| #[trigger]
                grid.in_bounds(q) ==> grid.kind_at(q) == if freed_before(ss, k as int, q) {
                    CellKind::Free
                } else {
                    old(grid).kind_at(q)
                },
        decreases n - k,
    {
        let mut s = pending.remove(0);
        assert(s == orig[k as int]);
        assert(ss[k as int] == s@);
        assert(snake_fits(ss[k as int], old(grid)@));
        let tail = s.body.remove(0);
        let new_tail = s.body[0];
        let ghost before = *grid;
        if tail != new_tail {
            assert(old(grid).in_bounds(ss[k as int].body[0]));
            grid.set_kind(tail, CellKind::Free);
        }
        proof {
            if tail != new_tail {
                Grid::lemma_same_frame_trans(grid, &before, old(grid));
            }
            assert(s.body@ =~= rest_of(ss[k as int]));
            assert forall|q: Vec2D| #[trigger] grid.in_bounds(q) implies grid.kind_at(q) == if freed_before(
                ss,
                k + 1,
                q,
            ) {
                CellKind::Free
            } else {
                old(grid).kind_at(q)
            } by {
                assert(before.in_bounds(q));
                if tail_moves(ss[k as int]) && ss[k as int].body[0] == q {
                    assert(freed_before(ss, k + 1, q));
                } else if freed_before(ss, k as int, q) {
                    let j = choose|j: int| 0 <= j < k && tail_moves(ss[j]) && #[trigger] ss[j].body[0] == q;
                    assert(0 <= j < k + 1 && tail_moves(ss[j]) && ss[j].body[0] == q);
                } else {
                    assert(!freed_before(ss, k + 1, q));
                }
            }
        }
        out.push(s);
        k += 1;
        proof {
            assert(pending@ =~= orig.subrange(k as int, n as int));
        }
    }
    out
}

/// A moving snake's new head and new length.
type Tentative = Option<(Vec2D, usize)>;

/// Moves every head; reports for each snake its new head and length if it moved.
fn advance_heads(
    released: Vec<Snake>,
    grid: &Grid,
    moves: [Direction; 4],
    Ghost(ss): Ghost<Seq<SnakeView>>,
    Ghost(g0): Ghost<Grid>,
) -> (r: (Vec<Snake>, Vec<Tentative>))
    requires
        grid.wf(),
        grid.same_frame(&g0),
        snakes_fit(ss, g0@),
        released@.len() == ss.len(),
        forall|i: int|
            0 <= i < released@.len() ==> (#[trigger] released@[i])@ == (SnakeView {
                id: ss[i].id,
                body: rest_of(ss[i]),
                health: ss[i].health,
            }),
        forall|q: Vec2D| #[trigger] grid.in_bounds(q) ==> grid.kind_at(q) == released_kind(ss, g0@, q),
    ensures
        r.0@.len() == ss.len(),
        r.1@.len() == ss.len(),
        forall|i: int|
            0 <= i < ss.len() ==> (#[trigger] r.1@[i] is Some) == can_move(ss, g0@, moves@, i),
        forall|i: int|
            0 <= i < ss.len() && can_move(ss, g0@, moves@, i) ==> {
                &&& r.1@[i] == Some((target(ss[i], moves@), r.0@[i].body.len()))
                &&& (#[trigger] r.0@[i])@ == advanced(ss, g0@, moves@, i)
            },
{
    let n = released.len();
    let ghost orig = released@;
    let mut pending = released;
    let mut out: Vec<Snake> = Vec::new();
    let mut tentative: Vec<Tentative> = Vec::new();
    let mut k: usize = 0;
    while k < n
        invariant
            k <= n == orig.len() == ss.len(),
            grid.wf(),
            grid.same_frame(&g0),
            snakes_fit(ss, g0@),
            forall|i: int|
                0 <= i < n ==> (#[trigger] orig[i])@ == (SnakeView {
                    id: ss[i].id,
                    body: rest_of(ss[i]),
                    health: ss[i].health,
                }),
            forall|q: Vec2D| #[trigger] grid.in_bounds(q) ==> grid.kind_at(q) == released_kind(ss, g0@, q),
            pending@ == orig.subrange(k as int, n as int),
            out@.len() == k,
            tentative@.len() == k,
            forall|i: int| 0 <= i < k ==> (#[trigger] tentative@[i] is Some) == can_move(ss, g0@, moves@, i),
            forall|i: int|
                0 <= i < k && can_move(ss, g0@, moves@, i) ==> {
                    &&& tentative@[i] == Some((target(ss[i], moves@), out@[i].body.len()))
                    &&& (#[trigger] out@[i])@ == advanced(ss, g0@, moves@, i)
                },
        decreases n - k,
    {
        let mut s = pending.remove(0);
        let ghost sk = ss[k as int];
        proof {
            assert(s == orig[k as int]);
            assert(snake_fits(sk, g0@));
            assert(s.body@.last() == sk.body.last());
            assert(g0.in_bounds(sk.body[sk.body.len() - 1]));
        }
        let head = s.head();
        let t = head.apply(moves[s.id as usize]);
        assert(t == target(sk, moves@));
        let mut entry: Tentative = None;
        if s.health > 0 && grid.has(t) && grid.get(t).kind != CellKind::Occupied {
            if grid.get(t).kind == CellKind::Food {
                let tail = s.body[0];
                s.body.insert(0, tail);
                s.health = 100;
            } else {
                s.health = s.health - 1;
            }
            s.body.push(t);
            proof {
                let a = advanced(ss, g0@, moves@, k as int);
                if released_kind(ss, g0@, t) == CellKind::Food {
                    assert(s.body@ =~= a.body);
                } else {
                    assert(s.body@ =~= a.body);
                }
            }
            entry = Some((t, s.body.len()));
            assert(s@ == advanced(ss, g0@, moves@, k as int));
        } else {
            assert(!can_move(ss, g0@, moves@, k as int));
        }
        tentative.push(entry);
        out.push(s);
        k += 1;
        proof {
            assert(pending@ =~= orig.subrange(k as int, n as int));
        }
    }
    (out, tentative)
}

/// Snake `i` moved, and every other moving snake with the same new head is shorter.
spec fn beats_all(tent: Seq<Tentative>, i: int) -> bool {
    &&& tent[i] is Some
    &&& forall|j: int|
        0 <= j < tent.len() && j != i && (#[trigger] tent[j]) is Some && tent[j]->Some_0.0
            == tent[i]->Some_0.0 ==> tent[j]->Some_0.1 < tent[i]->Some_0.1
}

/// Settles head-to-head collisions: which moving snakes survive.
fn resolve_collisions(tent: &Vec<Tentative>) -> (alive: Vec<bool>)
    ensures
        alive@.len() == tent@.len(),
        forall|i: int| 0 <= i < tent@.len() ==> #[trigger] alive@[i] == beats_all(tent@, i),
{
    let n = tent.len();
    let mut alive: Vec<bool> = Vec::new();
    let mut i: usize = 0;
    while i < n
        invariant
            i <= n == tent@.len(),
            alive@.len() == i,
            forall|a: int| 0 <= a < i ==> #[trigger] alive@[a] == beats_all(tent@, a),
        decreases n - i,
    {
        let mut ok = false;
        if let Some((head, len)) = tent[i] {
            ok = true;
            let mut j: usize = 0;
            while j < n
                invariant
                    i < n == tent@.len(),
                    j <= n,
                    tent@[i as int] == Some((head, len)),
                    ok == forall|b: int|
                        0 <= b < j && b != i && (#[trigger] tent@[b]) is Some && tent@[b]->Some_0.0
                            == head ==> tent@[b]->Some_0.1 < len,
                decreases n - j,
            {
                if j != i {
                    if let Some((other, other_len)) = tent[j] {
                        if other == head && other_len >= len {
                            ok = false;
                        }
                    }
                }
                j += 1;
            }
        }
        alive.push(ok);
        i += 1;
    }
    alive
}

/// Whether one of the first `k` snakes moves its head to `p`.
spec fn claimed_before(ss: Seq<SnakeView>, grid: GridView, moves: Seq<Direction>, k: int, p: Vec2D) -> bool {
    exists|j: int| 0 <= j < k && can_move(ss, grid, moves, j) && #[trigger] target(ss[j], moves) == p
}

/// The kind of `p` once the occupied cells and every new head cell are freed.
spec fn vacated_kind(ss: Seq<SnakeView>, grid: GridView, moves: Seq<Direction>, k: int, p: Vec2D) -> CellKind {
    if claimed_before(ss, grid, moves, k, p) || released_kind(ss, grid, p) == CellKind::Occupied {
        CellKind::Free
    } else {
        released_kind(ss, grid, p)
    }
}

/// Whether `p` is on a `width` x `height` board.
pub fn point_on_board(width: usize, height: usize, p: Vec2D) -> (r: bool)
    ensures
        r == on_board(width, height, p),
{
    p.x >= 0 && p.y >= 0 && (p.x as usize) < width && (p.y as usize) < height
}

/// Whether every point of `points` is on the board.
fn all_on_board(width: usize, height: usize, points: &[Vec2D]) -> (r: bool)
    ensures
        r == forall|k: int| 0 <= k < points@.len() ==> on_board(width, height, #[trigger] points@[k]),
{
    let mut k: usize = 0;
    while k < points.len()
        invariant
            k <= points@.len(),
            forall|j: int| 0 <= j < k ==> on_board(width, height, #[trigger] points@[j]),
        decreases points@.len() - k,
    {
        if !point_on_board(width, height, points[k]) {
            return false;
        }
        k += 1;
    }
    true
}

/// Checks a snapshot before a game is built from it: a malformed one (a
/// board too large, more than four snakes, a snake shorter than two
/// segments or with health above 100, a point off the board) is rejected.
pub fn snapshot_is_valid(width: usize, height: usize, snakes: &[SnakeData], food: &[Vec2D]) -> (r: bool)
    ensures
        r == snapshot_ok(width, height, snakes@, food@),
{
    if width > MAX_DIM || height > MAX_DIM || snakes.len() > 4 || !all_on_board(width, height, food) {
        return false;
    }
    let mut i: usize = 0;
    while i < snakes.len()
        invariant
            i <= snakes@.len(),
            forall|a: int| 0 <= a < i ==> #[trigger] snakes@[a].body@.len() >= 2,
            forall|a: int| 0 <= a < i ==> #[trigger] snakes@[a].health <= 100,
            forall|a: int, k: int|
                0 <= a < i && 0 <= k < snakes@[a].body@.len() ==> on_board(
                    width,
                    height,
                    #[trigger] snakes@[a].body@[k],
                ),
        decreases snakes@.len() - i,
    {
        let s = &snakes[i];
        if s.body.len() < 2 || s.health > 100 || !all_on_board(width, height, s.body.as_slice()) {
            proof {
                if s.body@.len() >= 2 && s.health <= 100 {
                    let k = choose|k: int| 0 <= k < s.body@.len() && !on_board(width, height, #[trigger] s.body@[k]);
                    assert(!on_board(width, height, snakes@[i as int].body@[k]));
                }
            }
            return false;
        }
        i += 1;
    }
    true
}

fn reverse_body(body: &Vec<Vec2D>) -> (r: Vec<Vec2D>)
    ensures
        r@ == reversed(body@),
{
    let n = body.len();
    let mut r: Vec<Vec2D> = Vec::new();
    while r.len() < n
        invariant
            n == body@.len(),
            r@.len() <= n,
            forall|j: int| 0 <= j < r@.len() ==> #[trigger] r@[j] == body@[n - 1 - j],
        decreases n - r@.len(),
    {
        r.push(body[n - 1 - r.len()]);
    }
    proof {
        assert(r@ =~= reversed(body@));
    }
    r
}

impl Game {
    /// Builds the game of a snapshot: snake `i` gets id `i` and its body
    /// turned tail to head; body cells are occupied, food cells hold food.
    pub fn new(width: usize, height: usize, snakes: &[SnakeData], food: &[Vec2D]) -> (r: Game)
        requires
            snapshot_ok(width, height, snakes@, food@),
        ensures
            r.wf(),
            r.consistent(),
            r.grid.width == width,
            r.grid.height == height,
            r.snakes_view().len() == snakes@.len(),
            forall|i: int|
                0 <= i < snakes@.len() ==> #[trigger] r.snakes_view()[i] == (SnakeView {
                    id: i as u8,
                    body: reversed(snakes@[i].body@),
                    health: snakes@[i].health,
                }),
            forall|q: Vec2D| #[trigger]
                r.grid.in_bounds(q) ==> r.grid.cell_at(q) == (Cell {
                    kind: if in_bodies(r.snakes_view(), q) {
                        CellKind::Occupied
                    } else if food@.contains(q) {
                        CellKind::Food
                    } else {
                        CellKind::Free
                    },
                    hazard: false,
                }),
    {
        let mut grid = Grid::new(width, height);
        let ghost empty = grid;
        proof {
            assert forall|k: int| 0 <= k < food@.len() implies grid.in_bounds(#[trigger] food@[k]) by {
                assert(on_board(width, height, food@[k]));
            }
        }
        grid.add_food(food);
        proof {
            assert forall|q: Vec2D| #[trigger] grid.in_bounds(q) implies grid.cell_at(q) == (Cell {
                kind: if in_bodies(views(Seq::<Snake>::empty()), q) {
                    CellKind::Occupied
                } else if food@.contains(q) {
                    CellKind::Food
                } else {
                    CellKind::Free
                },
                hazard: false,
            }) by {
                assert(empty.in_bounds(q));
            }
        }
        let mut game_snakes: Vec<Snake> = Vec::new();
        assert(game_snakes@ == Seq::<Snake>::empty());
        let n = snakes.len();
        let mut i: usize = 0;
        while i < n
            invariant
                i <= n == snakes@.len(),
                snapshot_ok(width, height, snakes@, food@),
                grid.wf(),
                grid.width == width,
                grid.height == height,
                game_snakes@.len() == i,
                forall|a: int|
                    0 <= a < i ==> #[trigger] views(game_snakes@)[a] == (SnakeView {
                        id: a as u8,
                        body: reversed(snakes@[a].body@),
                        health: snakes@[a].health,
                    }),
                forall|q: Vec2D| #[trigger]
                    grid.in_bounds(q) ==> grid.cell_at(q) == (Cell {
                        kind: if in_bodies(views(game_snakes@), q) {
                            CellKind::Occupied
                        } else if food@.contains(q) {
                            CellKind::Food
                        } else {
                            CellKind::Free
                        },
                        hazard: false,
                    }),
            decreases n - i,
        {
            let ghost before = grid;
            let ghost sv = views(game_snakes@);
            let data = &snakes[i];
            proof {
                assert forall|k: int| 0 <= k < data.body@.len() implies grid.in_bounds(
                    #[trigger] data.body@[k],
                ) by {
                    assert(on_board(width, height, snakes@[i as int].body@[k]));
                }
            }
            grid.add_snake(data.body.as_slice());
            let body = reverse_body(&data.body);
            game_snakes.push(Snake::new(i as u8, body, data.health));
            proof {
                let nv = views(game_snakes@);
                assert(nv =~= sv.push(nv[i as int]));
                assert forall|q: Vec2D| #[trigger] grid.in_bounds(q) implies grid.cell_at(q) == (Cell {
                    kind: if in_bodies(nv, q) {
                        CellKind::Occupied
                    } else if food@.contains(q) {
                        CellKind::Food
                    } else {
                        CellKind::Free
                    },
                    hazard: false,
                }) by {
                    assert(before.in_bounds(q));
                    let rb = reversed(data.body@);
                    if data.body@.contains(q) {
                        let k = choose|k: int| 0 <= k < data.body@.len() && data.body@[k] == q;
                        assert(rb[data.body@.len() - 1 - k] == q);
                        assert(nv[i as int].body.contains(q));
                    } else if in_bodies(sv, q) {
                        let j = choose|j: int| 0 <= j < sv.len() && #[trigger] sv[j].body.contains(q);
                        assert(nv[j].body.contains(q));
                    } else if in_bodies(nv, q) {
                        let j = choose|j: int| 0 <= j < nv.len() && #[trigger] nv[j].body.contains(q);
                        if j < sv.len() {
                            assert(sv[j].body.contains(q));
                        } else {
                            let k = choose|k: int| 0 <= k < rb.len() && rb[k] == q;
                            assert(data.body@[data.body@.len() - 1 - k] == q);
                        }
                    }
                }
            }
            i += 1;
        }
        let r = Game { snakes: game_snakes, grid };
        proof {
            assert forall|a: int| 0 <= a < r.snakes_view().len() implies snake_fits(
                #[trigger] r.snakes_view()[a],
                r.grid@,
            ) by {
                let sd = snakes@[a];
                assert(sd.body@.len() >= 2);
                assert forall|k: int| 0 <= k < sd.body@.len() implies r.grid.in_bounds(
                    #[trigger] reversed(sd.body@)[k],
                ) by {
                    assert(on_board(width, height, sd.body@[sd.body@.len() - 1 - k]));
                }
            }
        }
        r
    }

    /// Draw with no living snake, the survivor's id with one, Ongoing otherwise.
    pub fn outcome(&self) -> (r: Outcome)
        ensures
            r == outcome_of(self.snakes_view()),
    {
        if self.snakes.len() == 0 {
            Outcome::Draw
        } else if self.snakes.len() == 1 {
            Outcome::Winner(self.snakes[0].id)
        } else {
            Outcome::Ongoing
        }
    }

    /// Whether a snake with this id is alive.
    pub fn snake_is_alive(&self, snake: u8) -> (r: bool)
        ensures
            r == has_id(self.snakes_view(), snake),
    {
        let mut i: usize = 0;
        while i < self.snakes.len()
            invariant
                i <= self.snakes@.len(),
                forall|j: int| 0 <= j < i ==> #[trigger] views(self.snakes@)[j].id != snake,
            decreases self.snakes@.len() - i,
        {
            if self.snakes[i].id == snake {
                assert(views(self.snakes@)[i as int].id == snake);
                return true;
            }
            i += 1;
        }
        false
    }

    /// For each direction index, whether snake `snake` is alive and the cell
    /// next to its head in that direction is on the board and not occupied.
    pub fn valid_moves(&self, snake: u8) -> (r: [bool; 4])
        requires
            self.wf(),
        ensures
            forall|d: int| 0 <= d < 4 ==> #[trigger] r@[d] == move_ok(self.snakes_view(), self.grid@, snake, dir_of(d)),
    {
        let mut i: usize = 0;
        while i < self.snakes.len()
            invariant
                self.wf(),
                i <= self.snakes@.len(),
                forall|j: int| 0 <= j < i ==> #[trigger] views(self.snakes@)[j].id != snake,
            decreases self.snakes@.len() - i,
        {
            if self.snakes[i].id == snake {
                let s = &self.snakes[i];
                proof {
                    assert(snake_fits(self.snakes_view()[i as int], self.grid@));
                    assert(self.grid.in_bounds(s.body@[s.body@.len() - 1]));
                }
                let head = s.head();
                let r = [
                    self.free_at(head.apply(Direction::Up)),
                    self.free_at(head.apply(Direction::Right)),
                    self.free_at(head.apply(Direction::Down)),
                    self.free_at(head.apply(Direction::Left)),
                ];
                proof {
                    assert forall|d: int| 0 <= d < 4 implies #[trigger] r@[d] == move_ok(
                        self.snakes_view(),
                        self.grid@,
                        snake,
                        dir_of(d),
                    ) by {
                        let sv = self.snakes_view();
                        if move_ok(sv, self.grid@, snake, dir_of(d)) {
                            let j = choose|j: int|
                                0 <= j < sv.len() && #[trigger] sv[j].id == snake && self.grid.in_bounds(
                                    moved(head_of(sv[j]), dir_of(d)),
                                ) && self.grid.kind_at(moved(head_of(sv[j]), dir_of(d))) != CellKind::Occupied;
                            assert(j == i);
                        }
                        assert(sv[i as int].id == snake);
                    }
                }
                return r;
            }
            i += 1;
        }
        [false, false, false, false]
    }

    /// Whether `p` is on the board and not occupied.
    pub fn free_at(&self, p: Vec2D) -> (r: bool)
        requires
            self.grid.wf(),
        ensures
            r == (self.grid.in_bounds(p) && self.grid.kind_at(p) != CellKind::Occupied),
    {
        self.grid.has(p) && self.grid.get(p).kind != CellKind::Occupied
    }

    /// A copy of the game as snake `me` sees it: ids `0` and `me` exchanged,
    /// since the search plays for snake 0.
    pub fn seen_by(&self, me: u8) -> (r: Game)
        requires
            self.wf(),
            me < 4,
        ensures
            r.wf(),
            r.grid.width == self.grid.width,
            r.grid.height == self.grid.height,
            r.grid.cells@ == self.grid.cells@,
            r.snakes_view().len() == self.snakes_view().len(),
            forall|i: int|
                0 <= i < self.snakes_view().len() ==> #[trigger] r.snakes_view()[i] == (SnakeView {
                    id: swapped_id(self.snakes_view()[i].id, me),
                    ..self.snakes_view()[i]
                }),
    {
        let mut r = self.copy();
        let mut snakes: Vec<Snake> = Vec::new();
        core::mem::swap(&mut r.snakes, &mut snakes);
        let ghost sv = self.snakes_view();
        let mut out: Vec<Snake> = Vec::new();
        let n = snakes.len();
        let mut k: usize = 0;
        while k < n
            invariant
                k <= n == sv.len(),
                snakes@.len() == n - k,
                forall|j: int| 0 <= j < n - k ==> #[trigger] snakes@[j]@ == sv[j + k],
                out@.len() == k,
                forall|i: int|
                    0 <= i < k ==> #[trigger] views(out@)[i] == (SnakeView { id: swapped_id(sv[i].id, me), ..sv[i] }),
            decreases n - k,
        {
            let ghost prev = out@;
            let mut s = snakes.remove(0);
            assert(s@ == sv[k as int]);
            s.id = if s.id == 0 {
                me
            } else if s.id == me {
                0
            } else {
                s.id
            };
            out.push(s);
            proof {
                assert(views(out@) =~= views(prev).push(s@));
            }
            k += 1;
        }
        r.snakes = out;
        proof {
            let rv = r.snakes_view();
            assert forall|i: int| 0 <= i < rv.len() implies snake_fits(#[trigger] rv[i], r.grid@) by {
                assert(snake_fits(sv[i], self.grid@));
            }
            assert forall|i: int, j: int| 0 <= i < rv.len() && 0 <= j < rv.len() && i != j implies #[trigger] rv[i].id
                != #[trigger] rv[j].id by {
                assert(sv[i].id != sv[j].id);
            }
        }
        r
    }

    /// An independent copy of the game.
    pub fn copy(&self) -> (r: Game)
        requires
            self.wf(),
        ensures
            r.snakes_view() == self.snakes_view(),
            r.grid.width == self.grid.width,
            r.grid.height == self.grid.height,
            r.grid.cells@ == self.grid.cells@,
    {
        let mut snakes: Vec<Snake> = Vec::new();
        let mut i: usize = 0;
        while i < self.snakes.len()
            invariant
                i <= self.snakes@.len(),
                views(snakes@) == views(self.snakes@).subrange(0, i as int),
            decreases self.snakes@.len() - i,
        {
            let ghost prev = snakes@;
            let c = self.snakes[i].copy();
            snakes.push(c);
            proof {
                assert(views(snakes@) =~= views(prev).push(c@));
            }
            i += 1;
            proof {
                assert(views(snakes@) =~= views(self.snakes@).subrange(0, i as int));
            }
        }
        proof {
            assert(views(snakes@) =~= views(self.snakes@));
        }
        Game { snakes, grid: self.grid.copy() }
    }

    /// Plays one turn: every living snake moves simultaneously, snake `id`
    /// in direction `moves[id]`. Tails are released first, then heads advance
    /// (eating food, losing health), then head-to-head collisions are settled
    /// and the eliminated snakes removed.
    pub fn step(&mut self, moves: [Direction; 4])
        requires
            old(self).wf(),
        ensures
            final(self).wf(),
            final(self).snakes_view() == next_snakes(old(self).snakes_view(), old(self).grid@, moves@),
            final(self).grid.same_frame(&old(self).grid),
            forall|q: Vec2D| #[trigger]
                final(self).grid.in_bounds(q) ==> final(self).grid.kind_at(q) == next_kind(
                    old(self).snakes_view(),
                    old(self).grid@,
                    moves@,
                    q,
                ),
            final(self).grid@ == next_grid(old(self).snakes_view(), old(self).grid@, moves@),
            final(self).consistent(),
    {
        let ghost ss = self.snakes_view();
        let ghost g0 = self.grid;
        let mut pending: Vec<Snake> = Vec::new();
        core::mem::swap(&mut self.snakes, &mut pending);
        let mut grid = Grid::new(0, 0);
        core::mem::swap(&mut self.grid, &mut grid);
        let mut snakes: Vec<Snake> = Vec::new();
        assert(views(pending@) == ss);
        let released = release_tails(pending, &mut grid);
        let (moved_snakes, tentative) = advance_heads(released, &grid, moves, Ghost(ss), Ghost(g0));
        let alive = resolve_collisions(&tentative);
        let n = moved_snakes.len();
        proof {
            assert forall|i: int| 0 <= i < n implies #[trigger] alive@[i] == survives(ss, g0@, moves@, i) by {
                if can_move(ss, g0@, moves@, i) {
                    if beats_all(tentative@, i) {
                        assert forall|j: int|
                            0 <= j < ss.len() && j != i && can_move(ss, g0@, moves@, j)
                                && #[trigger] target(ss[j], moves@) == target(ss[i], moves@) implies advanced(
                            ss,
                            g0@,
                            moves@,
                            j,
                        ).body.len() < advanced(ss, g0@, moves@, i).body.len() by {
                            assert(tentative@[j] is Some);
                            assert(moved_snakes@[j]@ == advanced(ss, g0@, moves@, j));
                            assert(moved_snakes@[i]@ == advanced(ss, g0@, moves@, i));
                        }
                    } else if survives(ss, g0@, moves@, i) {
                        assert forall|j: int|
                            0 <= j < tentative@.len() && j != i && (#[trigger] tentative@[j]) is Some
                                && tentative@[j]->Some_0.0 == tentative@[i]->Some_0.0 implies tentative@[j]->Some_0.1
                            < tentative@[i]->Some_0.1 by {
                            assert(can_move(ss, g0@, moves@, j));
                            assert(moved_snakes@[j]@ == advanced(ss, g0@, moves@, j));
                            assert(moved_snakes@[i]@ == advanced(ss, g0@, moves@, i));
                            assert(target(ss[j], moves@) == target(ss[i], moves@));
                        }
                    }
                } else {
                    assert(!(tentative@[i] is Some));
                }
            }
        }
        proof {
            assert forall|i: int| 0 <= i < n && can_move(ss, g0@, moves@, i) implies (#[trigger] tentative@[i])->Some_0.0
                == target(ss[i], moves@) by {
                assert(moved_snakes@[i]@ == advanced(ss, g0@, moves@, i));
            }
        }
        let ghost g1 = grid;
        grid.clear_occupied();
        proof {
            Grid::lemma_same_frame_trans(&grid, &g1, &g0);
            assert forall|q: Vec2D| #[trigger] grid.in_bounds(q) implies grid.kind_at(q)
                == vacated_kind(ss, g0@, moves@, 0, q) by {
                assert(g1.in_bounds(q));
            }
        }
        // free the cell of every new head
        let mut k: usize = 0;
        while k < n
            invariant
                k <= n == ss.len() == tentative@.len(),
                grid.wf(),
                grid.same_frame(&g0),
                snakes_fit(ss, g0@),
                forall|i: int|
                    0 <= i < n ==> (#[trigger] tentative@[i] is Some) == can_move(ss, g0@, moves@, i),
                forall|i: int|
                    0 <= i < n && can_move(ss, g0@, moves@, i) ==> (#[trigger] tentative@[i])->Some_0.0
                        == target(ss[i], moves@),
                forall|q: Vec2D| #[trigger]
                    grid.in_bounds(q) ==> grid.kind_at(q) == vacated_kind(ss, g0@, moves@, k as int, q),
            decreases n - k,
        {
            let ghost before = grid;
            if let Some((t, _)) = tentative[k] {
                assert(can_move(ss, g0@, moves@, k as int));
                grid.set_kind(t, CellKind::Free);
                proof {
                    Grid::lemma_same_frame_trans(&grid, &before, &g0);
                }
            }
            proof {
                assert forall|q: Vec2D| #[trigger] grid.in_bounds(q) implies grid.kind_at(q)
                    == vacated_kind(ss, g0@, moves@, k + 1, q) by {
                    assert(before.in_bounds(q));
                    if can_move(ss, g0@, moves@, k as int) && target(ss[k as int], moves@) == q {
                        assert(claimed_before(ss, g0@, moves@, k + 1, q));
                    } else if claimed_before(ss, g0@, moves@, k as int, q) {
                        let j = choose|j: int|
                            0 <= j < k && can_move(ss, g0@, moves@, j) && #[trigger] target(ss[j], moves@) == q;
                        assert(0 <= j < k + 1);
                    } else {
                        assert(!claimed_before(ss, g0@, moves@, k + 1, q));
                    }
                }
            }
            k += 1;
        }
        // commit the survivors
        let ghost g2 = grid;
        let mut pending = moved_snakes;
        let ghost orig = pending@;
        assert(views(snakes@) =~= survivors(ss, g0@, moves@, 0));
        let mut k: usize = 0;
        while k < n
            invariant
                k <= n == ss.len() == orig.len() == alive@.len() == tentative@.len(),
                grid.wf(),
                grid.same_frame(&g0),
                snakes_fit(ss, g0@),
                pending@ == orig.subrange(k as int, n as int),
                forall|i: int| 0 <= i < n ==> #[trigger] alive@[i] == survives(ss, g0@, moves@, i),
                forall|i: int|
                    0 <= i < n && can_move(ss, g0@, moves@, i) ==> (#[trigger] orig[i])@ == advanced(
                        ss,
                        g0@,
                        moves@,
                        i,
                    ),
                views(snakes@) == survivors(ss, g0@, moves@, k as int),
                snakes@.len() <= k,
                snakes_fit(views(snakes@), g0@),
                forall|a: int|
                    0 <= a < snakes@.len() ==> exists|j: int|
                        0 <= j < k && #[trigger] snakes@[a].id == ss[j].id,
                forall|q: Vec2D| #[trigger]
                    grid.in_bounds(q) ==> grid.kind_at(q) == if in_bodies(
                        views(snakes@),
                        q,
                    ) {
                        CellKind::Occupied
                    } else {
                        vacated_kind(ss, g0@, moves@, n as int, q)
                    },
            decreases n - k,
        {
            let s = pending.remove(0);
            assert(s == orig[k as int]);
            if alive[k] {
                let ghost before = grid;
                let ghost sv = views(snakes@);
                let ghost a = advanced(ss, g0@, moves@, k as int);
                proof {
                    assert(s@ == a);
                    assert(snake_fits(ss[k as int], g0@));
                    assert(forall|m: int| 0 <= m < rest_of(ss[k as int]).len() ==> #[trigger] rest_of(ss[k as int])[m] == ss[k as int].body[m + 1]);
                    assert(snake_fits(a, g0@));
                }
                grid.add_snake(s.body.as_slice());
                snakes.push(s);
                proof {
                    Grid::lemma_same_frame_trans(&grid, &before, &g0);
                    assert(views(snakes@) =~= sv.push(a));
                    assert forall|i: int| 0 <= i < views(snakes@).len() implies snake_fits(
                        #[trigger] views(snakes@)[i],
                        g0@,
                    ) by {
                        if i < sv.len() {
                            assert(snake_fits(sv[i], g0@));
                        }
                    }
                    assert forall|a2: int| 0 <= a2 < snakes@.len() implies exists|j: int|
                        0 <= j < k + 1 && #[trigger] snakes@[a2].id == ss[j].id by {
                        if a2 == sv.len() {
                            assert(snakes@[a2].id == ss[k as int].id);
                        }
                    }
                    assert forall|i: int, j: int|
                        0 <= i < views(snakes@).len() && 0 <= j < views(snakes@).len() && i != j
                            implies #[trigger] views(snakes@)[i].id != #[trigger] views(snakes@)[j].id by {
                        if i == sv.len() {
                            let jj = choose|jj: int| 0 <= jj < k && #[trigger] snakes@[j].id == ss[jj].id;
                        } else if j == sv.len() {
                            let ii = choose|ii: int| 0 <= ii < k && #[trigger] snakes@[i].id == ss[ii].id;
                        }
                    }
                    assert forall|q: Vec2D| #[trigger] grid.in_bounds(q) implies grid.kind_at(q)
                        == if in_bodies(views(snakes@), q) {
                        CellKind::Occupied
                    } else {
                        vacated_kind(ss, g0@, moves@, n as int, q)
                    } by {
                        assert(before.in_bounds(q));
                        if a.body.contains(q) {
                            assert(views(snakes@)[sv.len() as int].body.contains(q));
                        } else if in_bodies(sv, q) {
                            let j = choose|j: int| 0 <= j < sv.len() && #[trigger] sv[j].body.contains(q);
                            assert(views(snakes@)[j].body.contains(q));
                        } else {
                            if in_bodies(views(snakes@), q) {
                                let j = choose|j: int|
                                    0 <= j < views(snakes@).len() && #[trigger] views(snakes@)[j].body.contains(q);
                                if j < sv.len() {
                                    assert(sv[j].body.contains(q));
                                }
                            }
                        }
                    }
                }
            }
            k += 1;
            proof {
                assert(pending@ =~= orig.subrange(k as int, n as int));
            }
        }
        proof {
            assert forall|q: Vec2D| #[trigger] grid.in_bounds(q) implies grid.kind_at(q)
                == next_kind(ss, g0@, moves@, q) by {
                assert(claimed_before(ss, g0@, moves@, n as int, q) == claimed(ss, g0@, moves@, q));
            }
        }
        proof {
            let ng = next_grid(ss, g0@, moves@);
            assert forall|i: int| 0 <= i < grid@.cells.len() implies #[trigger] grid@.cells[i] == ng.cells[i] by {
                g0@.lemma_pos_of(i);
                let p = g0@.pos_of(i);
                assert(grid.in_bounds(p));
            }
            assert(grid@.cells =~= ng.cells);
        }
        self.snakes = snakes;
        self.grid = grid;
    }
}

} // verus!

verus! {

/// Every survivor appears, after its move, among the survivors.
pub proof fn lemma_survivor_listed(ss: Seq<SnakeView>, grid: GridView, moves: Seq<Direction>, i: int, k: int)
    requires
        0 <= i < k,
        survives(ss, grid, moves, i),
    ensures
        exists|a: int|
            0 <= a < survivors(ss, grid, moves, k).len() && #[trigger] survivors(ss, grid, moves, k)[a]
                == advanced(ss, grid, moves, i),
    decreases k,
{
    let sk = survivors(ss, grid, moves, k);
    if i == k - 1 {
        assert(sk[sk.len() - 1] == advanced(ss, grid, moves, i));
    } else {
        lemma_survivor_listed(ss, grid, moves, i, k - 1);
        let prev = survivors(ss, grid, moves, k - 1);
        let a = choose|a: int| 0 <= a < prev.len() && #[trigger] prev[a] == advanced(ss, grid, moves, i);
        assert(sk[a] == prev[a]);
    }
}

/// Every survivor comes from a snake that survives, with that snake's id.
pub proof fn lemma_survivor_origin(ss: Seq<SnakeView>, grid: GridView, moves: Seq<Direction>, k: int, a: int)
    requires
        0 <= a < survivors(ss, grid, moves, k).len(),
    ensures
        exists|m: int|
            0 <= m < k && survives(ss, grid, moves, m) && #[trigger] ss[m].id == survivors(
                ss,
                grid,
                moves,
                k,
            )[a].id,
    decreases k,
{
    let sk = survivors(ss, grid, moves, k);
    let prev = survivors(ss, grid, moves, k - 1);
    if k > 0 && survives(ss, grid, moves, k - 1) && a == prev.len() {
        assert(ss[k - 1].id == sk[a].id);
    } else {
        assert(k > 0);
        lemma_survivor_origin(ss, grid, moves, k - 1, a);
        assert(sk[a] == prev[a]);
    }
}

/// After a step a cell is occupied exactly where a living snake lies.
pub proof fn lemma_step_occupancy(ss: Seq<SnakeView>, grid: GridView, moves: Seq<Direction>, q: Vec2D)
    ensures
        (next_kind(ss, grid, moves, q) == CellKind::Occupied) == in_bodies(next_snakes(ss, grid, moves), q),
{
}

/// A surviving snake whose tail stays in place (it has just grown) keeps
/// that cell occupied.
pub proof fn lemma_grown_tail_stays(ss: Seq<SnakeView>, grid: GridView, moves: Seq<Direction>, i: int)
    requires
        snakes_fit(ss, grid),
        0 <= i < ss.len(),
        !tail_moves(ss[i]),
        survives(ss, grid, moves, i),
    ensures
        next_kind(ss, grid, moves, ss[i].body[0]) == CellKind::Occupied,
{
    assert(snake_fits(ss[i], grid));
    let a = advanced(ss, grid, moves, i);
    let p = ss[i].body[0];
    assert(rest_of(ss[i])[0] == p);
    if released_kind(ss, grid, target(ss[i], moves)) == CellKind::Food {
        assert(a.body[0] == p);
    } else {
        assert(a.body[0] == p);
    }
    lemma_survivor_listed(ss, grid, moves, i, ss.len() as int);
    let next = next_snakes(ss, grid, moves);
    let b = choose|b: int| 0 <= b < next.len() && #[trigger] next[b] == a;
    assert(next[b].body.contains(p));
}

/// Two moving snakes with the same target: with equal lengths both die; with
/// different lengths the shorter dies.
pub proof fn lemma_head_to_head(ss: Seq<SnakeView>, grid: GridView, moves: Seq<Direction>, i: int, j: int)
    requires
        0 <= i < ss.len(),
        0 <= j < ss.len(),
        i != j,
        can_move(ss, grid, moves, i),
        can_move(ss, grid, moves, j),
        target(ss[i], moves) == target(ss[j], moves),
    ensures
        advanced(ss, grid, moves, i).body.len() == advanced(ss, grid, moves, j).body.len() ==> !survives(
            ss,
            grid,
            moves,
            i,
        ) && !survives(ss, grid, moves, j),
        advanced(ss, grid, moves, i).body.len() > advanced(ss, grid, moves, j).body.len() ==> !survives(
            ss,
            grid,
            moves,
            j,
        ),
{
}

/// When the longer of two colliding snakes meets no third one, it survives
/// with its head on the contested cell, and the shorter is no longer alive.
pub proof fn lemma_longer_wins(ss: Seq<SnakeView>, grid: GridView, moves: Seq<Direction>, i: int, j: int)
    requires
        snakes_fit(ss, grid),
        0 <= i < ss.len(),
        0 <= j < ss.len(),
        i != j,
        can_move(ss, grid, moves, i),
        can_move(ss, grid, moves, j),
        target(ss[i], moves) == target(ss[j], moves),
        advanced(ss, grid, moves, i).body.len() > advanced(ss, grid, moves, j).body.len(),
        forall|k: int|
            0 <= k < ss.len() && k != i && k != j && can_move(ss, grid, moves, k) ==> #[trigger] target(
                ss[k],
                moves,
            ) != target(ss[i], moves),
    ensures
        survives(ss, grid, moves, i),
        next_kind(ss, grid, moves, target(ss[i], moves)) == CellKind::Occupied,
        !has_id(next_snakes(ss, grid, moves), ss[j].id),
{
    let next = next_snakes(ss, grid, moves);
    let t = target(ss[i], moves);
    lemma_survivor_listed(ss, grid, moves, i, ss.len() as int);
    let b = choose|b: int| 0 <= b < next.len() && #[trigger] next[b] == advanced(ss, grid, moves, i);
    let rest = rest_of(ss[i]);
    if released_kind(ss, grid, t) == CellKind::Food {
        assert(next[b].body[next[b].body.len() - 1] == t);
    } else {
        assert(next[b].body[next[b].body.len() - 1] == t);
    }
    assert(next[b].body.contains(t));
    if has_id(next, ss[j].id) {
        let a = choose|a: int| 0 <= a < next.len() && #[trigger] next[a].id == ss[j].id;
        lemma_survivor_origin(ss, grid, moves, ss.len() as int, a);
        let m = choose|m: int| 0 <= m < ss.len() && survives(ss, grid, moves, m) && #[trigger] ss[m].id == next[a].id;
        assert(m == j);
    }
}

/// No survivor among the first `k` snakes leaves no snake.
pub proof fn lemma_no_survivor(ss: Seq<SnakeView>, grid: GridView, moves: Seq<Direction>, k: int)
    requires
        forall|i: int| 0 <= i < k ==> !#[trigger] survives(ss, grid, moves, i),
    ensures
        survivors(ss, grid, moves, k).len() == 0,
    decreases k,
{
    if k > 0 {
        lemma_no_survivor(ss, grid, moves, k - 1);
    }
}

/// When every snake is eliminated in the same step the game is a draw; when
/// exactly one snake remains it is the winner.
pub proof fn lemma_step_outcome(ss: Seq<SnakeView>, grid: GridView, moves: Seq<Direction>)
    ensures
        (forall|i: int| 0 <= i < ss.len() ==> !#[trigger] survives(ss, grid, moves, i)) ==> outcome_of(
            next_snakes(ss, grid, moves),
        ) == Outcome::Draw,
        next_snakes(ss, grid, moves).len() == 1 ==> outcome_of(next_snakes(ss, grid, moves)) == Outcome::Winner(
            next_snakes(ss, grid, moves)[0].id,
        ),
{
    if forall|i: int| 0 <= i < ss.len() ==> !#[trigger] survives(ss, grid, moves, i) {
        lemma_no_survivor(ss, grid, moves, ss.len() as int);
    }
}

/// A snake with health 1 that reaches food ends with health 100 and one
/// segment more; one that moves elsewhere ends with health 0.
pub proof fn lemma_last_health(ss: Seq<SnakeView>, grid: GridView, moves: Seq<Direction>, i: int)
    requires
        0 <= i < ss.len(),
        ss[i].health == 1,
        ss[i].body.len() >= 2,
    ensures
        released_kind(ss, grid, target(ss[i], moves)) == CellKind::Food ==> advanced(ss, grid, moves, i).health
            == 100 && advanced(ss, grid, moves, i).body.len() == ss[i].body.len() + 1,
        released_kind(ss, grid, target(ss[i], moves)) != CellKind::Food ==> advanced(ss, grid, moves, i).health
            == 0 && advanced(ss, grid, moves, i).body.len() == ss[i].body.len(),
{
}

/// A snake without health is eliminated by the next step, whatever it plays.
pub proof fn lemma_starved_dies(ss: Seq<SnakeView>, grid: GridView, moves: Seq<Direction>, i: int)
    requires
        0 <= i < ss.len(),
        ss[i].health == 0,
    ensures
        !survives(ss, grid, moves, i),
{
}

} // verus!
