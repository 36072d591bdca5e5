//! Turn decisions: picking a move from search values, the fallback policy,
//! the iterative-deepening schedule, and a uniformly random agent.
use vstd::prelude::*;
use crate::env::{dir_index, dir_of, Direction};
use crate::game::{move_ok, Game, SnakeView};
use crate::grid::GridView;
use crate::search::{bounded, max_n, root_value, Heuristic, LOSS, WIN};
use rand::seq::IteratorRandom;

verus! {

/// Remaining milliseconds at or below which a single depth-one search is run.
pub const FAST_TIMEOUT: u64 = 150;

/// The depth bound of iterative deepening (exclusive).
pub const MAX_DEPTH: usize = 8;

/// Whether direction index `r` holds the first largest of `values`.
pub open spec fn is_first_max(values: Seq<i64>, r: int) -> bool {
    &&& 0 <= r < values.len()
    &&& forall|i: int| 0 <= i < values.len() ==> #[trigger] values[i] <= values[r]
    &&& forall|i: int| 0 <= i < r ==> #[trigger] values[i] < values[r]
}

/// The values of the four directions of snake 0 at depth `depth`.
pub open spec fn root_values<H: Heuristic>(h: &H, ss: Seq<SnakeView>, grid: GridView, depth: nat) -> Seq<i64> {
    seq![
        root_value(h, ss, grid, depth, 0),
        root_value(h, ss, grid, depth, 1),
        root_value(h, ss, grid, depth, 2),
        root_value(h, ss, grid, depth, 3),
    ]
}

/// Whether snake 0 has some legal move.
pub open spec fn has_legal(ss: Seq<SnakeView>, grid: GridView) -> bool {
    exists|d: int| 0 <= d < 4 && move_ok(ss, grid, 0, #[trigger] dir_of(d))
}

/// Whether `d` is the one legal move of snake 0.
pub open spec fn only_legal(ss: Seq<SnakeView>, grid: GridView, d: Direction) -> bool {
    forall|e: Direction| #[trigger] move_ok(ss, grid, 0, e) <==> e == d
}

/// The first legal move of snake 0 in index order, or `Up` if there is none.
pub open spec fn first_legal(ss: Seq<SnakeView>, grid: GridView) -> Direction {
    if move_ok(ss, grid, 0, Direction::Up) {
        Direction::Up
    } else if move_ok(ss, grid, 0, Direction::Right) {
        Direction::Right
    } else if move_ok(ss, grid, 0, Direction::Down) {
        Direction::Down
    } else if move_ok(ss, grid, 0, Direction::Left) {
        Direction::Left
    } else {
        Direction::Up
    }
}

/// The index of the first largest of four values.
pub open spec fn first_max(values: Seq<i64>) -> int {
    choose|b: int| is_first_max(values, b)
}

/// The move for search values: the direction of the first largest value if
/// it beats a certain loss, else the first legal move (or `Up`).
pub open spec fn choice_of(values: Seq<i64>, ss: Seq<SnakeView>, grid: GridView) -> Direction {
    if values[first_max(values)] > LOSS {
        dir_of(first_max(values))
    } else {
        first_legal(ss, grid)
    }
}

/// The index of the first largest value.
pub fn argmax(values: &[i64; 4]) -> (r: usize)
    ensures
        is_first_max(values@, r as int),
{
    let mut best: usize = 0;
    let mut i: usize = 1;
    while i < 4
        invariant
            1 <= i <= 4,
            best < i,
            forall|j: int| 0 <= j < i ==> #[trigger] values@[j] <= values@[best as int],
            forall|j: int| 0 <= j < best ==> #[trigger] values@[j] < values@[best as int],
        decreases 4 - i,
    {
        if values[i] > values[best] {
            best = i;
        }
        i += 1;
    }
    best
}

/// The first legal move of snake 0, or `Up` when it has none.
pub fn fallback_move(game: &Game) -> (r: Direction)
    requires
        game.wf(),
    ensures
        r == first_legal(game.snakes_view(), game.grid@),
{
    let valid = game.valid_moves(0);
    assert(dir_of(0) == Direction::Up && dir_of(1) == Direction::Right && dir_of(2) == Direction::Down
        && dir_of(3) == Direction::Left);
    if valid[0] {
        Direction::Up
    } else if valid[1] {
        Direction::Right
    } else if valid[2] {
        Direction::Down
    } else if valid[3] {
        Direction::Left
    } else {
        Direction::Up
    }
}

/// The move for search values: the direction of the first largest value if
/// it beats a certain loss, else the fallback move.
pub fn choose_move(values: &[i64; 4], game: &Game) -> (r: Direction)
    requires
        game.wf(),
    ensures
        r == choice_of(values@, game.snakes_view(), game.grid@),
        is_first_max(values@, first_max(values@)),
{
    let d = argmax(values);
    proof {
        lemma_first_max_unique(values@, d as int);
    }
    if values[d] > LOSS {
        Direction::from_index(d)
    } else {
        fallback_move(game)
    }
}

proof fn lemma_first_max_exists(values: Seq<i64>)
    requires
        values.len() == 4,
    ensures
        is_first_max(values, first_max(values)),
{
    let b: int = if values[0] >= values[1] && values[0] >= values[2] && values[0] >= values[3] {
        0
    } else if values[1] >= values[2] && values[1] >= values[3] {
        1
    } else if values[2] >= values[3] {
        2
    } else {
        3
    };
    assert(is_first_max(values, b));
}

proof fn lemma_first_max_unique(values: Seq<i64>, r: int)
    requires
        is_first_max(values, r),
    ensures
        (choose|b: int| is_first_max(values, b)) == r,
{
    let b = choose|b: int| is_first_max(values, b);
    if b < r {
        assert(values[b] < values[r]);
    } else if r < b {
        assert(values[r] < values[b]);
    }
}

/// With the values of `max_n`, the chosen move is legal whenever some move is.
pub proof fn lemma_choice_is_legal(values: Seq<i64>, ss: Seq<SnakeView>, grid: GridView, r: Direction)
    requires
        values.len() == 4,
        forall|d: int| 0 <= d < 4 && !move_ok(ss, grid, 0, dir_of(d)) ==> #[trigger] values[d] == LOSS,
        is_first_max(values, first_max(values)),
        r == choice_of(values, ss, grid),
        has_legal(ss, grid),
    ensures
        move_ok(ss, grid, 0, r),
{
    let best = first_max(values);
    let d = choose|d: int| 0 <= d < 4 && move_ok(ss, grid, 0, #[trigger] dir_of(d));
    if values[best] <= LOSS {
        if !move_ok(ss, grid, 0, Direction::Up) && !move_ok(ss, grid, 0, Direction::Right)
            && !move_ok(ss, grid, 0, Direction::Down) {
            assert(d == 3);
        }
    }
}

/// The quick decision: one ply of max-n, then `choose_move`. Where snake 0
/// has a legal move the result is legal; where it has exactly one, the
/// result is that one.
pub fn step_fast<H: Heuristic>(heuristic: &H, game: &Game) -> (r: Direction)
    requires
        game.wf(),
    ensures
        r == choice_of(root_values(heuristic, game.snakes_view(), game.grid@, 1), game.snakes_view(), game.grid@),
        has_legal(game.snakes_view(), game.grid@) ==> move_ok(game.snakes_view(), game.grid@, 0, r),
        forall|d: Direction| #[trigger] only_legal(game.snakes_view(), game.grid@, d) ==> r == d,
{
    let values = max_n(game, 1, heuristic);
    let r = choose_move(&values, game);
    proof {
        assert(values@ =~= root_values(heuristic, game.snakes_view(), game.grid@, 1));
        let ss = game.snakes_view();
        if has_legal(ss, game.grid@) {
            lemma_choice_is_legal(values@, ss, game.grid@, r);
        }
        assert forall|d: Direction| #[trigger] only_legal(ss, game.grid@, d) implies r == d by {
            assert(move_ok(ss, game.grid@, 0, d));
            assert(move_ok(ss, game.grid@, 0, dir_of(dir_index(d))));
            lemma_choice_is_legal(values@, ss, game.grid@, r);
        }
    }
    r
}

/// Searches `depth` plies and returns the direction of the first largest
/// value with that value; a value above a certain loss comes with a legal move.
pub fn tree_search<H: Heuristic>(heuristic: &H, game: &Game, depth: usize) -> (r: (Direction, i64))
    requires
        game.wf(),
    ensures
        ({
            let values = root_values(heuristic, game.snakes_view(), game.grid@, depth as nat);
            r == (dir_of(first_max(values)), values[first_max(values)])
        }),
        LOSS <= r.1 <= WIN,
        r.1 > LOSS ==> move_ok(game.snakes_view(), game.grid@, 0, r.0),
        has_legal(game.snakes_view(), game.grid@) || r.1 == LOSS,
{
    let values = max_n(game, depth, heuristic);
    let d = argmax(&values);
    proof {
        assert(values@ =~= root_values(heuristic, game.snakes_view(), game.grid@, depth as nat));
        lemma_first_max_unique(values@, d as int);
        let ss = game.snakes_view();
        if !has_legal(ss, game.grid@) {
            assert forall|e: int| 0 <= e < 4 implies #[trigger] values@[e] == LOSS by {
                if move_ok(ss, game.grid@, 0, dir_of(e)) {
                    assert(has_legal(ss, game.grid@));
                }
            }
        }
        assert(bounded(values@));
        assert(LOSS <= values@[d as int] <= WIN);
    }
    (Direction::from_index(d), values[d])
}

/// Whether the time left after the latency is too short for deepening.
pub fn use_fast_path(timeout: u64, latency: u64) -> (r: bool)
    ensures
        r == (if timeout >= latency { timeout - latency } else { 0 } <= FAST_TIMEOUT),
{
    timeout.saturating_sub(latency) <= FAST_TIMEOUT
}

/// What iterative deepening does once a depth is complete.
#[derive(Clone, Copy, Debug, PartialEq, Eq, Structural)]
pub enum DepthAction {
    /// A certain loss: publish nothing and stop, so the fallback decides.
    Abandon,
    /// Publish the direction and search one level deeper.
    Deepen,
    /// Publish the direction and stop: a certain win, or the last depth.
    Stop,
}

pub open spec fn depth_action(depth: usize, value: i64) -> DepthAction {
    if value <= LOSS {
        DepthAction::Abandon
    } else if value >= WIN || depth + 1 >= MAX_DEPTH {
        DepthAction::Stop
    } else {
        DepthAction::Deepen
    }
}

pub fn after_depth(depth: usize, value: i64) -> (r: DepthAction)
    requires
        depth < MAX_DEPTH,
    ensures
        r == depth_action(depth, value),
{
    if value <= LOSS {
        DepthAction::Abandon
    } else if value >= WIN || depth + 1 >= MAX_DEPTH {
        DepthAction::Stop
    } else {
        DepthAction::Deepen
    }
}

/// The state of iterative deepening as seen by its consumer: the next depth
/// to search, the direction of the deepest completed and published depth,
/// and whether the search is over.
#[derive(Clone, Copy, Debug)]
pub struct Deepening {
    pub depth: usize,
    pub best: Option<Direction>,
    pub best_depth: usize,
    pub finished: bool,
}

impl Deepening {
    pub open spec fn wf(&self) -> bool {
        &&& 1 <= self.depth <= MAX_DEPTH
        &&& self.best is None ==> self.best_depth == 0
        &&& self.best is Some ==> 1 <= self.best_depth < self.depth || (self.finished && self.best_depth
            == self.depth)
        &&& !self.finished ==> self.depth < MAX_DEPTH
    }

    pub fn new() -> (r: Deepening)
        ensures
            r.wf(),
            r.depth == 1,
            r.best is None,
            !r.finished,
    {
        Deepening { depth: 1, best: None, best_depth: 0, finished: false }
    }

    /// Takes the result of the depth just searched. A published result
    /// replaces the previous one; nothing else changes the answer.
    pub fn record(&mut self, dir: Direction, value: i64)
        requires
            old(self).wf(),
            !old(self).finished,
        ensures
            final(self).wf(),
            match depth_action(old(self).depth, value) {
                DepthAction::Abandon => final(self).best == old(self).best && final(self).best_depth
                    == old(self).best_depth && final(self).finished && final(self).depth == old(
                    self,
                ).depth,
                DepthAction::Deepen => final(self).best == Some(dir) && final(self).best_depth == old(
                    self,
                ).depth && !final(self).finished && final(self).depth == old(self).depth + 1,
                DepthAction::Stop => final(self).best == Some(dir) && final(self).best_depth == old(
                    self,
                ).depth && final(self).finished && final(self).depth == old(self).depth,
            },
    {
        match after_depth(self.depth, value) {
            DepthAction::Abandon => {
                self.finished = true;
            },
            DepthAction::Deepen => {
                self.best = Some(dir);
                self.best_depth = self.depth;
                self.depth = self.depth + 1;
            },
            DepthAction::Stop => {
                self.best = Some(dir);
                self.best_depth = self.depth;
                self.finished = true;
            },
        }
    }

    /// The published direction is the one a standalone search of the
    /// published depth picks, and that search does not see a certain loss.
    pub open spec fn answers<H: Heuristic>(&self, h: &H, ss: Seq<SnakeView>, grid: GridView) -> bool {
        let values = root_values(h, ss, grid, self.best_depth as nat);
        self.best is Some ==> self.best->Some_0 == dir_of(first_max(values)) && values[first_max(values)] > LOSS
    }

    /// Searches the next depth and records its result.
    pub fn search_next<H: Heuristic>(&mut self, heuristic: &H, game: &Game)
        requires
            old(self).wf(),
            !old(self).finished,
            game.wf(),
            old(self).answers(heuristic, game.snakes_view(), game.grid@),
        ensures
            final(self).wf(),
            final(self).answers(heuristic, game.snakes_view(), game.grid@),
            ({
                let values = root_values(heuristic, game.snakes_view(), game.grid@, old(self).depth as nat);
                let value = values[first_max(values)];
                match depth_action(old(self).depth, value) {
                    DepthAction::Abandon => final(self).best == old(self).best && final(self).finished
                        && final(self).depth == old(self).depth,
                    DepthAction::Deepen => final(self).best == Some(dir_of(first_max(values)))
                        && final(self).best_depth == old(self).depth && !final(self).finished
                        && final(self).depth == old(self).depth + 1,
                    DepthAction::Stop => final(self).best == Some(dir_of(first_max(values)))
                        && final(self).best_depth == old(self).depth && final(self).finished,
                }
            }),
    {
        let (dir, value) = tree_search(heuristic, game, self.depth);
        self.record(dir, value);
    }

    pub open spec fn answer_of(&self, ss: Seq<SnakeView>, grid: GridView) -> Direction {
        match self.best {
            Some(d) => d,
            None => first_legal(ss, grid),
        }
    }

    /// The move to play: the latest published direction, else the fallback.
    pub fn answer(&self, game: &Game) -> (r: Direction)
        requires
            game.wf(),
        ensures
            r == self.answer_of(game.snakes_view(), game.grid@),
    {
        match self.best {
            Some(d) => d,
            None => fallback_move(game),
        }
    }
}

/// Whenever iterative deepening is stopped, its answer is a legal move if
/// snake 0 has one, and the only legal move if it has exactly one.
pub proof fn lemma_deepening_answer_legal<H: Heuristic>(
    d: Deepening,
    h: &H,
    ss: Seq<SnakeView>,
    grid: GridView,
)
    requires
        d.answers(h, ss, grid),
    ensures
        has_legal(ss, grid) ==> move_ok(ss, grid, 0, d.answer_of(ss, grid)),
        forall|e: Direction| #[trigger] only_legal(ss, grid, e) ==> d.answer_of(ss, grid) == e,
{
    let values = root_values(h, ss, grid, d.best_depth as nat);
    let b = first_max(values);
    lemma_first_max_exists(values);
    if d.best is Some {
        assert(values[b] == root_value(h, ss, grid, d.best_depth as nat, b));
        assert(move_ok(ss, grid, 0, dir_of(b)));
    } else if has_legal(ss, grid) {
        let k = choose|k: int| 0 <= k < 4 && move_ok(ss, grid, 0, #[trigger] dir_of(k));
        if !move_ok(ss, grid, 0, Direction::Up) && !move_ok(ss, grid, 0, Direction::Right)
            && !move_ok(ss, grid, 0, Direction::Down) {
            assert(k == 3);
        }
    }
    assert forall|e: Direction| #[trigger] only_legal(ss, grid, e) implies d.answer_of(ss, grid) == e by {
        assert(move_ok(ss, grid, 0, e));
        assert(move_ok(ss, grid, 0, dir_of(dir_index(e))));
        assert(has_legal(ss, grid));
    }
}

/// A uniformly random agent.
#[derive(Debug)]
pub struct Random {}

impl Default for Random {
    fn default() -> (r: Random)
        ensures
            r == (Random {}),
    {
        Random {}
    }
}

/// Relies on `rand::seq::IteratorRandom::choose`, which returns one element
/// of a non-empty iterator: here one of `0..n`.
#[verifier::external_body]
fn random_below(n: usize) -> (r: usize)
    requires
        n > 0,
    ensures
        r < n,
{
    (0..n).choose(&mut rand::thread_rng()).unwrap_or(0)
}

impl Random {
    /// One of the four directions, drawn uniformly.
    pub fn step(&mut self) -> (r: Direction) {
        Direction::from_index(random_below(4))
    }
}

} // verus!
