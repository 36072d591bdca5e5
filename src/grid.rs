//! The board: a dense rectangle of cells with a hazard overlay.
use vstd::prelude::*;
use crate::env::{Vec2D, MAX_DIM};

verus! {

/// What a cell holds.
#[derive(Clone, Copy, Debug, PartialEq, Eq, Structural)]
pub enum CellKind {
    Free,
    Food,
    Occupied,
}

/// The state of one board position: its kind and, independently, a hazard flag.
#[derive(Clone, Copy, Debug, PartialEq, Eq, Structural)]
pub struct Cell {
    pub kind: CellKind,
    pub hazard: bool,
}

/// A `width` x `height` board, stored row by row.
#[derive(Debug)]
pub struct Grid {
    pub width: usize,
    pub height: usize,
    pub cells: Vec<Cell>,
}

/// The mathematical value of a board.
pub struct GridView {
    pub width: usize,
    pub height: usize,
    pub cells: Seq<Cell>,
}

impl GridView {
    pub open spec fn wf(&self) -> bool {
        &&& self.width <= MAX_DIM
        &&& self.height <= MAX_DIM
        &&& self.cells.len() == self.width * self.height
    }

    pub open spec fn in_bounds(&self, p: Vec2D) -> bool {
        0 <= p.x < self.width && 0 <= p.y < self.height
    }

    pub open spec fn index_of(&self, p: Vec2D) -> int {
        p.y * self.width + p.x
    }

    /// The point stored at index `i`.
    pub open spec fn pos_of(&self, i: int) -> Vec2D {
        Vec2D { x: (i % self.width as int) as i16, y: (i / self.width as int) as i16 }
    }

    pub open spec fn cell_at(&self, p: Vec2D) -> Cell {
        self.cells[self.index_of(p)]
    }

    pub open spec fn kind_at(&self, p: Vec2D) -> CellKind {
        self.cell_at(p).kind
    }

    pub proof fn lemma_pos_of(&self, i: int)
        requires
            self.wf(),
            0 <= i < self.cells.len(),
        ensures
            self.in_bounds(self.pos_of(i)),
            self.index_of(self.pos_of(i)) == i,
    {
        let w = self.width as int;
        let h = self.height as int;
        assert(w > 0) by (nonlinear_arith)
            requires
                0 <= i < w * h,
                0 <= h,
        ;
        vstd::arithmetic::div_mod::lemma_fundamental_div_mod(i, w);
        vstd::arithmetic::div_mod::lemma_mod_bound(i, w);
        assert(i / w < h) by (nonlinear_arith)
            requires
                0 <= i < w * h,
                i == w * (i / w) + i % w,
                0 <= i % w < w,
        ;
        assert(0 <= i / w) by (nonlinear_arith)
            requires
                0 <= i,
                0 < w,
        ;
        assert(w * (i / w) == (i / w) * w) by (nonlinear_arith);
    }
}

impl View for Grid {
    type V = GridView;

    open spec fn view(&self) -> GridView {
        GridView { width: self.width, height: self.height, cells: self.cells@ }
    }
}

impl Grid {
    pub open spec fn wf(&self) -> bool {
        self@.wf()
    }

    pub open spec fn in_bounds(&self, p: Vec2D) -> bool {
        self@.in_bounds(p)
    }

    pub open spec fn index_of(&self, p: Vec2D) -> int {
        self@.index_of(p)
    }

    pub open spec fn cell_at(&self, p: Vec2D) -> Cell {
        self@.cell_at(p)
    }

    pub open spec fn kind_at(&self, p: Vec2D) -> CellKind {
        self@.kind_at(p)
    }

    /// Same dimensions, and every hazard flag kept.
    pub open spec fn same_frame(&self, other: &Grid) -> bool {
        &&& self.width == other.width
        &&& self.height == other.height
        &&& forall|q: Vec2D| #[trigger]
            self.in_bounds(q) ==> self.cell_at(q).hazard == other.cell_at(q).hazard
    }

    pub proof fn lemma_same_frame_trans(a: &Grid, b: &Grid, c: &Grid)
        requires
            a.same_frame(b),
            b.same_frame(c),
        ensures
            a.same_frame(c),
    {
        assert forall|q: Vec2D| #[trigger] a.in_bounds(q) implies a.cell_at(q).hazard == c.cell_at(
            q,
        ).hazard by {
            assert(b.in_bounds(q));
        }
    }

    pub proof fn lemma_index(&self, p: Vec2D)
        requires
            self.wf(),
            self.in_bounds(p),
        ensures
            0 <= self.index_of(p) < self.cells@.len(),
    {
        let w = self.width as int;
        let h = self.height as int;
        assert(p.y * w + p.x < h * w) by (nonlinear_arith)
            requires
                0 <= p.x < w,
                0 <= p.y < h,
        ;
        assert(0 <= p.y * w) by (nonlinear_arith)
            requires
                0 <= p.y,
                0 <= w,
        ;
        assert(h * w == w * h) by (nonlinear_arith);
    }

    pub proof fn lemma_index_injective(&self, p: Vec2D, q: Vec2D)
        requires
            self.in_bounds(p),
            self.in_bounds(q),
            p != q,
        ensures
            self.index_of(p) != self.index_of(q),
    {
        let w = self.width as int;
        if p.y == q.y {
        } else if p.y < q.y {
            assert(p.y * w + w <= q.y * w) by (nonlinear_arith)
                requires
                    p.y < q.y,
                    0 <= w,
            ;
        } else {
            assert(q.y * w + w <= p.y * w) by (nonlinear_arith)
                requires
                    q.y < p.y,
                    0 <= w,
            ;
        }
    }

    fn index(&self, p: Vec2D) -> (r: usize)
        requires
            self.wf(),
            self.in_bounds(p),
        ensures
            r == self.index_of(p),
            r < self.cells@.len(),
    {
        proof {
            self.lemma_index(p);
            let w = self.width as int;
            assert(0 <= p.y * w) by (nonlinear_arith)
                requires
                    0 <= p.y,
                    0 <= w,
            ;
        }
        let y: usize = p.y as usize;
        let x: usize = p.x as usize;
        proof {
            assert(y * self.width == p.y * self.width);
            assert(self.cells.len() <= usize::MAX);
        }
        y * self.width + x
    }

    /// An empty board: every cell Free and without hazard.
    pub fn new(width: usize, height: usize) -> (r: Grid)
        requires
            width <= MAX_DIM,
            height <= MAX_DIM,
        ensures
            r.wf(),
            r.width == width,
            r.height == height,
            forall|q: Vec2D| #[trigger]
                r.in_bounds(q) ==> r.cell_at(q) == (Cell { kind: CellKind::Free, hazard: false }),
    {
        assert(width * height <= MAX_DIM * MAX_DIM) by (nonlinear_arith)
            requires
                width <= MAX_DIM,
                height <= MAX_DIM,
        ;
        let n: usize = width * height;
        let mut cells: Vec<Cell> = Vec::new();
        let free = Cell { kind: CellKind::Free, hazard: false };
        while cells.len() < n
            invariant
                cells@.len() <= n,
                forall|i: int| 0 <= i < cells@.len() ==> cells@[i] == free,
            decreases n - cells@.len(),
        {
            cells.push(free);
        }
        let r = Grid { width, height, cells };
        assert forall|q: Vec2D| #[trigger] r.in_bounds(q) implies r.cell_at(q) == free by {
            r.lemma_index(q);
        }
        r
    }

    /// An independent copy of the board.
    pub fn copy(&self) -> (r: Grid)
        ensures
            r.width == self.width,
            r.height == self.height,
            r.cells@ == self.cells@,
    {
        let mut cells: Vec<Cell> = Vec::new();
        let mut i: usize = 0;
        while i < self.cells.len()
            invariant
                i <= self.cells@.len(),
                cells@ == self.cells@.subrange(0, i as int),
            decreases self.cells@.len() - i,
        {
            cells.push(self.cells[i]);
            i += 1;
            proof {
                assert(cells@ =~= self.cells@.subrange(0, i as int));
            }
        }
        proof {
            assert(cells@ =~= self.cells@);
        }
        Grid { width: self.width, height: self.height, cells }
    }

    /// Whether `p` lies on the board.
    pub fn has(&self, p: Vec2D) -> (r: bool)
        ensures
            r == self.in_bounds(p),
    {
        p.x >= 0 && p.y >= 0 && (p.x as usize) < self.width && (p.y as usize) < self.height
    }

    pub fn get(&self, p: Vec2D) -> (r: Cell)
        requires
            self.wf(),
            self.in_bounds(p),
        ensures
            r == self.cell_at(p),
    {
        self.cells[self.index(p)]
    }

    /// Sets the kind of the cell at `p`, keeping its hazard flag.
    pub fn set_kind(&mut self, p: Vec2D, kind: CellKind)
        requires
            old(self).wf(),
            old(self).in_bounds(p),
        ensures
            final(self).wf(),
            final(self).same_frame(old(self)),
            final(self).kind_at(p) == kind,
            forall|q: Vec2D| #[trigger]
                final(self).in_bounds(q) && q != p ==> final(self).kind_at(q) == old(self).kind_at(q),
    {
        let i = self.index(p);
        let hazard = self.cells[i].hazard;
        self.cells.set(i, Cell { kind, hazard });
        proof {
            assert forall|q: Vec2D| #[trigger] self.in_bounds(q) implies self.cell_at(q).hazard
                == old(self).cell_at(q).hazard && (q != p ==> self.kind_at(q) == old(self).kind_at(
                q,
            )) by {
                old(self).lemma_index(q);
                if q != p {
                    old(self).lemma_index_injective(p, q);
                }
            }
        }
    }

    /// Sets the hazard flag of the cell at `p`, keeping its kind.
    pub fn set_hazard(&mut self, p: Vec2D, hazard: bool)
        requires
            old(self).wf(),
            old(self).in_bounds(p),
        ensures
            final(self).wf(),
            final(self).width == old(self).width,
            final(self).height == old(self).height,
            final(self).cell_at(p) == (Cell { hazard, ..old(self).cell_at(p) }),
            forall|q: Vec2D| #[trigger]
                final(self).in_bounds(q) && q != p ==> final(self).cell_at(q) == old(self).cell_at(q),
    {
        let i = self.index(p);
        let kind = self.cells[i].kind;
        self.cells.set(i, Cell { kind, hazard });
        proof {
            assert forall|q: Vec2D| #[trigger] self.in_bounds(q) && q != p implies self.cell_at(q)
                == old(self).cell_at(q) by {
                old(self).lemma_index(q);
                old(self).lemma_index_injective(p, q);
            }
        }
    }

    /// Frees every occupied cell.
    pub fn clear_occupied(&mut self)
        requires
            old(self).wf(),
        ensures
            final(self).wf(),
            final(self).same_frame(old(self)),
            forall|q: Vec2D| #[trigger]
                final(self).in_bounds(q) ==> final(self).kind_at(q) == if old(self).kind_at(q)
                    == CellKind::Occupied {
                    CellKind::Free
                } else {
                    old(self).kind_at(q)
                },
    {
        let n = self.cells.len();
        let mut i: usize = 0;
        while i < n
            invariant
                i <= n == self.cells@.len() == old(self).cells@.len(),
                self.width == old(self).width,
                self.height == old(self).height,
                forall|j: int|
                    0 <= j < n ==> (#[trigger] self.cells@[j]).hazard == old(self).cells@[j].hazard,
                forall|j: int|
                    0 <= j < n ==> (#[trigger] self.cells@[j]).kind == if j < i && old(self).cells@[j].kind
                        == CellKind::Occupied {
                        CellKind::Free
                    } else {
                        old(self).cells@[j].kind
                    },
            decreases n - i,
        {
            let c = self.cells[i];
            if c.kind == CellKind::Occupied {
                self.cells.set(i, Cell { kind: CellKind::Free, hazard: c.hazard });
            }
            i += 1;
        }
        proof {
            assert forall|q: Vec2D| #[trigger] self.in_bounds(q) implies self.cell_at(q).hazard
                == old(self).cell_at(q).hazard by {
                old(self).lemma_index(q);
            }
            assert forall|q: Vec2D| #[trigger] self.in_bounds(q) implies self.kind_at(q) == if old(
                self,
            ).kind_at(q) == CellKind::Occupied {
                CellKind::Free
            } else {
                old(self).kind_at(q)
            } by {
                old(self).lemma_index(q);
            }
        }
    }

    /// Marks every point of `points` with `kind`.
    pub fn fill(&mut self, points: &[Vec2D], kind: CellKind)
        requires
            old(self).wf(),
            forall|i: int| 0 <= i < points@.len() ==> old(self).in_bounds(#[trigger] points@[i]),
        ensures
            final(self).wf(),
            final(self).same_frame(old(self)),
            forall|q: Vec2D| #[trigger]
                final(self).in_bounds(q) ==> final(self).kind_at(q) == if points@.contains(q) {
                    kind
                } else {
                    old(self).kind_at(q)
                },
    {
        let mut i: usize = 0;
        while i < points.len()
            invariant
                i <= points@.len(),
                self.wf(),
                self.same_frame(old(self)),
                forall|j: int| 0 <= j < points@.len() ==> old(self).in_bounds(#[trigger] points@[j]),
                forall|q: Vec2D| #[trigger]
                    self.in_bounds(q) ==> self.kind_at(q) == if points@.subrange(0, i as int).contains(q) {
                        kind
                    } else {
                        old(self).kind_at(q)
                    },
            decreases points@.len() - i,
        {
            let p = points[i];
            let ghost mid = *self;
            self.set_kind(p, kind);
            proof {
                assert(points@.subrange(0, i + 1) =~= points@.subrange(0, i as int).push(p));
                assert forall|q: Vec2D| #[trigger] self.in_bounds(q) implies self.cell_at(q).hazard
                    == old(self).cell_at(q).hazard && self.kind_at(q) == if points@.subrange(
                    0,
                    i + 1,
                ).contains(q) {
                    kind
                } else {
                    old(self).kind_at(q)
                } by {
                    assert(mid.in_bounds(q));
                    if q != p {
                        assert(points@.subrange(0, i + 1).contains(q) == points@.subrange(
                            0,
                            i as int,
                        ).contains(q));
                    } else {
                        assert(points@.subrange(0, i + 1)[i as int] == p);
                    }
                }
            }
            i += 1;
        }
        proof {
            assert(points@.subrange(0, points@.len() as int) =~= points@);
        }
    }

    /// Marks the given cells as food.
    pub fn add_food(&mut self, food: &[Vec2D])
        requires
            old(self).wf(),
            forall|i: int| 0 <= i < food@.len() ==> old(self).in_bounds(#[trigger] food@[i]),
        ensures
            final(self).wf(),
            final(self).same_frame(old(self)),
            forall|q: Vec2D| #[trigger]
                final(self).in_bounds(q) ==> final(self).kind_at(q) == if food@.contains(q) {
                    CellKind::Food
                } else {
                    old(self).kind_at(q)
                },
    {
        self.fill(food, CellKind::Food);
    }

    /// Marks the cells of a snake's body as occupied.
    pub fn add_snake(&mut self, body: &[Vec2D])
        requires
            old(self).wf(),
            forall|i: int| 0 <= i < body@.len() ==> old(self).in_bounds(#[trigger] body@[i]),
        ensures
            final(self).wf(),
            final(self).same_frame(old(self)),
            forall|q: Vec2D| #[trigger]
                final(self).in_bounds(q) ==> final(self).kind_at(q) == if body@.contains(q) {
                    CellKind::Occupied
                } else {
                    old(self).kind_at(q)
                },
    {
        self.fill(body, CellKind::Occupied);
    }
}

} // verus!
