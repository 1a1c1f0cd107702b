//! The connectivity engine: decides whether two equal tiles may be
//! matched, and produces the corner points of the connector.
//!
//! A connector is a chain of straight axis-aligned segments through empty
//! cells, at most three segments (two turns) long.  From a corner the
//! search may travel outward in each of the four axis directions, adding
//! every empty cell passed, and may also arrive directly at a tile of the
//! goal type when it is the first obstacle met; it may never travel
//! through or past an occupied cell.

use crate::matrix::{Matrix, Position};
use crate::tile::Tile;
use vstd::prelude::*;

verus! {

/// Most positions a connector may visit: its two endpoints and up to two
/// corners between them (three segments, two turns).
pub const MAX_STEPS: usize = 4;

/// Whether `(dx, dy)` is one of the four axis direction steps.
pub open spec fn unit_dir(dx: int, dy: int) -> bool {
    &&& dx == -1 || dx == 0 || dx == 1
    &&& dy == -1 || dy == 0 || dy == 1
    &&& (dx == 0) != (dy == 0)
}

/// Whether `b` lies strictly outward from `a` along direction `(dx, dy)`.
pub open spec fn aligned(a: Position, b: Position, dx: int, dy: int) -> bool {
    if dx == 1 {
        b.y == a.y && a.x < b.x
    } else if dx == -1 {
        b.y == a.y && b.x < a.x
    } else if dy == 1 {
        b.x == a.x && a.y < b.y
    } else {
        b.x == a.x && b.y < a.y
    }
}

impl Matrix<Option<Tile>> {
    /// Whether every cell of row `y` strictly between columns `lo` and
    /// `hi` is empty.
    pub open spec fn row_clear(self, y: usize, lo: usize, hi: usize) -> bool {
        forall|x: usize| lo < x < hi ==> self.cell(Position { x, y }) is None
    }

    /// Whether every cell of column `x` strictly between rows `lo` and
    /// `hi` is empty.
    pub open spec fn col_clear(self, x: usize, lo: usize, hi: usize) -> bool {
        forall|y: usize| lo < y < hi ==> self.cell(Position { x, y }) is None
    }

    /// Whether every cell strictly between `a` and `b` (which share a row
    /// or a column) is empty.  False for positions not in a line.
    pub open spec fn seg_clear(self, a: Position, b: Position) -> bool {
        if a.y == b.y {
            if a.x <= b.x {
                self.row_clear(a.y, a.x, b.x)
            } else {
                self.row_clear(a.y, b.x, a.x)
            }
        } else if a.x == b.x {
            if a.y <= b.y {
                self.col_clear(a.x, a.y, b.y)
            } else {
                self.col_clear(a.x, b.y, a.y)
            }
        } else {
            false
        }
    }

    /// Whether a single straight run may go from corner `a` to corner `b`:
    /// `b` is in bounds on the same row or column, every cell strictly
    /// between is empty, and `b` itself is empty or holds the goal tile.
    pub open spec fn is_successor(self, a: Position, b: Position, goal: Tile) -> bool {
        &&& self.size.spec_contains(b)
        &&& a != b
        &&& a.x == b.x || a.y == b.y
        &&& self.seg_clear(a, b)
        &&& self.cell(b) is None || self.cell(b) == Some(goal)
    }

    /// The corners reachable by scanning outward from `(x, y)` in
    /// direction `(dx, dy)`, nearest first: every empty cell until the
    /// first obstacle, and the obstacle itself when it holds the goal.
    pub open spec fn ray(self, x: int, y: int, dx: int, dy: int, goal: Tile) -> Seq<Position>
        decreases
                (if dx >= 0 {
                    self.size.width - x
                } else {
                    x
                }) + (if dy >= 0 {
                    self.size.height - y
                } else {
                    y
                }),
        when unit_dir(dx, dy)
    {
        let nx = x + dx;
        let ny = y + dy;
        if !(0 <= nx < self.size.width && 0 <= ny < self.size.height) {
            Seq::empty()
        } else {
            let p = Position { x: nx as usize, y: ny as usize };
            if self.cell(p) is None {
                seq![p] + self.ray(nx, ny, dx, dy, goal)
            } else if self.cell(p) == Some(goal) {
                seq![p]
            } else {
                Seq::empty()
            }
        }
    }

    /// What `successors` returns: the four rays in scan order (left,
    /// right, above, below).
    pub open spec fn successors_spec(self, pos: Position, goal: Tile) -> Seq<Position> {
        self.ray(pos.x as int, pos.y as int, -1, 0, goal) + self.ray(
            pos.x as int,
            pos.y as int,
            1,
            0,
            goal,
        ) + self.ray(pos.x as int, pos.y as int, 0, -1, goal) + self.ray(
            pos.x as int,
            pos.y as int,
            0,
            1,
            goal,
        )
    }

    /// Ray membership, characterized: a position is on the ray from `a`
    /// in direction `(dx, dy)` exactly when it lies outward from `a` on
    /// that axis and one straight run from `a` may end there.
    pub proof fn lemma_ray_membership(self, a: Position, dx: int, dy: int, goal: Tile)
        requires
            self.wf(),
            self.size.spec_contains(a),
            unit_dir(dx, dy),
        ensures
            forall|b: Position| #[trigger] self.ray(a.x as int, a.y as int, dx, dy, goal).contains(
                b,
            ) <==> aligned(a, b, dx, dy) && self.is_successor(a, b, goal),
        decreases
                (if dx >= 0 {
                    self.size.width - a.x
                } else {
                    a.x as int
                }) + (if dy >= 0 {
                    self.size.height - a.y
                } else {
                    a.y as int
                }),
    {
        let w = self.size.width as int;
        let h = self.size.height as int;
        let full = self.ray(a.x as int, a.y as int, dx, dy, goal);
        let nx = a.x + dx;
        let ny = a.y + dy;
        if !(0 <= nx < w && 0 <= ny < h) {
            assert forall|b: Position| #[trigger] full.contains(b) <==> aligned(a, b, dx, dy)
                && self.is_successor(a, b, goal) by {
                assert(full =~= Seq::<Position>::empty());
                assert(!full.contains(b));
                if aligned(a, b, dx, dy) && self.is_successor(a, b, goal) {
                    // b would sit inside the grid beyond an edge of it
                    assert(false);
                }
            }
        } else {
            let p = Position { x: nx as usize, y: ny as usize };
            assert(aligned(a, p, dx, dy));
            assert(self.seg_clear(a, p));
            if self.cell(p) is None {
                self.lemma_ray_membership(p, dx, dy, goal);
                let rest = self.ray(nx, ny, dx, dy, goal);
                assert(full == seq![p] + rest);
                assert(self.is_successor(a, p, goal));
                assert forall|b: Position| #[trigger] full.contains(b) <==> aligned(a, b, dx, dy)
                    && self.is_successor(a, b, goal) by {
                    if aligned(a, b, dx, dy) && b != p {
                        assert(aligned(p, b, dx, dy));
                    }
                    if full.contains(b) {
                        let i = choose|i: int| 0 <= i < full.len() && full[i] == b;
                        if i == 0 {
                            assert(b == p);
                        } else {
                            assert(rest[i - 1] == b);
                            assert(rest.contains(b));
                            assert(aligned(p, b, dx, dy) && self.is_successor(p, b, goal));
                            // widen the clear segment across the empty cell p
                            assert(self.seg_clear(a, b)) by {
                                self.lemma_seg_clear_extend(a, p, b, dx, dy);
                            }
                        }
                    }
                    if aligned(a, b, dx, dy) && self.is_successor(a, b, goal) {
                        if b == p {
                            assert(full[0] == b);
                            assert(full.contains(b));
                        } else {
                            assert(aligned(p, b, dx, dy));
                            assert(self.seg_clear(p, b)) by {
                                self.lemma_seg_clear_narrow(a, p, b, dx, dy);
                            }
                            assert(self.is_successor(p, b, goal));
                            assert(rest.contains(b));
                            let j = choose|j: int| 0 <= j < rest.len() && rest[j] == b;
                            assert(full[j + 1] == b);
                            assert(full.contains(b));
                        }
                    }
                }
            } else if self.cell(p) == Some(goal) {
                assert(full == seq![p]);
                assert(self.is_successor(a, p, goal));
                assert forall|b: Position| #[trigger] full.contains(b) <==> aligned(a, b, dx, dy)
                    && self.is_successor(a, b, goal) by {
                    if full.contains(b) {
                        assert(b == p);
                    }
                    if aligned(a, b, dx, dy) && self.is_successor(a, b, goal) {
                        if b != p {
                            assert(aligned(p, b, dx, dy));
                            // p sits strictly between a and b, so the
                            // clear segment would make p empty
                            self.lemma_seg_clear_inner(a, p, b, dx, dy);
                            assert(false);
                        }
                        assert(full[0] == b);
                        assert(full.contains(b));
                    }
                }
            } else {
                assert(full =~= Seq::<Position>::empty());
                assert forall|b: Position| #[trigger] full.contains(b) <==> aligned(a, b, dx, dy)
                    && self.is_successor(a, b, goal) by {
                    assert(!full.contains(b));
                    if aligned(a, b, dx, dy) && self.is_successor(a, b, goal) {
                        if b != p {
                            assert(aligned(p, b, dx, dy));
                            self.lemma_seg_clear_inner(a, p, b, dx, dy);
                        }
                        assert(false);
                    }
                }
            }
        }
    }

    /// A cell adjacent to `a` and strictly before `b` on a clear segment
    /// from `a` to `b` is empty.
    proof fn lemma_seg_clear_inner(self, a: Position, p: Position, b: Position, dx: int, dy: int)
        requires
            unit_dir(dx, dy),
            p.x == a.x + dx,
            p.y == a.y + dy,
            aligned(a, p, dx, dy),
            aligned(p, b, dx, dy),
            self.seg_clear(a, b),
        ensures
            self.cell(p) is None,
    {
        assert(self.cell(Position { x: p.x, y: p.y }) is None);
    }

    /// A clear segment from `a` shortens to one from the adjacent cell
    /// `p` toward the same endpoint.
    proof fn lemma_seg_clear_narrow(self, a: Position, p: Position, b: Position, dx: int, dy: int)
        requires
            unit_dir(dx, dy),
            p.x == a.x + dx,
            p.y == a.y + dy,
            aligned(a, p, dx, dy),
            aligned(p, b, dx, dy),
            self.seg_clear(a, b),
        ensures
            self.seg_clear(p, b),
    {
    }

    /// A clear segment from the adjacent empty cell `p` widens to one
    /// from `a` toward the same endpoint.
    proof fn lemma_seg_clear_extend(self, a: Position, p: Position, b: Position, dx: int, dy: int)
        requires
            unit_dir(dx, dy),
            p.x == a.x + dx,
            p.y == a.y + dy,
            aligned(a, p, dx, dy),
            aligned(p, b, dx, dy),
            self.cell(p) is None,
            self.seg_clear(p, b),
        ensures
            self.seg_clear(a, b),
    {
        if dy == 0 {
            assert forall|x: usize|
                (if a.x <= b.x {
                    a.x < x < b.x
                } else {
                    b.x < x < a.x
                }) implies self.cell(Position { x, y: a.y }) is None by {
                if x == p.x {
                    assert(self.cell(Position { x: p.x, y: p.y }) is None);
                }
            }
        } else {
            assert forall|y: usize|
                (if a.y <= b.y {
                    a.y < y < b.y
                } else {
                    b.y < y < a.y
                }) implies self.cell(Position { x: a.x, y }) is None by {
                if y == p.y {
                    assert(self.cell(Position { x: p.x, y: p.y }) is None);
                }
            }
        }
    }

    /// Successor membership: `successors` returns exactly the positions
    /// one straight run from `pos` may end at.
    pub proof fn lemma_successors_membership(self, pos: Position, goal: Tile)
        requires
            self.wf(),
            self.size.spec_contains(pos),
        ensures
            forall|b: Position| #[trigger] self.successors_spec(pos, goal).contains(b)
                <==> self.is_successor(pos, b, goal),
    {
        broadcast use vstd::seq_lib::lemma_seq_concat_contains_all_elements;

        self.lemma_ray_membership(pos, -1, 0, goal);
        self.lemma_ray_membership(pos, 1, 0, goal);
        self.lemma_ray_membership(pos, 0, -1, goal);
        self.lemma_ray_membership(pos, 0, 1, goal);
        let left = self.ray(pos.x as int, pos.y as int, -1, 0, goal);
        let right = self.ray(pos.x as int, pos.y as int, 1, 0, goal);
        let above = self.ray(pos.x as int, pos.y as int, 0, -1, goal);
        let below = self.ray(pos.x as int, pos.y as int, 0, 1, goal);
        assert forall|b: Position| #[trigger] self.successors_spec(pos, goal).contains(b)
            <==> self.is_successor(pos, b, goal) by {
            assert(self.successors_spec(pos, goal).contains(b) <==> left.contains(b)
                || right.contains(b) || above.contains(b) || below.contains(b));
            if self.is_successor(pos, b, goal) {
                if b.y == pos.y && b.x < pos.x {
                    assert(aligned(pos, b, -1, 0));
                    assert(left.contains(b));
                } else if b.y == pos.y && b.x > pos.x {
                    assert(aligned(pos, b, 1, 0));
                    assert(right.contains(b));
                } else if b.x == pos.x && b.y < pos.y {
                    assert(aligned(pos, b, 0, -1));
                    assert(above.contains(b));
                } else {
                    assert(aligned(pos, b, 0, 1));
                    assert(below.contains(b));
                }
            }
        }
    }

    /// A straight run read backward is still a straight run, provided
    /// the cell it now ends at is empty or holds the goal tile.
    pub proof fn lemma_successor_flip(self, a: Position, b: Position, goal: Tile)
        requires
            self.is_successor(a, b, goal),
            self.size.spec_contains(a),
            self.cell(a) is None || self.cell(a) == Some(goal),
        ensures
            self.is_successor(b, a, goal),
    {
    }

    /// Connector existence is symmetric: for two occupied positions of
    /// one tile type, a legal connector from `a` to `b` exists exactly
    /// when one from `b` to `a` does, segment count for segment count.
    pub proof fn lemma_path_symmetry(self, a: Position, b: Position, goal: Tile)
        requires
            self.wf(),
            self.size.spec_contains(a),
            self.size.spec_contains(b),
            self.cell(a) == Some(goal),
            self.cell(b) == Some(goal),
        ensures
            self.has_path_1(a, b, goal) == self.has_path_1(b, a, goal),
            self.has_path_2(a, b, goal) == self.has_path_2(b, a, goal),
            self.has_path_3(a, b, goal) == self.has_path_3(b, a, goal),
            self.has_path(a, b, goal) == self.has_path(b, a, goal),
    {
        self.lemma_has_path_reverse(a, b, goal);
        self.lemma_has_path_reverse(b, a, goal);
    }

    /// One direction of connector symmetry.
    proof fn lemma_has_path_reverse(self, a: Position, b: Position, goal: Tile)
        requires
            self.wf(),
            self.size.spec_contains(a),
            self.size.spec_contains(b),
            self.cell(a) == Some(goal),
            self.cell(b) == Some(goal),
        ensures
            self.has_path_1(a, b, goal) ==> self.has_path_1(b, a, goal),
            self.has_path_2(a, b, goal) ==> self.has_path_2(b, a, goal),
            self.has_path_3(a, b, goal) ==> self.has_path_3(b, a, goal),
    {
        if self.has_path_1(a, b, goal) {
            self.lemma_successor_flip(a, b, goal);
        }
        if self.has_path_2(a, b, goal) {
            let c1 = choose|c1: Position|
                #[trigger] self.is_successor(a, c1, goal) && self.cell(c1) is None
                    && self.is_successor(c1, b, goal);
            self.lemma_successor_flip(c1, b, goal);
            self.lemma_successor_flip(a, c1, goal);
            assert(self.is_successor(b, c1, goal) && self.cell(c1) is None && self.is_successor(
                c1,
                a,
                goal,
            ));
        }
        if self.has_path_3(a, b, goal) {
            let (c1, c2) = choose|c1: Position, c2: Position|
                #[trigger] self.is_successor(a, c1, goal) && self.cell(c1) is None
                    && #[trigger] self.is_successor(c1, c2, goal) && self.cell(c2) is None
                    && self.is_successor(c2, b, goal);
            self.lemma_successor_flip(c2, b, goal);
            self.lemma_successor_flip(c1, c2, goal);
            self.lemma_successor_flip(a, c1, goal);
            assert(self.is_successor(b, c2, goal) && self.cell(c2) is None && self.is_successor(
                c2,
                c1,
                goal,
            ) && self.cell(c1) is None && self.is_successor(c1, a, goal));
        }
    }

    /// A legal connector read backward is a legal connector the other
    /// way: what `find_path` returns for one ordering of an occupied,
    /// equal-tile pair is, reversed, a legal connector for the other.
    pub proof fn lemma_path_ok_reverse(self, a: Position, b: Position, goal: Tile, p: Seq<Position>)
        requires
            self.wf(),
            self.size.spec_contains(a),
            self.cell(a) == Some(goal),
            self.path_ok(a, b, goal, p),
        ensures
            self.path_ok(b, a, goal, p.reverse()),
    {
        let q = p.reverse();
        let n = p.len() as int;
        assert(q.len() == n);
        assert forall|i: int| 0 <= i < n implies #[trigger] q[i] == p[n - 1 - i] by {}
        assert(q[0] == b);
        assert(q[n - 1] == a);
        assert forall|i: int| 0 <= i < n - 1 implies self.is_successor(
            q[i],
            #[trigger] q[i + 1],
            goal,
        ) by {
            let j = n - 2 - i;
            assert(p[j + 1] == q[i]);
            assert(p[j] == q[i + 1]);
            assert(self.is_successor(p[j], p[j + 1], goal));
            if j == 0 {
                self.lemma_successor_flip(p[0], p[1], goal);
            } else {
                assert(self.cell(p[j]) is None);
                assert(self.size.spec_contains(p[j])) by {
                    assert(self.is_successor(p[j - 1], p[j - 1 + 1], goal));
                }
                self.lemma_successor_flip(p[j], p[j + 1], goal);
            }
        }
        assert forall|i: int| 1 <= i < n - 1 implies self.cell(#[trigger] q[i]) is None by {
            assert(self.cell(p[n - 1 - i]) is None);
        }
    }

    /// The cell at an in-bounds address.
    fn cell_at(&self, p: Position) -> (r: Option<Tile>)
        requires
            self.wf(),
            self.size.spec_contains(p),
        ensures
            r == self.cell(p),
    {
        match self.get(p) {
            Some(c) => *c,
            None => {
                proof {
                    assert(false);
                }
                vstd::pervasive::unreached()
            },
        }
    }

    /// One scan: collects the ray from `pos` in direction `(dx, dy)`.
    fn scan_dir(&self, pos: Position, dx: isize, dy: isize, goal: Tile) -> (r: Vec<Position>)
        requires
            self.wf(),
            self.size.spec_contains(pos),
            unit_dir(dx as int, dy as int),
        ensures
            r@ == self.ray(pos.x as int, pos.y as int, dx as int, dy as int, goal),
    {
        let w = self.size.width;
        let h = self.size.height;
        let mut r: Vec<Position> = Vec::new();
        let mut cx = pos.x;
        let mut cy = pos.y;
        loop
            invariant_except_break
                self.ray(pos.x as int, pos.y as int, dx as int, dy as int, goal) == r@ + self.ray(
                    cx as int,
                    cy as int,
                    dx as int,
                    dy as int,
                    goal,
                ),
            invariant
                self.wf(),
                w == self.size.width,
                h == self.size.height,
                unit_dir(dx as int, dy as int),
                cx < w,
                cy < h,
            ensures
                r@ == self.ray(pos.x as int, pos.y as int, dx as int, dy as int, goal),
            decreases
                    (if dx >= 0 {
                        w - cx
                    } else {
                        cx as int
                    }) + (if dy >= 0 {
                        h - cy
                    } else {
                        cy as int
                    }),
        {
            let ghost ray_left = self.ray(cx as int, cy as int, dx as int, dy as int, goal);
            if (dx < 0 && cx == 0) || (dx > 0 && cx + 1 == w) || (dy < 0 && cy == 0) || (dy > 0 && cy
                + 1 == h) {
                proof {
                    assert(ray_left =~= Seq::<Position>::empty());
                    assert(r@ + ray_left =~= r@);
                }
                break ;
            }
            let nx = if dx < 0 {
                cx - 1
            } else if dx > 0 {
                cx + 1
            } else {
                cx
            };
            let ny = if dy < 0 {
                cy - 1
            } else if dy > 0 {
                cy + 1
            } else {
                cy
            };
            let p = Position { x: nx, y: ny };
            match self.cell_at(p) {
                None => {
                    let ghost r_prev = r@;
                    r.push(p);
                    proof {
                        let rest = self.ray(nx as int, ny as int, dx as int, dy as int, goal);
                        assert(ray_left == seq![p] + rest);
                        assert(r_prev + ray_left =~= r@ + rest);
                    }
                    cx = nx;
                    cy = ny;
                },
                Some(t) => {
                    if t == goal {
                        let ghost r_prev = r@;
                        r.push(p);
                        proof {
                            assert(ray_left == seq![p]);
                            assert(r_prev + ray_left =~= r@);
                        }
                    } else {
                        proof {
                            assert(ray_left =~= Seq::<Position>::empty());
                            assert(r@ + ray_left =~= r@);
                        }
                    }
                    break ;
                },
            }
        }
        r
    }

    /// Whether one straight run connects `s` to `e`.
    pub open spec fn has_path_1(self, s: Position, e: Position, goal: Tile) -> bool {
        self.is_successor(s, e, goal)
    }

    /// Whether two straight runs joined at one empty corner connect `s`
    /// to `e`.
    pub open spec fn has_path_2(self, s: Position, e: Position, goal: Tile) -> bool {
        exists|c1: Position|
            #[trigger] self.is_successor(s, c1, goal) && self.cell(c1) is None
                && self.is_successor(c1, e, goal)
    }

    /// Whether three straight runs joined at two empty corners connect
    /// `s` to `e`.
    pub open spec fn has_path_3(self, s: Position, e: Position, goal: Tile) -> bool {
        exists|c1: Position, c2: Position|
            #[trigger] self.is_successor(s, c1, goal) && self.cell(c1) is None
                && #[trigger] self.is_successor(c1, c2, goal) && self.cell(c2) is None
                && self.is_successor(c2, e, goal)
    }

    /// Whether any legal connector within the two-turn bound exists.
    pub open spec fn has_path(self, s: Position, e: Position, goal: Tile) -> bool {
        self.has_path_1(s, e, goal) || self.has_path_2(s, e, goal) || self.has_path_3(s, e, goal)
    }

    /// Whether `p` is a legal connector from `s` to `e` toward `goal`:
    /// it starts at `s`, ends at `e`, stays within the step bound, every
    /// hop is one straight run, and every corner strictly inside it is
    /// empty.
    pub open spec fn path_ok(self, s: Position, e: Position, goal: Tile, p: Seq<Position>) -> bool {
        &&& 2 <= p.len() <= MAX_STEPS
        &&& p[0] == s
        &&& p[p.len() - 1] == e
        &&& forall|i: int|
            0 <= i < p.len() - 1 ==> self.is_successor(p[i], #[trigger] p[i + 1], goal)
        &&& forall|i: int| 1 <= i < p.len() - 1 ==> self.cell(#[trigger] p[i]) is None
    }

    /// All corners reachable from `pos` in one straight run, toward a
    /// goal tile type, in scan order: left, right, above, below.
    pub fn successors(&self, pos: Position, goal_tile: Tile) -> (r: Vec<Position>)
        requires
            self.wf(),
            self.size.spec_contains(pos),
        ensures
            r@ == self.successors_spec(pos, goal_tile),
    {
        let mut r = self.scan_dir(pos, -1, 0, goal_tile);
        let mut right = self.scan_dir(pos, 1, 0, goal_tile);
        let mut above = self.scan_dir(pos, 0, -1, goal_tile);
        let mut below = self.scan_dir(pos, 0, 1, goal_tile);
        r.append(&mut right);
        r.append(&mut above);
        r.append(&mut below);
        r
    }

    /// The corners of the shortest connector from `start` to `end`,
    /// including both, if a legal connector exists.
    ///
    /// The search widens one segment at a time, so a returned connector
    /// uses as few segments as any legal connector does; with no legal
    /// connector within two turns the result is absent.
    #[verifier::loop_isolation(false)]
    #[verifier::rlimit(100)]
    pub fn find_path(&self, start: Position, end: Position) -> (r: Option<Vec<Position>>)
        requires
            self.wf(),
            self.size.spec_contains(start),
            self.size.spec_contains(end),
            start != end,
            self.cell(end) is Some,
        ensures
            match r {
                Some(p) => {
                    let goal = self.cell(end)->Some_0;
                    &&& self.path_ok(start, end, goal, p@)
                    &&& self.has_path(start, end, goal)
                    &&& (p@.len() == 2 <==> self.has_path_1(start, end, goal))
                    &&& (p@.len() == 2 ==> p@ == seq![start, end])
                    &&& (p@.len() == 3 ==> !self.has_path_1(start, end, goal) && self.has_path_2(
                        start,
                        end,
                        goal,
                    ))
                    &&& (p@.len() == 4 ==> !self.has_path_1(start, end, goal)
                        && !self.has_path_2(start, end, goal) && self.has_path_3(start, end, goal))
                },
                None => !self.has_path(start, end, self.cell(end)->Some_0),
            },
    {
        let goal = match self.cell_at(end) {
            Some(t) => t,
            None => {
                proof {
                    assert(false);
                }
                vstd::pervasive::unreached()
            },
        };
        let succ_s = self.successors(start, goal);
        proof {
            self.lemma_successors_membership(start, goal);
        }
        // one straight run?
        let mut i: usize = 0;
        while i < succ_s.len()
            invariant
                forall|j: int| 0 <= j < i ==> succ_s@[j] != end,
            decreases succ_s.len() - i,
        {
            if eq_pos(succ_s[i], end) {
                let mut p: Vec<Position> = Vec::new();
                p.push(start);
                p.push(end);
                proof {
                    assert(succ_s@.contains(end));
                    assert(p@ =~= seq![start, end]);
                    assert(p@[0int + 1] == end);
                }
                return Some(p);
            }
            i = i + 1;
        }
        proof {
            assert(!succ_s@.contains(end)) by {
                if succ_s@.contains(end) {
                    let j = choose|j: int| 0 <= j < succ_s@.len() && succ_s@[j] == end;
                    assert(succ_s@[j] != end);
                }
            }
            assert(!self.has_path_1(start, end, goal));
        }
        // the empty cells reachable in one run: candidate first corners
        let mut f1: Vec<Position> = Vec::new();
        let mut i: usize = 0;
        while i < succ_s.len()
            invariant
                forall|k: int|
                    0 <= k < f1@.len() ==> self.is_successor(start, #[trigger] f1@[k], goal)
                        && self.cell(f1@[k]) is None,
                forall|j: int|
                    0 <= j < i && self.cell(#[trigger] succ_s@[j]) is None ==> f1@.contains(
                        succ_s@[j],
                    ),
            decreases succ_s.len() - i,
        {
            let c = succ_s[i];
            proof {
                assert(succ_s@.contains(c));
            }
            let ghost f1_prev = f1@;
            match self.cell_at(c) {
                None => {
                    f1.push(c);
                    proof {
                        assert(f1@[f1_prev.len() as int] == c);
                        assert forall|b: Position| f1_prev.contains(b) implies f1@.contains(b) by {
                            let idx = choose|idx: int|
                                0 <= idx < f1_prev.len() && f1_prev[idx] == b;
                            assert(f1@[idx] == b);
                        }
                    }
                },
                Some(_) => {},
            }
            i = i + 1;
        }
        proof {
            assert forall|b: Position|
                self.is_successor(start, b, goal) && self.cell(b) is None implies f1@.contains(
                b,
            ) by {
                assert(succ_s@.contains(b));
                let j = choose|j: int| 0 <= j < succ_s@.len() && succ_s@[j] == b;
                assert(self.cell(succ_s@[j]) is None);
            }
        }
        // two runs? collect candidate second corners meanwhile
        let mut f2: Vec<Position> = Vec::new();
        let mut par: Vec<Position> = Vec::new();
        let mut i: usize = 0;
        while i < f1.len()
            invariant
                forall|k: int| 0 <= k < i ==> !self.is_successor(#[trigger] f1@[k], end, goal),
                par@.len() == f2@.len(),
                forall|k: int|
                    0 <= k < f2@.len() ==> {
                        &&& self.cell(#[trigger] f2@[k]) is None
                        &&& self.is_successor(start, par@[k], goal)
                        &&& self.cell(par@[k]) is None
                        &&& self.is_successor(par@[k], f2@[k], goal)
                    },
                forall|k: int, b: Position|
                    0 <= k < i && #[trigger] self.is_successor(f1@[k], b, goal) && self.cell(b)
                        is None ==> f1@.contains(b) || f2@.contains(b),
            decreases f1.len() - i,
        {
            let c1 = f1[i];
            let succ_1 = self.successors(c1, goal);
            proof {
                self.lemma_successors_membership(c1, goal);
            }
            let mut k: usize = 0;
            while k < succ_1.len()
                invariant
                    forall|t: int| 0 <= t < k ==> succ_1@[t] != end,
                    par@.len() == f2@.len(),
                    forall|t: int|
                        0 <= t < f2@.len() ==> {
                            &&& self.cell(#[trigger] f2@[t]) is None
                            &&& self.is_successor(start, par@[t], goal)
                            &&& self.cell(par@[t]) is None
                            &&& self.is_successor(par@[t], f2@[t], goal)
                        },
                    forall|t: int, b: Position|
                        0 <= t < i && #[trigger] self.is_successor(f1@[t], b, goal) && self.cell(b)
                            is None ==> f1@.contains(b) || f2@.contains(b),
                    forall|t: int|
                        0 <= t < k && self.cell(#[trigger] succ_1@[t]) is None ==> f1@.contains(
                            succ_1@[t],
                        ) || f2@.contains(succ_1@[t]),
                decreases succ_1.len() - k,
            {
                let c2 = succ_1[k];
                proof {
                    assert(succ_1@.contains(c2));
                }
                if eq_pos(c2, end) {
                    let mut p: Vec<Position> = Vec::new();
                    p.push(start);
                    p.push(c1);
                    p.push(end);
                    proof {
                        assert(p@ =~= seq![start, c1, end]);
                        assert(self.is_successor(start, c1, goal));
                        assert(self.is_successor(c1, end, goal));
                        assert(self.has_path_2(start, end, goal));
                        assert(p@[0int + 1] == c1 && p@[1int + 1] == end);
                        assert(self.path_ok(start, end, goal, p@));
                    }
                    return Some(p);
                }
                let ghost f2_prev = f2@;
                let ghost par_prev = par@;
                match self.cell_at(c2) {
                    None => {
                        if !contains_pos(&f1, c2) && !contains_pos(&f2, c2) {
                            f2.push(c2);
                            par.push(c1);
                            proof {
                                assert(f2@[f2_prev.len() as int] == c2);
                                assert(par@[f2_prev.len() as int] == c1);
                                assert forall|b: Position| f2_prev.contains(b) implies f2@.contains(
                                    b,
                                ) by {
                                    let idx = choose|idx: int|
                                        0 <= idx < f2_prev.len() && f2_prev[idx] == b;
                                    assert(f2@[idx] == b);
                                }
                            }
                        }
                    },
                    Some(_) => {},
                }
                k = k + 1;
            }
            proof {
                assert(!succ_1@.contains(end)) by {
                    if succ_1@.contains(end) {
                        let j = choose|j: int| 0 <= j < succ_1@.len() && succ_1@[j] == end;
                        assert(succ_1@[j] != end);
                    }
                }
                assert(!self.is_successor(f1@[i as int], end, goal));
                assert forall|b: Position|
                    #[trigger] self.is_successor(f1@[i as int], b, goal) && self.cell(b)
                        is None implies f1@.contains(b) || f2@.contains(b) by {
                    assert(succ_1@.contains(b));
                    let j = choose|j: int| 0 <= j < succ_1@.len() && succ_1@[j] == b;
                    assert(self.cell(succ_1@[j]) is None);
                }
            }
            i = i + 1;
        }
        proof {
            assert(!self.has_path_2(start, end, goal)) by {
                if self.has_path_2(start, end, goal) {
                    let c1 = choose|c1: Position|
                        #[trigger] self.is_successor(start, c1, goal) && self.cell(c1) is None
                            && self.is_successor(c1, end, goal);
                    assert(f1@.contains(c1));
                    let j = choose|j: int| 0 <= j < f1@.len() && f1@[j] == c1;
                    assert(!self.is_successor(f1@[j], end, goal));
                }
            }
        }
        // three runs?
        let mut k: usize = 0;
        while k < f2.len()
            invariant
                forall|t: int| 0 <= t < k ==> !self.is_successor(#[trigger] f2@[t], end, goal),
            decreases f2.len() - k,
        {
            let c2 = f2[k];
            let succ_2 = self.successors(c2, goal);
            proof {
                self.lemma_successors_membership(c2, goal);
            }
            let mut t: usize = 0;
            while t < succ_2.len()
                invariant
                    forall|u: int| 0 <= u < t ==> succ_2@[u] != end,
                decreases succ_2.len() - t,
            {
                if eq_pos(succ_2[t], end) {
                    let c1 = par[k];
                    let mut p: Vec<Position> = Vec::new();
                    p.push(start);
                    p.push(c1);
                    p.push(c2);
                    p.push(end);
                    proof {
                        assert(succ_2@.contains(end));
                        assert(p@ =~= seq![start, c1, c2, end]);
                        assert(self.is_successor(start, c1, goal));
                        assert(self.is_successor(c1, c2, goal));
                        assert(self.is_successor(c2, end, goal));
                        assert(self.has_path_3(start, end, goal));
                        assert(p@[0int + 1] == c1 && p@[1int + 1] == c2 && p@[2int + 1] == end);
                        assert(self.path_ok(start, end, goal, p@));
                    }
                    return Some(p);
                }
                t = t + 1;
            }
            proof {
                assert(!succ_2@.contains(end)) by {
                    if succ_2@.contains(end) {
                        let j = choose|j: int| 0 <= j < succ_2@.len() && succ_2@[j] == end;
                        assert(succ_2@[j] != end);
                    }
                }
                assert(!self.is_successor(f2@[k as int], end, goal));
            }
            k = k + 1;
        }
        proof {
            assert(!self.has_path_3(start, end, goal)) by {
                if self.has_path_3(start, end, goal) {
                    let (c1, c2) = choose|c1: Position, c2: Position|
                        #[trigger] self.is_successor(start, c1, goal) && self.cell(c1) is None
                            && #[trigger] self.is_successor(c1, c2, goal) && self.cell(c2) is None
                            && self.is_successor(c2, end, goal);
                    assert(f1@.contains(c1));
                    let j = choose|j: int| 0 <= j < f1@.len() && f1@[j] == c1;
                    assert(self.is_successor(f1@[j], c2, goal));
                    assert(f1@.contains(c2) || f2@.contains(c2));
                    if f1@.contains(c2) {
                        let j2 = choose|j2: int| 0 <= j2 < f1@.len() && f1@[j2] == c2;
                        assert(!self.is_successor(f1@[j2], end, goal));
                    } else {
                        let k2 = choose|k2: int| 0 <= k2 < f2@.len() && f2@[k2] == c2;
                        assert(!self.is_successor(f2@[k2], end, goal));
                    }
                }
            }
        }
        None
    }
}

/// Whether the list holds the given position.
fn contains_pos(v: &Vec<Position>, p: Position) -> (r: bool)
    ensures
        r == v@.contains(p),
{
    let mut i: usize = 0;
    while i < v.len()
        invariant
            i <= v.len(),
            forall|j: int| 0 <= j < i ==> v@[j] != p,
        decreases v.len() - i,
    {
        if eq_pos(v[i], p) {
            assert(v@.contains(p));
            return true;
        }
        i = i + 1;
    }
    proof {
        if v@.contains(p) {
            let j = choose|j: int| 0 <= j < v@.len() && v@[j] == p;
            assert(v@[j] != p);
        }
    }
    false
}

/// Whether two positions address the same cell.
fn eq_pos(a: Position, b: Position) -> (r: bool)
    ensures
        r == (a == b),
{
    a.x == b.x && a.y == b.y
}

} // verus!
