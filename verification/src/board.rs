//! The board: the padded tile grid, the selection state, and the most
//! recent cleared connector, with the deck setup and shuffle.

use crate::matrix::{Matrix, Position, Size};
use crate::tile::{Tile, NUM_TILES};
use vstd::prelude::*;

verus! {

/// How many pairwise random swaps a new board's deck receives.
pub const SHUFFLE_PASSES: usize = 100;

/// The playing field.  `tiles` is the padded grid: its outermost ring is
/// always empty and is never the target of a player action.  At most one
/// anchored pick (`confirmed_selection`) and one second pick or free
/// cursor (`tentative_selection`) exist at a time; their timestamps and
/// the one on `shown_path` drive blinking and fading in a renderer.
pub struct Board {
    pub tiles: Matrix<Option<Tile>>,
    pub confirmed_selection: Option<Position>,
    pub tentative_selection: Option<(u64, Position)>,
    pub shown_path: Option<(u64, Vec<Position>)>,
}

/// Exchanging two cells of a sequence leaves its multiset unchanged.
pub proof fn lemma_swap_preserves_multiset<T>(s: Seq<T>, i: int, j: int)
    requires
        0 <= i < s.len(),
        0 <= j < s.len(),
    ensures
        s.update(i, s[j]).update(j, s[i]).to_multiset() == s.to_multiset(),
{
    broadcast use vstd::multiset::group_multiset_axioms;

    if i == j {
        assert(s.update(i, s[j]).update(j, s[i]) =~= s);
    } else {
        let s1 = s.update(i, s[j]);
        vstd::seq_lib::to_multiset_update(s, i, s[j]);
        vstd::seq_lib::to_multiset_update(s1, j, s[i]);
        assert(s1[j] == s[j]);
        assert(s.contains(s[i]));
        vstd::seq_lib::lemma_multiset_commutative(s.take(i), s.skip(i));
        broadcast use vstd::seq_lib::group_to_multiset_ensures;

        assert(s.to_multiset().count(s[i]) > 0);
        assert(s.update(i, s[j]).update(j, s[i]).to_multiset() =~= s.to_multiset());
    }
}

impl Board {
    /// The default interior playing area.
    pub fn default_size() -> (r: Size)
        ensures
            r == (Size { width: 18, height: 8 }),
    {
        Size { width: 18, height: 8 }
    }

    /// Whether `p` addresses a cell strictly inside the padding ring.
    pub open spec fn interior(self, p: Position) -> bool {
        &&& 1 <= p.x < self.tiles.size.width - 1
        &&& 1 <= p.y < self.tiles.size.height - 1
    }

    /// A board is well formed when its grid is, the padding ring is
    /// empty, and both selections sit strictly inside the ring.
    pub open spec fn wf(self) -> bool {
        &&& self.tiles.wf()
        &&& 3 <= self.tiles.size.width
        &&& 3 <= self.tiles.size.height
        &&& forall|p: Position|
            self.tiles.size.spec_contains(p) && (p.x == 0 || p.y == 0 || p.x == self.tiles.size.width
                - 1 || p.y == self.tiles.size.height - 1) ==> #[trigger] self.tiles.cell(p) is None
        &&& match self.confirmed_selection {
            Some(c) => self.interior(c),
            None => true,
        }
        &&& match self.tentative_selection {
            Some((_, t)) => self.interior(t),
            None => true,
        }
    }

    /// The cell a position addresses: absent when out of range.
    pub open spec fn at_spec(self, pos: Position) -> Option<Tile> {
        if self.tiles.size.spec_contains(pos) {
            self.tiles.cell(pos)
        } else {
            None
        }
    }

    pub fn size(&self) -> (r: Size)
        ensures
            r == self.tiles.size,
    {
        self.tiles.size()
    }

    /// The tile at a position, or absent for an empty cell or an
    /// out-of-range position.
    pub fn at(&self, pos: Position) -> (r: Option<Tile>)
        requires
            self.wf(),
        ensures
            r == self.at_spec(pos),
    {
        match self.tiles.get(pos) {
            Some(c) => *c,
            None => None,
        }
    }

    /// Whether an occupied, matchable tile sits at the position.
    pub fn is_occupied(&self, pos: Position) -> (r: bool)
        requires
            self.wf(),
        ensures
            r == (self.at_spec(pos) is Some),
    {
        self.at(pos).is_some()
    }

    /// A row-major snapshot of the cells, one `Vec` per row.
    pub fn rows(&self) -> (r: Vec<Vec<Option<Tile>>>)
        requires
            self.wf(),
        ensures
            r@.len() == self.tiles.size.height,
            forall|y: int|
                0 <= y < self.tiles.size.height ==> #[trigger] r@[y]@.len()
                    == self.tiles.size.width,
            forall|y: int, x: int|
                0 <= y < self.tiles.size.height && 0 <= x < self.tiles.size.width
                    ==> #[trigger] r@[y]@[x] == self.tiles.cell(
                    Position { x: x as usize, y: y as usize },
                ),
    {
        self.tiles.rows()
    }

    /// Writes a cell strictly inside the padding ring; a no-op, reported
    /// as `false`, anywhere else.
    pub fn set_at(&mut self, pos: Position, cell: Option<Tile>) -> (r: bool)
        requires
            old(self).wf(),
        ensures
            final(self).wf(),
            final(self).tiles.size == old(self).tiles.size,
            final(self).confirmed_selection == old(self).confirmed_selection,
            final(self).tentative_selection == old(self).tentative_selection,
            final(self).shown_path == old(self).shown_path,
            r == old(self).interior(pos),
            r ==> forall|q: Position|
                old(self).tiles.size.spec_contains(q) ==> #[trigger] final(self).tiles.cell(q) == (
                if q == pos {
                    cell
                } else {
                    old(self).tiles.cell(q)
                }),
            !r ==> *final(self) == *old(self),
    {
        let s = self.tiles.size();
        if 1 <= pos.x && pos.x < s.width - 1 && 1 <= pos.y && pos.y < s.height - 1 {
            let ghost pre = self.tiles;
            let did = self.tiles.set(pos, cell);
            proof {
                assert(did);
                assert(self.tiles.data@ == pre.data@.update(pre.spec_idx(pos), cell));
                assert forall|q: Position| pre.size.spec_contains(q) implies #[trigger] self.tiles.cell(
                    q,
                ) == (if q == pos {
                    cell
                } else {
                    pre.cell(q)
                }) by {
                    pre.lemma_idx_injective(q, pos);
                    pre.lemma_idx_injective(pos, q);
                    assert(self.tiles.spec_idx(q) == pre.spec_idx(q));
                    if q == pos {
                        assert(self.tiles.data@[pre.spec_idx(pos)] == cell);
                    } else {
                        assert(pre.spec_idx(q) != pre.spec_idx(pos));
                        assert(self.tiles.data@[pre.spec_idx(q)] == pre.data@[pre.spec_idx(q)]);
                    }
                }
            }
            true
        } else {
            false
        }
    }

    /// The deck before shuffling: `repeats` full catalog copies, in
    /// catalog order, all cells occupied.
    pub open spec fn unshuffled_deck(repeats: int) -> Seq<Option<Tile>>
        decreases repeats,
    {
        if repeats <= 0 {
            Seq::empty()
        } else {
            Board::unshuffled_deck(repeats - 1) + Board::catalog_cells()
        }
    }

    /// One catalog copy as occupied cells.
    pub open spec fn catalog_cells() -> Seq<Option<Tile>> {
        Tile::catalog().map_values(|t: Tile| Some(t))
    }

    /// Builds the unshuffled deck: `repeats` concatenated catalog
    /// copies, so every tile type appears exactly `repeats` times.
    pub fn tiles_unshuffled(repeats: usize) -> (r: Vec<Option<Tile>>)
        requires
            repeats * NUM_TILES <= usize::MAX,
        ensures
            r@ == Board::unshuffled_deck(repeats as int),
            r@.len() == repeats * NUM_TILES,
    {
        let mut r: Vec<Option<Tile>> = Vec::new();
        let mut rep: usize = 0;
        while rep < repeats
            invariant
                rep <= repeats,
                repeats * NUM_TILES <= usize::MAX,
                r@ == Board::unshuffled_deck(rep as int),
                r@.len() == rep * NUM_TILES,
            decreases repeats - rep,
        {
            let all = Tile::all();
            let mut j: usize = 0;
            while j < all.len()
                invariant
                    all@ == Tile::catalog(),
                    j <= all@.len(),
                    r@ == Board::unshuffled_deck(rep as int) + Board::catalog_cells().take(j as int),
            decreases all@.len() - j,
            {
                let ghost prev = r@;
                r.push(Some(all[j]));
                proof {
                    assert(Board::catalog_cells()[j as int] == Some(all@[j as int]));
                    Board::catalog_cells().lemma_take_succ_push(j as int);
                    assert(prev.push(Some(all@[j as int])) =~= Board::unshuffled_deck(rep as int)
                        + Board::catalog_cells().take(j as int + 1));
                }
                j = j + 1;
            }
            proof {
                assert(Board::catalog_cells().take(NUM_TILES as int) =~= Board::catalog_cells());
                assert(r@ =~= Board::unshuffled_deck(rep as int + 1));
            }
            rep = rep + 1;
        }
        r
    }

    /// Each tile type occurs exactly once in one catalog copy.
    pub proof fn lemma_catalog_cells_count(t: Tile)
        ensures
            Board::catalog_cells().to_multiset().count(Some(t)) == 1,
    {
        broadcast use vstd::seq_lib::group_to_multiset_ensures;

        Tile::lemma_catalog();
        let cc = Board::catalog_cells();
        assert(cc.no_duplicates()) by {
            assert forall|i: int, j: int| 0 <= i < cc.len() && 0 <= j < cc.len() && i != j implies cc[i]
                != cc[j] by {
                assert(cc[i] == Some(Tile::catalog()[i]));
                assert(cc[j] == Some(Tile::catalog()[j]));
            }
        }
        cc.lemma_multiset_has_no_duplicates();
        assert(cc[t.catalog_index()] == Some(t));
        assert(cc.contains(Some(t)));
        assert(cc.to_multiset().count(Some(t)) > 0);
    }

    /// Each tile type occurs exactly `repeats` times in the unshuffled
    /// deck.
    pub proof fn lemma_unshuffled_count(repeats: int, t: Tile)
        requires
            0 <= repeats,
        ensures
            Board::unshuffled_deck(repeats).to_multiset().count(Some(t)) == repeats,
        decreases repeats,
    {
        broadcast use vstd::seq_lib::group_to_multiset_ensures;
        broadcast use vstd::multiset::group_multiset_axioms;

        if repeats <= 0 {
            assert(!Board::unshuffled_deck(repeats).contains(Some(t)));
        } else {
            Board::lemma_unshuffled_count(repeats - 1, t);
            Board::lemma_catalog_cells_count(t);
            vstd::seq_lib::lemma_multiset_commutative(
                Board::unshuffled_deck(repeats - 1),
                Board::catalog_cells(),
            );
        }
    }

    /// Applies a fixed number of random pairwise cell swaps.  The
    /// multiset of cells — in particular how often each tile type
    /// occurs — is exactly preserved, whatever positions are drawn.
    pub fn shuffle(&mut self)
        requires
            old(self).tiles.wf(),
            1 <= old(self).tiles.size.width,
            1 <= old(self).tiles.size.height,
        ensures
            final(self).tiles.wf(),
            final(self).tiles.size == old(self).tiles.size,
            final(self).tiles.data@.to_multiset() == old(self).tiles.data@.to_multiset(),
            final(self).confirmed_selection == old(self).confirmed_selection,
            final(self).tentative_selection == old(self).tentative_selection,
            final(self).shown_path == old(self).shown_path,
    {
        let size = self.size();
        let mut pass: usize = 0;
        while pass < SHUFFLE_PASSES
            invariant
                pass <= SHUFFLE_PASSES,
                self.tiles.wf(),
                size == self.tiles.size,
                size == old(self).tiles.size,
                1 <= size.width,
                1 <= size.height,
                self.tiles.data@.to_multiset() == old(self).tiles.data@.to_multiset(),
                self.confirmed_selection == old(self).confirmed_selection,
                self.tentative_selection == old(self).tentative_selection,
                self.shown_path == old(self).shown_path,
            decreases SHUFFLE_PASSES - pass,
        {
            let a = size.random_within();
            let b = size.random_within();
            let ghost before = self.tiles.data@;
            let ghost ia = self.tiles.spec_idx(a);
            let ghost ib = self.tiles.spec_idx(b);
            proof {
                self.tiles.lemma_idx_injective(a, b);
                self.tiles.lemma_idx_injective(b, a);
            }
            self.tiles.swap(a, b);
            proof {
                lemma_swap_preserves_multiset(before, ia, ib);
            }
            pass = pass + 1;
        }
    }

    /// Builds, fills, shuffles, and pads a new board.  The interior area
    /// must be a whole number of catalog copies; afterward every tile
    /// type occupies exactly `area / NUM_TILES` cells, the padding ring
    /// is empty, and no selection or shown connector exists yet.
    pub fn new(size: Size) -> (r: Board)
        requires
            1 <= size.width,
            1 <= size.height,
            size.spec_area() % (NUM_TILES as int) == 0,
            (size.width + 2) * (size.height + 2) <= usize::MAX,
        ensures
            r.wf(),
            r.tiles.size.width == size.width + 2,
            r.tiles.size.height == size.height + 2,
            r.confirmed_selection is None,
            r.tentative_selection is None,
            r.shown_path is None,
            forall|t: Tile| #[trigger]
                r.tiles.data@.to_multiset().count(Some(t)) == size.spec_area() / (NUM_TILES as int),
    {
        proof {
            assert(size.spec_area() <= (size.width + 2) * (size.height + 2)) by (nonlinear_arith)
                requires
                    0 <= size.width,
                    0 <= size.height,
            ;
        }
        let total = size.area();
        let repeats = total / NUM_TILES;
        proof {
            vstd::arithmetic::div_mod::lemma_fundamental_div_mod(total as int, NUM_TILES as int);
        }
        let deck = Board::tiles_unshuffled(repeats);
        let tiles = match Matrix::new(size, deck) {
            Some(m) => m,
            None => {
                proof {
                    assert(false);
                }
                vstd::pervasive::unreached()
            },
        };
        let mut ret = Board {
            tiles,
            confirmed_selection: None,
            tentative_selection: None,
            shown_path: None,
        };
        let ghost deck_view = ret.tiles.data@;
        proof {
            assert forall|t: Tile| #[trigger]
                deck_view.to_multiset().count(Some(t)) == repeats as int by {
                Board::lemma_unshuffled_count(repeats as int, t);
            }
        }
        ret.shuffle();
        ret.tiles.add_border(None);
        proof {
            assert forall|p: Position|
                ret.tiles.size.spec_contains(p) && (p.x == 0 || p.y == 0 || p.x
                    == ret.tiles.size.width - 1 || p.y == ret.tiles.size.height - 1) implies #[trigger] ret.tiles.cell(
                p,
            ) is None by {}
            assert forall|t: Tile| #[trigger]
                ret.tiles.data@.to_multiset().count(Some(t)) == size.spec_area() / (
            NUM_TILES as int) by {
                assert(deck_view.to_multiset().count(Some(t)) == repeats as int);
            }
        }
        ret
    }
}

impl Default for Board {
    /// A freshly dealt board of the default size.
    fn default() -> (r: Board)
        ensures
            r.wf(),
            r.confirmed_selection is None,
            r.tentative_selection is None,
            r.shown_path is None,
    {
        Board::new(Board::default_size())
    }
}

} // verus!
