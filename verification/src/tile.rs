//! The tile catalog: the finite set of tile types a board is dealt from.

use vstd::prelude::*;

verus! {

/// How many distinct tile types the catalog holds.
pub const NUM_TILES: usize = 36;

/// One tile type.  Equality is by symbol identity alone; two tiles match
/// exactly when they are the same variant.
#[derive(Clone, Copy, PartialEq, Eq, Structural, Debug, Hash)]
pub enum Tile {
    Blank,
    Sticks1,
    Sticks2,
    Sticks3,
    Sticks4,
    Sticks5,
    Sticks6,
    Sticks7,
    Sticks8,
    Sticks9,
    Circles1,
    Circles2,
    Circles3,
    Circles4,
    Circles5,
    Circles6,
    Circles7,
    Circles8,
    Circles9,
    Chars1,
    Chars2,
    Chars3,
    Chars4,
    Chars5,
    Chars6,
    Chars7,
    Chars8,
    Chars9,
    WindEast,
    WindSouth,
    WindWest,
    WindNorth,
    DragonRed,
    DragonGreen,
    DragonWhite,
    Flower,
}

impl Tile {
    /// Position of this tile type in the catalog's stable order.
    pub open spec fn catalog_index(self) -> int {
        match self {
            Tile::Blank => 0,
            Tile::Sticks1 => 1,
            Tile::Sticks2 => 2,
            Tile::Sticks3 => 3,
            Tile::Sticks4 => 4,
            Tile::Sticks5 => 5,
            Tile::Sticks6 => 6,
            Tile::Sticks7 => 7,
            Tile::Sticks8 => 8,
            Tile::Sticks9 => 9,
            Tile::Circles1 => 10,
            Tile::Circles2 => 11,
            Tile::Circles3 => 12,
            Tile::Circles4 => 13,
            Tile::Circles5 => 14,
            Tile::Circles6 => 15,
            Tile::Circles7 => 16,
            Tile::Circles8 => 17,
            Tile::Circles9 => 18,
            Tile::Chars1 => 19,
            Tile::Chars2 => 20,
            Tile::Chars3 => 21,
            Tile::Chars4 => 22,
            Tile::Chars5 => 23,
            Tile::Chars6 => 24,
            Tile::Chars7 => 25,
            Tile::Chars8 => 26,
            Tile::Chars9 => 27,
            Tile::WindEast => 28,
            Tile::WindSouth => 29,
            Tile::WindWest => 30,
            Tile::WindNorth => 31,
            Tile::DragonRed => 32,
            Tile::DragonGreen => 33,
            Tile::DragonWhite => 34,
            Tile::Flower => 35,
        }
    }

    /// Tile type at a catalog position (the inverse of `catalog_index`).
    pub open spec fn catalog_tile(i: int) -> Tile {
        if i == 0 {
            Tile::Blank
        } else if i == 1 {
            Tile::Sticks1
        } else if i == 2 {
            Tile::Sticks2
        } else if i == 3 {
            Tile::Sticks3
        } else if i == 4 {
            Tile::Sticks4
        } else if i == 5 {
            Tile::Sticks5
        } else if i == 6 {
            Tile::Sticks6
        } else if i == 7 {
            Tile::Sticks7
        } else if i == 8 {
            Tile::Sticks8
        } else if i == 9 {
            Tile::Sticks9
        } else if i == 10 {
            Tile::Circles1
        } else if i == 11 {
            Tile::Circles2
        } else if i == 12 {
            Tile::Circles3
        } else if i == 13 {
            Tile::Circles4
        } else if i == 14 {
            Tile::Circles5
        } else if i == 15 {
            Tile::Circles6
        } else if i == 16 {
            Tile::Circles7
        } else if i == 17 {
            Tile::Circles8
        } else if i == 18 {
            Tile::Circles9
        } else if i == 19 {
            Tile::Chars1
        } else if i == 20 {
            Tile::Chars2
        } else if i == 21 {
            Tile::Chars3
        } else if i == 22 {
            Tile::Chars4
        } else if i == 23 {
            Tile::Chars5
        } else if i == 24 {
            Tile::Chars6
        } else if i == 25 {
            Tile::Chars7
        } else if i == 26 {
            Tile::Chars8
        } else if i == 27 {
            Tile::Chars9
        } else if i == 28 {
            Tile::WindEast
        } else if i == 29 {
            Tile::WindSouth
        } else if i == 30 {
            Tile::WindWest
        } else if i == 31 {
            Tile::WindNorth
        } else if i == 32 {
            Tile::DragonRed
        } else if i == 33 {
            Tile::DragonGreen
        } else if i == 34 {
            Tile::DragonWhite
        } else {
            Tile::Flower
        }
    }

    /// The catalog in its stable order: every tile type once.
    pub open spec fn catalog() -> Seq<Tile> {
        Seq::new(NUM_TILES as nat, |i: int| Tile::catalog_tile(i))
    }

    /// The two index maps invert each other, so the catalog lists every
    /// tile type exactly once.
    pub proof fn lemma_catalog()
        ensures
            Tile::catalog().len() == NUM_TILES,
            forall|t: Tile| 0 <= #[trigger] t.catalog_index() < NUM_TILES,
            forall|t: Tile| Tile::catalog()[#[trigger] t.catalog_index()] == t,
            Tile::catalog().no_duplicates(),
            forall|t: Tile| Tile::catalog().contains(t),
    {
        assert forall|t: Tile| 0 <= #[trigger] t.catalog_index() < NUM_TILES by {}
        assert forall|t: Tile| Tile::catalog()[#[trigger] t.catalog_index()] == t by {}
        assert forall|i: int, j: int|
            0 <= i < Tile::catalog().len() && 0 <= j < Tile::catalog().len() && i != j
                implies Tile::catalog()[i] != Tile::catalog()[j] by {
            assert(Tile::catalog_tile(i).catalog_index() == i);
            assert(Tile::catalog_tile(j).catalog_index() == j);
        }
        assert forall|t: Tile| Tile::catalog().contains(t) by {
            assert(Tile::catalog()[t.catalog_index()] == t);
        }
    }

    /// One full ordered set of tiles: each type exactly once, in catalog
    /// order.
    pub fn all() -> (r: Vec<Tile>)
        ensures
            r@ == Tile::catalog(),
    {
        let mut r: Vec<Tile> = Vec::new();
        r.push(Tile::Blank);
        r.push(Tile::Sticks1);
        r.push(Tile::Sticks2);
        r.push(Tile::Sticks3);
        r.push(Tile::Sticks4);
        r.push(Tile::Sticks5);
        r.push(Tile::Sticks6);
        r.push(Tile::Sticks7);
        r.push(Tile::Sticks8);
        r.push(Tile::Sticks9);
        r.push(Tile::Circles1);
        r.push(Tile::Circles2);
        r.push(Tile::Circles3);
        r.push(Tile::Circles4);
        r.push(Tile::Circles5);
        r.push(Tile::Circles6);
        r.push(Tile::Circles7);
        r.push(Tile::Circles8);
        r.push(Tile::Circles9);
        r.push(Tile::Chars1);
        r.push(Tile::Chars2);
        r.push(Tile::Chars3);
        r.push(Tile::Chars4);
        r.push(Tile::Chars5);
        r.push(Tile::Chars6);
        r.push(Tile::Chars7);
        r.push(Tile::Chars8);
        r.push(Tile::Chars9);
        r.push(Tile::WindEast);
        r.push(Tile::WindSouth);
        r.push(Tile::WindWest);
        r.push(Tile::WindNorth);
        r.push(Tile::DragonRed);
        r.push(Tile::DragonGreen);
        r.push(Tile::DragonWhite);
        r.push(Tile::Flower);
        assert(r@ =~= Tile::catalog());
        r
    }

    /// The glyph a renderer shows for this tile.
    pub fn as_char(self) -> char {
        match self {
            Tile::Blank => '\u{1f02b}',
            Tile::Sticks1 => '\u{1f010}',
            Tile::Sticks2 => '\u{1f011}',
            Tile::Sticks3 => '\u{1f012}',
            Tile::Sticks4 => '\u{1f013}',
            Tile::Sticks5 => '\u{1f014}',
            Tile::Sticks6 => '\u{1f015}',
            Tile::Sticks7 => '\u{1f016}',
            Tile::Sticks8 => '\u{1f017}',
            Tile::Sticks9 => '\u{1f018}',
            Tile::Circles1 => '\u{1f019}',
            Tile::Circles2 => '\u{1f01a}',
            Tile::Circles3 => '\u{1f01b}',
            Tile::Circles4 => '\u{1f01c}',
            Tile::Circles5 => '\u{1f01d}',
            Tile::Circles6 => '\u{1f01e}',
            Tile::Circles7 => '\u{1f01f}',
            Tile::Circles8 => '\u{1f020}',
            Tile::Circles9 => '\u{1f021}',
            Tile::Chars1 => '\u{1f007}',
            Tile::Chars2 => '\u{1f008}',
            Tile::Chars3 => '\u{1f009}',
            Tile::Chars4 => '\u{1f00a}',
            Tile::Chars5 => '\u{1f00b}',
            Tile::Chars6 => '\u{1f00c}',
            Tile::Chars7 => '\u{1f00d}',
            Tile::Chars8 => '\u{1f00e}',
            Tile::Chars9 => '\u{1f00f}',
            Tile::WindEast => '\u{1f000}',
            Tile::WindSouth => '\u{1f001}',
            Tile::WindWest => '\u{1f002}',
            Tile::WindNorth => '\u{1f003}',
            Tile::DragonRed => '\u{1f004}',
            Tile::DragonGreen => '\u{1f005}',
            Tile::DragonWhite => '\u{1f006}',
            Tile::Flower => '\u{1f022}',
        }
    }
}

} // verus!
