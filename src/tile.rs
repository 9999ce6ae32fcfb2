//! Tiles of the grid, the objects they hold, and counts over sequences of tiles.

use vstd::prelude::*;

verus! {

/// What a traversable tile holds.
#[derive(Debug, Clone, Copy, PartialEq, Eq, Structural)]
pub enum ObjectType {
    Empty,
    Ball,
    Player,
}

/// One cell of the grid. `Plain` and `Goal` hold at most one object; a wall holds none.
#[derive(Debug, Clone, Copy, PartialEq, Eq, Structural)]
pub enum Tile {
    Wall,
    Plain(ObjectType),
    Goal(ObjectType),
}

/// The object a tile holds; a wall counts as holding nothing.
pub open spec fn object_of(t: Tile) -> ObjectType {
    match t {
        Tile::Wall => ObjectType::Empty,
        Tile::Plain(o) => o,
        Tile::Goal(o) => o,
    }
}

/// `t` is traversable and holds `o`.
pub open spec fn holds(t: Tile, o: ObjectType) -> bool {
    match t {
        Tile::Wall => false,
        Tile::Plain(x) => x == o,
        Tile::Goal(x) => x == o,
    }
}

/// `t` is a traversable tile that holds nothing.
pub open spec fn is_vacant(t: Tile) -> bool {
    holds(t, ObjectType::Empty)
}

pub open spec fn is_goal(t: Tile) -> bool {
    t is Goal
}

/// A goal that holds a ball.
pub open spec fn is_matched(t: Tile) -> bool {
    t == Tile::Goal(ObjectType::Ball)
}

/// The same kind of tile as `t`, holding `o` instead; a wall stays a wall.
pub open spec fn tile_with(t: Tile, o: ObjectType) -> Tile {
    match t {
        Tile::Wall => Tile::Wall,
        Tile::Plain(_) => Tile::Plain(o),
        Tile::Goal(_) => Tile::Goal(o),
    }
}

/// The glyph of an object on a plain tile.
pub open spec fn object_glyph(o: ObjectType) -> char {
    match o {
        ObjectType::Empty => '.',
        ObjectType::Ball => 'O',
        ObjectType::Player => '@',
    }
}

/// The glyph a tile is drawn with; a ball on a goal has a glyph of its own.
pub open spec fn tile_glyph(t: Tile) -> char {
    match t {
        Tile::Wall => '#',
        Tile::Plain(o) => object_glyph(o),
        Tile::Goal(ObjectType::Empty) => '+',
        Tile::Goal(ObjectType::Ball) => '$',
        Tile::Goal(ObjectType::Player) => '@',
    }
}

impl ObjectType {
    pub fn glyph(&self) -> (r: char)
        ensures
            r == object_glyph(*self),
    {
        match self {
            ObjectType::Empty => '.',
            ObjectType::Ball => 'O',
            ObjectType::Player => '@',
        }
    }
}

impl Tile {
    pub fn glyph(&self) -> (r: char)
        ensures
            r == tile_glyph(*self),
    {
        match self {
            Tile::Wall => '#',
            Tile::Plain(o) => o.glyph(),
            Tile::Goal(ObjectType::Empty) => '+',
            Tile::Goal(ObjectType::Ball) => '$',
            Tile::Goal(ObjectType::Player) => '@',
        }
    }

    /// The same kind of tile, holding `o`.
    pub fn with(self, o: ObjectType) -> (r: Tile)
        ensures
            r == tile_with(self, o),
    {
        match self {
            Tile::Wall => Tile::Wall,
            Tile::Plain(_) => Tile::Plain(o),
            Tile::Goal(_) => Tile::Goal(o),
        }
    }
}

/// How many tiles of `s` satisfy `f`.
pub open spec fn count_tiles(s: Seq<Tile>, f: spec_fn(Tile) -> bool) -> nat
    decreases s.len(),
{
    if s.len() == 0 {
        0
    } else {
        count_tiles(s.drop_last(), f) + if f(s.last()) {
            1nat
        } else {
            0nat
        }
    }
}

pub open spec fn count_holding(s: Seq<Tile>, o: ObjectType) -> nat {
    count_tiles(s, |t: Tile| holds(t, o))
}

pub open spec fn count_goals(s: Seq<Tile>) -> nat {
    count_tiles(s, |t: Tile| is_goal(t))
}

pub open spec fn count_matched(s: Seq<Tile>) -> nat {
    count_tiles(s, |t: Tile| is_matched(t))
}

pub proof fn lemma_count_push(s: Seq<Tile>, t: Tile, f: spec_fn(Tile) -> bool)
    ensures
        count_tiles(s.push(t), f) == count_tiles(s, f) + if f(t) {
            1nat
        } else {
            0nat
        },
{
    assert(s.push(t).drop_last() =~= s);
}

pub proof fn lemma_count_le_len(s: Seq<Tile>, f: spec_fn(Tile) -> bool)
    ensures
        count_tiles(s, f) <= s.len(),
    decreases s.len(),
{
    if s.len() > 0 {
        lemma_count_le_len(s.drop_last(), f);
    }
}

pub proof fn lemma_count_update(s: Seq<Tile>, i: int, t: Tile, f: spec_fn(Tile) -> bool)
    requires
        0 <= i < s.len(),
    ensures
        count_tiles(s.update(i, t), f) == count_tiles(s, f) - (if f(s[i]) {
            1int
        } else {
            0int
        }) + (if f(t) {
            1int
        } else {
            0int
        }),
    decreases s.len(),
{
    let u = s.update(i, t);
    if i == s.len() - 1 {
        assert(u.drop_last() =~= s.drop_last());
    } else {
        assert(u.drop_last() =~= s.drop_last().update(i, t));
        lemma_count_update(s.drop_last(), i, t, f);
    }
}

pub proof fn lemma_census_le_len(s: Seq<Tile>)
    ensures
        count_matched(s) <= s.len(),
        count_goals(s) <= s.len(),
        count_holding(s, ObjectType::Ball) <= s.len(),
        count_holding(s, ObjectType::Player) <= s.len(),
{
    lemma_count_le_len(s, |t: Tile| is_matched(t));
    lemma_count_le_len(s, |t: Tile| is_goal(t));
    lemma_count_le_len(s, |t: Tile| holds(t, ObjectType::Ball));
    lemma_count_le_len(s, |t: Tile| holds(t, ObjectType::Player));
}

pub proof fn lemma_matched_positive(s: Seq<Tile>, i: int)
    requires
        0 <= i < s.len(),
        is_matched(s[i]),
    ensures
        count_matched(s) >= 1,
{
    lemma_count_update(s, i, Tile::Wall, |t: Tile| is_matched(t));
}

/// The four counts that the stage keeps track of, after one tile is replaced.
pub proof fn lemma_census_update(s: Seq<Tile>, i: int, t: Tile)
    requires
        0 <= i < s.len(),
    ensures
        count_holding(s.update(i, t), ObjectType::Ball) == count_holding(s, ObjectType::Ball) - (
        if holds(s[i], ObjectType::Ball) {
            1int
        } else {
            0int
        }) + (if holds(t, ObjectType::Ball) {
            1int
        } else {
            0int
        }),
        count_holding(s.update(i, t), ObjectType::Player) == count_holding(s, ObjectType::Player)
            - (if holds(s[i], ObjectType::Player) {
            1int
        } else {
            0int
        }) + (if holds(t, ObjectType::Player) {
            1int
        } else {
            0int
        }),
        count_goals(s.update(i, t)) == count_goals(s) - (if is_goal(s[i]) {
            1int
        } else {
            0int
        }) + (if is_goal(t) {
            1int
        } else {
            0int
        }),
        count_matched(s.update(i, t)) == count_matched(s) - (if is_matched(s[i]) {
            1int
        } else {
            0int
        }) + (if is_matched(t) {
            1int
        } else {
            0int
        }),
{
    lemma_count_update(s, i, t, |t: Tile| holds(t, ObjectType::Ball));
    lemma_count_update(s, i, t, |t: Tile| holds(t, ObjectType::Player));
    lemma_count_update(s, i, t, |t: Tile| is_goal(t));
    lemma_count_update(s, i, t, |t: Tile| is_matched(t));
}

/// The four counts, after one tile is appended.
pub proof fn lemma_census_push(s: Seq<Tile>, t: Tile)
    ensures
        count_holding(s.push(t), ObjectType::Ball) == count_holding(s, ObjectType::Ball) + (if holds(
            t,
            ObjectType::Ball,
        ) {
            1nat
        } else {
            0nat
        }),
        count_holding(s.push(t), ObjectType::Player) == count_holding(s, ObjectType::Player) + (
        if holds(t, ObjectType::Player) {
            1nat
        } else {
            0nat
        }),
        count_goals(s.push(t)) == count_goals(s) + (if is_goal(t) {
            1nat
        } else {
            0nat
        }),
        count_matched(s.push(t)) == count_matched(s) + (if is_matched(t) {
            1nat
        } else {
            0nat
        }),
{
    lemma_count_push(s, t, |t: Tile| holds(t, ObjectType::Ball));
    lemma_count_push(s, t, |t: Tile| holds(t, ObjectType::Player));
    lemma_count_push(s, t, |t: Tile| is_goal(t));
    lemma_count_push(s, t, |t: Tile| is_matched(t));
}

} // verus!
