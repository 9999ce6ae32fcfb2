//! The stage: a grid of tiles, the player on it, and the goal bookkeeping.

use crate::grid::{
    first_invalid, glyph_tile, grid_text, grid_tiles, lemma_first_invalid_prefix,
    lemma_rows_error_later, row_error, row_tiles, row_views, rows_error, split_rows, text_error,
    text_rows, StageError,
};
use crate::tile::{
    count_goals, count_holding, count_matched, holds, is_goal, is_vacant, lemma_census_le_len,
    lemma_census_push, lemma_census_update, lemma_matched_positive, object_of, tile_glyph,
    tile_with, ObjectType, Tile,
};
use crate::text::{append_decimal, decimal};
use crate::vector2::Vector2;
use vstd::prelude::*;

verus! {

/// A direction the player can move in.
#[derive(Debug, Clone, Copy, PartialEq, Eq, Structural)]
pub enum Direction {
    Up,
    Down,
    Left,
    Right,
}

/// A failed relocation of one object. These never come out of a move on a
/// well-formed stage; seeing one means the stage's invariant was broken.
#[derive(Debug, Clone, Copy, PartialEq, Eq, Structural)]
pub enum InternalError {
    NoOpMove,
    DestinationOccupied,
    WallIsImmovable,
}

/// Why a move was refused.
#[derive(Debug, Clone, Copy, PartialEq, Eq, Structural)]
pub enum MoveError {
    BlockedByBoundary,
    BlockedByWall,
    BlockedByBall,
    BlockedByBoundaryBehindBall,
    Internal(InternalError),
}

/// The abstract state of a stage.
pub struct StageView {
    pub width: nat,
    pub height: nat,
    /// Row-major: the tile at `(x, y)` is `tiles[x + y * width]`.
    pub tiles: Seq<Tile>,
    pub player: (int, int),
    pub total_goals: nat,
    pub matched_goals: nat,
}

/// The unit step of a direction; `y` grows downward.
pub open spec fn delta(d: Direction) -> (int, int) {
    match d {
        Direction::Up => (0, -1),
        Direction::Down => (0, 1),
        Direction::Left => (-1, 0),
        Direction::Right => (1, 0),
    }
}

impl StageView {
    pub open spec fn in_bounds(self, x: int, y: int) -> bool {
        0 <= x < self.width && 0 <= y < self.height
    }

    pub open spec fn index(self, x: int, y: int) -> int {
        x + y * self.width
    }

    /// The invariant of a stage: one player, whose position is recorded, as many
    /// balls as goals, and the matched goals counted.
    pub open spec fn wf(self) -> bool {
        &&& 0 < self.width < i32::MAX
        &&& 0 < self.height < i32::MAX
        &&& self.tiles.len() == self.width * self.height
        &&& self.in_bounds(self.player.0, self.player.1)
        &&& holds(self.tiles[self.index(self.player.0, self.player.1)], ObjectType::Player)
        &&& count_holding(self.tiles, ObjectType::Player) == 1
        &&& count_holding(self.tiles, ObjectType::Ball) == self.total_goals
        &&& count_goals(self.tiles) == self.total_goals
        &&& count_matched(self.tiles) == self.matched_goals
    }

    pub open spec fn is_won(self) -> bool {
        self.matched_goals == self.total_goals
    }

    /// The player at `(x, y)`, the tile it left emptied and the one it entered
    /// holding it.
    pub open spec fn walk(self, tiles: Seq<Tile>, x: int, y: int) -> StageView {
        let p = self.index(self.player.0, self.player.1);
        let n = self.index(x, y);
        StageView {
            tiles: tiles.update(n, tile_with(tiles[n], ObjectType::Player)).update(
                p,
                tile_with(tiles[p], ObjectType::Empty),
            ),
            player: (x, y),
            ..self
        }
    }

    /// The outcome of one move in direction `d`.
    pub open spec fn step(self, d: Direction) -> Result<StageView, MoveError> {
        let (dx, dy) = delta(d);
        let (px, py) = self.player;
        let (nx, ny) = (px + dx, py + dy);
        if !self.in_bounds(nx, ny) {
            Err(MoveError::BlockedByBoundary)
        } else {
            let tn = self.tiles[self.index(nx, ny)];
            if tn == Tile::Wall {
                Err(MoveError::BlockedByWall)
            } else if holds(tn, ObjectType::Ball) {
                let (bx, by) = (px + 2 * dx, py + 2 * dy);
                if !self.in_bounds(bx, by) {
                    Err(MoveError::BlockedByBoundaryBehindBall)
                } else {
                    let b = self.index(bx, by);
                    let tb = self.tiles[b];
                    if !is_vacant(tb) {
                        Err(MoveError::BlockedByBall)
                    } else {
                        let pushed = self.tiles.update(b, tile_with(tb, ObjectType::Ball));
                        let matched = self.matched_goals + (if is_goal(tb) {
                            1int
                        } else {
                            0int
                        }) - (if is_goal(tn) {
                            1int
                        } else {
                            0int
                        });
                        Ok(StageView { matched_goals: matched as nat, ..self.walk(pushed, nx, ny) })
                    }
                }
            } else {
                Ok(self.walk(self.tiles, nx, ny))
            }
        }
    }
}

/// Distinct cells of a grid have distinct indices, inside the grid.
pub proof fn lemma_index(w: int, h: int, x1: int, y1: int, x2: int, y2: int)
    requires
        0 <= x1 < w,
        0 <= y1 < h,
        0 <= x2 < w,
        0 <= y2 < h,
    ensures
        0 <= x1 + y1 * w < w * h,
        0 <= x2 + y2 * w < w * h,
        (x1 + y1 * w == x2 + y2 * w) ==> (x1 == x2 && y1 == y2),
{
    assert(0 <= x1 + y1 * w < w * h) by (nonlinear_arith)
        requires
            0 <= x1 < w,
            0 <= y1 < h,
    ;
    assert(0 <= x2 + y2 * w < w * h) by (nonlinear_arith)
        requires
            0 <= x2 < w,
            0 <= y2 < h,
    ;
    assert((x1 + y1 * w == x2 + y2 * w) ==> (x1 == x2 && y1 == y2)) by (nonlinear_arith)
        requires
            0 <= x1 < w,
            0 <= x2 < w,
    ;
}

/// A move keeps the stage's invariant and its number of goals.
pub proof fn lemma_step_wf(v: StageView, d: Direction)
    requires
        v.wf(),
    ensures
        v.step(d) matches Ok(n) ==> n.wf() && n.total_goals == v.total_goals && n.width == v.width
            && n.height == v.height,
{
    let (dx, dy) = delta(d);
    let (px, py) = v.player;
    let (nx, ny) = (px + dx, py + dy);
    let w = v.width as int;
    let h = v.height as int;
    if v.in_bounds(nx, ny) {
        let p = v.index(px, py);
        let n = v.index(nx, ny);
        lemma_index(w, h, px, py, nx, ny);
        let tn = v.tiles[n];
        let tp = v.tiles[p];
        // the tile ahead cannot hold a second player
        lemma_census_update(v.tiles, p, Tile::Wall);
        lemma_census_update(v.tiles.update(p, Tile::Wall), n, Tile::Wall);
        assert(!holds(tn, ObjectType::Player));
        if tn != Tile::Wall {
            if holds(tn, ObjectType::Ball) {
                let (bx, by) = (px + 2 * dx, py + 2 * dy);
                if v.in_bounds(bx, by) {
                    let b = v.index(bx, by);
                    lemma_index(w, h, px, py, bx, by);
                    lemma_index(w, h, nx, ny, bx, by);
                    let tb = v.tiles[b];
                    if is_vacant(tb) {
                        let s1 = v.tiles.update(b, tile_with(tb, ObjectType::Ball));
                        let s2 = s1.update(n, tile_with(tn, ObjectType::Player));
                        let s3 = s2.update(p, tile_with(tp, ObjectType::Empty));
                        lemma_census_update(v.tiles, b, tile_with(tb, ObjectType::Ball));
                        lemma_census_update(s1, n, tile_with(tn, ObjectType::Player));
                        lemma_census_update(s2, p, tile_with(tp, ObjectType::Empty));
                        assert(s1[n] == tn);
                        assert(s2[p] == tp);
                        assert(s3[n] == tile_with(tn, ObjectType::Player));
                    }
                }
            } else {
                let s2 = v.tiles.update(n, tile_with(tn, ObjectType::Player));
                let s3 = s2.update(p, tile_with(tp, ObjectType::Empty));
                lemma_census_update(v.tiles, n, tile_with(tn, ObjectType::Player));
                lemma_census_update(s2, p, tile_with(tp, ObjectType::Empty));
                assert(s2[p] == tp);
                assert(s3[n] == tile_with(tn, ObjectType::Player));
            }
        }
    }
}

/// Moving the object on `from` onto `to`: refused when the two are one cell,
/// when either is a wall, or when `to` already holds something.
pub open spec fn relocation(s: Seq<Tile>, from: int, to: int) -> Result<Seq<Tile>, InternalError> {
    if from == to {
        Err(InternalError::NoOpMove)
    } else if s[to] == Tile::Wall {
        Err(InternalError::WallIsImmovable)
    } else if !is_vacant(s[to]) {
        Err(InternalError::DestinationOccupied)
    } else if s[from] == Tile::Wall {
        Err(InternalError::WallIsImmovable)
    } else {
        Ok(
            s.update(to, tile_with(s[to], object_of(s[from]))).update(
                from,
                tile_with(s[from], ObjectType::Empty),
            ),
        )
    }
}

/// A game stage: a rectangular grid of tiles with one player on it.
#[derive(Debug)]
pub struct Stage {
    width: usize,
    height: usize,
    data: Vec<Tile>,
    player_position: Vector2,
    total_goals: usize,
    matched_goals: usize,
}

impl View for Stage {
    type V = StageView;

    closed spec fn view(&self) -> StageView {
        StageView {
            width: self.width as nat,
            height: self.height as nat,
            tiles: self.data@,
            player: (self.player_position.x as int, self.player_position.y as int),
            total_goals: self.total_goals as nat,
            matched_goals: self.matched_goals as nat,
        }
    }
}

/// The status line under the grid.
pub open spec fn status_line(v: StageView) -> Seq<char> {
    "Matched goal(s): "@ + decimal(v.matched_goals) + seq!['/'] + decimal(v.total_goals)
        + seq!['\n']
}

/// The text form of a stage: its rows of glyphs, then the status line.
pub open spec fn render_text(v: StageView) -> Seq<char> {
    grid_text(v.tiles, v.width) + status_line(v)
}

fn glyph_str(t: Tile) -> (r: &'static str)
    ensures
        r@ == seq![tile_glyph(t)],
{
    proof {
        reveal_strlit("#");
        reveal_strlit(".");
        reveal_strlit("O");
        reveal_strlit("+");
        reveal_strlit("$");
        reveal_strlit("@");
    }
    match t {
        Tile::Wall => "#",
        Tile::Plain(ObjectType::Empty) => ".",
        Tile::Plain(ObjectType::Ball) => "O",
        Tile::Goal(ObjectType::Empty) => "+",
        Tile::Goal(ObjectType::Ball) => "$",
        Tile::Plain(ObjectType::Player) | Tile::Goal(ObjectType::Player) => "@",
    }
}

/// `v` is the stage that text `s` describes: its rows of glyphs, no ball yet on a goal.
pub open spec fn parsed_from(v: StageView, s: Seq<char>) -> bool {
    let rows = text_rows(s);
    &&& v.wf()
    &&& v.width == rows[0].len()
    &&& v.height == rows.len()
    &&& v.tiles == grid_tiles(rows)
    &&& v.matched_goals == 0
}

impl Stage {
    /// The stage's invariant, which every public operation keeps.
    pub open spec fn inv(&self) -> bool {
        self@.wf()
    }

    /// Reads a stage from text: one row per line, one glyph per cell (`#` a wall,
    /// `.` an empty plain, `O` a ball, `+` a goal, `@` the player). `'\r'` is
    /// ignored.
    pub fn new(text: &str) -> (r: Result<Stage, StageError>)
        requires
            text@.len() < i32::MAX,
        ensures
            match text_error(text@) {
                Some(e) => r == Err::<Stage, StageError>(e),
                None => r matches Ok(st) && parsed_from(st@, text@),
            },
    {
        let rows = split_rows(text);
        let ghost rv = text_rows(text@);
        let mut data: Vec<Tile> = Vec::new();
        let mut width: usize = 0;
        let mut balls: usize = 0;
        let mut goals: usize = 0;
        let mut players: usize = 0;
        let mut player_position = Vector2::new(0, 0);
        let mut y: usize = 0;
        while y < rows.len()
            invariant
                row_views(rows@) == rv,
                rv == text_rows(text@),
                rv.len() <= text@.len() < i32::MAX,
                forall|k: int| 0 <= k < rv.len() ==> #[trigger] rv[k].len() <= text@.len(),
                y <= rv.len(),
                rows_error(rv, y as int) is None,
                y > 0 ==> width == rv[0].len(),
                forall|k: int| 0 <= k < y ==> #[trigger] rv[k].len() == width,
                data@ == grid_tiles(rv.take(y as int)),
                data@.len() == y * width,
                balls == count_holding(data@, ObjectType::Ball),
                goals == count_goals(data@),
                players == count_holding(data@, ObjectType::Player),
                count_matched(data@) == 0,
                players > 0 ==> 0 <= player_position.x < width && 0 <= player_position.y < y
                    && player_position.x + player_position.y * width < data@.len() && holds(
                    data@[player_position.x + player_position.y * width],
                    ObjectType::Player,
                ),
            decreases rv.len() - y,
        {
            let row = &rows[y];
            assert(row@ == rv[y as int]);
            if y == 0 {
                width = row.len();
            } else if row.len() != width {
                let e = StageError::InconsistentWidth { row: y, expected: width, found: row.len() };
                assert(row_error(rv, y as int) == Some(e));
                proof {
                    lemma_rows_error_later(rv, y as int, rv.len() as int);
                }
                return Err(
                    StageError::InconsistentWidth { row: y, expected: width, found: row.len() },
                );
            }
            let mut x: usize = 0;
            while x < row.len()
                invariant
                    row_views(rows@) == rv,
                    rv == text_rows(text@),
                rv == text_rows(text@),
                    row@ == rv[y as int],
                    rv.len() <= text@.len() < i32::MAX,
                    forall|k: int| 0 <= k < rv.len() ==> #[trigger] rv[k].len() <= text@.len(),
                    y < rv.len(),
                    rows_error(rv, y as int) is None,
                    width == rv[0].len(),
                    row@.len() == width,
                    x <= width,
                    data@ == grid_tiles(rv.take(y as int)) + row_tiles(row@.take(x as int)),
                    data@.len() == y * width + x,
                    first_invalid(row@.take(x as int)) is None,
                    balls == count_holding(data@, ObjectType::Ball),
                    goals == count_goals(data@),
                    players == count_holding(data@, ObjectType::Player),
                    count_matched(data@) == 0,
                    players > 0 ==> 0 <= player_position.x < width && 0 <= player_position.y <= y
                        && player_position.x + player_position.y * width < data@.len() && holds(
                        data@[player_position.x + player_position.y * width],
                        ObjectType::Player,
                    ),
                decreases width - x,
            {
                let c = row[x];
                assert(row@.take(x + 1).drop_last() =~= row@.take(x as int));
                let tile = match c {
                    '#' => Tile::Wall,
                    '.' => Tile::Plain(ObjectType::Empty),
                    'O' => Tile::Plain(ObjectType::Ball),
                    '+' => Tile::Goal(ObjectType::Empty),
                    '@' => Tile::Plain(ObjectType::Player),
                    _ => {
                        proof {
                            lemma_first_invalid_prefix(row@, x + 1);
                            assert(first_invalid(row@) == Some(x as int));
                            assert(row_error(rv, y as int) == Some(
                                StageError::InvalidCharacter { row: y, column: x, character: c },
                            ));
                            lemma_rows_error_later(rv, y as int, rv.len() as int);
                        }
                        return Err(
                            StageError::InvalidCharacter { row: y, column: x, character: c },
                        );
                    },
                };
                proof {
                    lemma_census_push(data@, tile);
                }
                let ghost old_data = data@;
                data.push(tile);
                proof {
                    lemma_census_le_len(data@);
                    assert(row_tiles(row@.take(x + 1)) =~= row_tiles(row@.take(x as int)).push(
                        glyph_tile(c),
                    ));
                    assert(data@ =~= grid_tiles(rv.take(y as int)) + row_tiles(row@.take(x + 1)));
                }
                let _ = data.len();
                if c == 'O' {
                    balls = balls + 1;
                } else if c == '+' {
                    goals = goals + 1;
                } else if c == '@' {
                    players = players + 1;
                    player_position.set(x as i32, y as i32);
                }
                x = x + 1;
            }
            proof {
                assert(row@.take(x as int) =~= row@);
                assert(rv.take(y + 1).drop_last() =~= rv.take(y as int));
                assert(rv.take(y + 1).last() == rv[y as int]);
                assert(data@ =~= grid_tiles(rv.take(y + 1)));
                assert((y + 1) * width == y * width + width) by (nonlinear_arith);
            }
            y = y + 1;
        }
        proof {
            assert(rv.take(rv.len() as int) =~= rv);
        }
        if width == 0 || rows.len() == 0 {
            return Err(StageError::EmptyStage);
        }
        if balls != goals {
            return Err(StageError::GoalBallMismatch { balls, goals });
        }
        if players != 1 {
            return Err(StageError::PlayerCountInvalid { players });
        }
        proof {
            assert(data@.len() == width * rows.len()) by (nonlinear_arith)
                requires
                    data@.len() == y * width,
                    y == rows.len(),
            ;
        }
        Ok(
            Stage {
                width,
                height: rows.len(),
                data,
                player_position,
                total_goals: goals,
                matched_goals: 0,
            },
        )
    }

    /// Draws the stage: each row of tiles on a line of its own, then
    /// `Matched goal(s): <matched>/<total>`.
    pub fn render(&self) -> (r: String)
        requires
            self.inv(),
        ensures
            r@ == render_text(self@),
    {
        let ghost tiles = self.data@;
        let w = self.width;
        let n = self.data.len();
        let mut out = String::new();
        let mut base: usize = 0;
        let mut y: usize = 0;
        assert(tiles.take(0) =~= Seq::<Tile>::empty());
        while y < self.height
            invariant
                self.inv(),
                tiles == self.data@,
                n == tiles.len(),
                w == self.width,
                y <= self.height,
                base == y * w,
                out@ == grid_text(tiles.take(base as int), w as nat),
            decreases self.height - y,
        {
            proof {
                assert((y + 1) * w <= w * self.height) by (nonlinear_arith)
                    requires
                        y < self.height,
                ;
                assert((y + 1) * w == y * w + w) by (nonlinear_arith);
                assert(base + w <= tiles.len());
                assert(out@ =~= grid_text(tiles.take(base as int), w as nat) + tiles.subrange(
                    base as int,
                    base as int,
                ).map_values(|t: Tile| tile_glyph(t)));
            }
            let mut x: usize = 0;
            while x < w
                invariant
                    self.inv(),
                    tiles == self.data@,
                    n == tiles.len(),
                    w == self.width,
                    x <= w,
                    base + w <= tiles.len(),
                    out@ == grid_text(tiles.take(base as int), w as nat) + tiles.subrange(
                        base as int,
                        base + x,
                    ).map_values(|t: Tile| tile_glyph(t)),
                decreases w - x,
            {
                let ghost before = out@;
                out.append(glyph_str(self.data[base + x]));
                let ghost row = tiles.subrange(base as int, base + x + 1);
                assert(row.map_values(|t: Tile| tile_glyph(t)) =~= tiles.subrange(
                    base as int,
                    base + x,
                ).map_values(|t: Tile| tile_glyph(t)).push(tile_glyph(tiles[base + x])));
                assert(out@ =~= grid_text(tiles.take(base as int), w as nat) + tiles.subrange(
                    base as int,
                    base + x + 1,
                ).map_values(|t: Tile| tile_glyph(t)));
                x = x + 1;
            }
            out.append("\n");
            proof {
                reveal_strlit("\n");
                let next = tiles.take(base + w);
                assert(next.take(base as int) =~= tiles.take(base as int));
                assert(next.skip(base as int) =~= tiles.subrange(base as int, base + w));
                assert(out@ =~= grid_text(next, w as nat));
            }
            base = base + w;
            y = y + 1;
        }
        proof {
            assert(base == w * self.height) by (nonlinear_arith)
                requires
                    base == y * w,
                    y == self.height,
            ;
            assert(tiles.take(base as int) =~= tiles);
        }
        out.append("Matched goal(s): ");
        append_decimal(&mut out, self.matched_goals as u64);
        out.append("/");
        append_decimal(&mut out, self.total_goals as u64);
        out.append("\n");
        proof {
            reveal_strlit("/");
            reveal_strlit("\n");
            assert(out@ =~= render_text(self@));
        }
        out
    }

    pub fn width(&self) -> (r: usize)
        ensures
            r == self@.width,
    {
        self.width
    }

    pub fn height(&self) -> (r: usize)
        ensures
            r == self@.height,
    {
        self.height
    }

    pub fn player_position(&self) -> (r: Vector2)
        ensures
            (r.x as int, r.y as int) == self@.player,
    {
        self.player_position
    }

    pub fn total_goals(&self) -> (r: usize)
        ensures
            r == self@.total_goals,
    {
        self.total_goals
    }

    pub fn matched_goals(&self) -> (r: usize)
        ensures
            r == self@.matched_goals,
    {
        self.matched_goals
    }

    /// The tile at `point`, which must lie inside the grid.
    pub fn index(&self, point: Vector2) -> (r: &Tile)
        requires
            self.inv(),
            self@.in_bounds(point.x as int, point.y as int),
        ensures
            *r == self@.tiles[self@.index(point.x as int, point.y as int)],
    {
        match self.vector2_as_index(point) {
            Some(i) => &self.data[i],
            None => &self.data[0],
        }
    }

    /// Whether every goal holds a ball. A stage without goals is won from the start.
    pub fn is_won(&self) -> (r: bool)
        ensures
            r == self@.is_won(),
    {
        self.matched_goals == self.total_goals
    }

    /// The flat index of the cell at `v`, or `None` when `v` lies outside the grid.
    fn vector2_as_index(&self, v: Vector2) -> (r: Option<usize>)
        requires
            self.data@.len() == self.width * self.height,
        ensures
            r is Some <==> self@.in_bounds(v.x as int, v.y as int),
            r matches Some(i) ==> i as int == self@.index(v.x as int, v.y as int) && i
                < self.data@.len(),
    {
        if v.x < 0 || v.y < 0 {
            return None;
        }
        let x = v.x as usize;
        let y = v.y as usize;
        let _ = self.data.len();
        if x < self.width && y < self.height {
            proof {
                lemma_index(self.width as int, self.height as int, x as int, y as int, 0, 0);
            }
            Some(x + y * self.width)
        } else {
            None
        }
    }

    /// Moves the object on tile `from` onto tile `to`, as a single step.
    fn move_object(&mut self, from: usize, to: usize) -> (r: Result<(), InternalError>)
        requires
            from < old(self).data@.len(),
            to < old(self).data@.len(),
        ensures
            final(self).width == old(self).width,
            final(self).height == old(self).height,
            final(self).player_position == old(self).player_position,
            final(self).total_goals == old(self).total_goals,
            final(self).matched_goals == old(self).matched_goals,
            match relocation(old(self).data@, from as int, to as int) {
                Ok(s) => r is Ok && final(self).data@ == s,
                Err(e) => r == Err::<(), InternalError>(e) && final(self).data@ == old(self).data@,
            },
    {
        if from == to {
            return Err(InternalError::NoOpMove);
        }
        let to_tile = self.data[to];
        let from_tile = self.data[from];
        let moving = match to_tile {
            Tile::Wall => {
                return Err(InternalError::WallIsImmovable);
            },
            Tile::Plain(ObjectType::Empty) | Tile::Goal(ObjectType::Empty) => match from_tile {
                Tile::Wall => {
                    return Err(InternalError::WallIsImmovable);
                },
                Tile::Plain(o) | Tile::Goal(o) => o,
            },
            _ => {
                return Err(InternalError::DestinationOccupied);
            },
        };
        self.data.set(to, to_tile.with(moving));
        self.data.set(from, from_tile.with(ObjectType::Empty));
        Ok(())
    }

    /// Moves the player one cell in direction `dir`, pushing a ball that stands
    /// in the way one cell further. A refused move changes nothing.
    #[verifier::rlimit(50)]
    pub fn move_player(&mut self, dir: Direction) -> (r: Result<(), MoveError>)
        requires
            old(self).inv(),
        ensures
            final(self).inv(),
            r matches Err(e) ==> !(e is Internal),
            match old(self)@.step(dir) {
                Ok(v) => r is Ok && final(self)@ == v,
                Err(e) => r == Err::<(), MoveError>(e) && final(self)@ == old(self)@,
            },
    {
        proof {
            lemma_step_wf(self@, dir);
        }
        let delta_pos = match dir {
            Direction::Up => Vector2::new(0, -1),
            Direction::Down => Vector2::new(0, 1),
            Direction::Left => Vector2::new(-1, 0),
            Direction::Right => Vector2::new(1, 0),
        };
        let ghost v0 = self@;
        let pos = match self.vector2_as_index(self.player_position) {
            Some(i) => i,
            None => {
                return Err(MoveError::BlockedByBoundary);
            },
        };
        let next = self.player_position + delta_pos;
        assert(next.x == v0.player.0 + delta(dir).0 && next.y == v0.player.1 + delta(dir).1);
        let next_pos = match self.vector2_as_index(next) {
            Some(i) => i,
            None => {
                return Err(MoveError::BlockedByBoundary);
            },
        };
        proof {
            lemma_index(
                v0.width as int,
                v0.height as int,
                v0.player.0,
                v0.player.1,
                v0.player.0 + delta(dir).0,
                v0.player.1 + delta(dir).1,
            );
        }
        let next_tile = self.data[next_pos];
        match next_tile {
            Tile::Wall => Err(MoveError::BlockedByWall),
            Tile::Plain(ObjectType::Ball) | Tile::Goal(ObjectType::Ball) => {
                let beyond = next + delta_pos;
                assert(beyond.x == v0.player.0 + 2 * delta(dir).0 && beyond.y == v0.player.1 + 2
                    * delta(dir).1);
                let beyond_pos = match self.vector2_as_index(beyond) {
                    Some(i) => i,
                    None => {
                        return Err(MoveError::BlockedByBoundaryBehindBall);
                    },
                };
                proof {
                    lemma_index(
                        v0.width as int,
                        v0.height as int,
                        v0.player.0 + delta(dir).0,
                        v0.player.1 + delta(dir).1,
                        v0.player.0 + 2 * delta(dir).0,
                        v0.player.1 + 2 * delta(dir).1,
                    );
                }
                let beyond_is_goal = match self.data[beyond_pos] {
                    Tile::Goal(_) => true,
                    _ => false,
                };
                match self.move_object(next_pos, beyond_pos) {
                    Ok(()) => {},
                    Err(_) => {
                        return Err(MoveError::BlockedByBall);
                    },
                }
                let ghost s1 = self.data@;
                match self.move_object(pos, next_pos) {
                    Ok(()) => {},
                    Err(e) => {
                        return Err(MoveError::Internal(e));
                    },
                }
                self.player_position = self.player_position + delta_pos;
                proof {
                    let (dx, dy) = delta(dir);
                    let b = beyond_pos as int;
                    let n = next_pos as int;
                    let p = pos as int;
                    let s3 = self.data@;
                    let pushed = v0.tiles.update(b, tile_with(v0.tiles[b], ObjectType::Ball));
                    assert(s3 =~= v0.walk(pushed, v0.player.0 + dx, v0.player.1 + dy).tiles);
                    lemma_census_le_len(s3);
                    if is_goal(next_tile) {
                        lemma_matched_positive(v0.tiles, n);
                    }
                }
                let _ = self.data.len();
                if let Tile::Goal(_) = next_tile {
                    self.matched_goals = self.matched_goals - 1;
                }
                if beyond_is_goal {
                    self.matched_goals = self.matched_goals + 1;
                }
                Ok(())
            },
            _ => {
                proof {
                    lemma_census_update(v0.tiles, pos as int, Tile::Wall);
                    lemma_census_update(
                        v0.tiles.update(pos as int, Tile::Wall),
                        next_pos as int,
                        Tile::Wall,
                    );
                }
                match self.move_object(pos, next_pos) {
                    Ok(()) => {},
                    Err(e) => {
                        return Err(MoveError::Internal(e));
                    },
                }
                self.player_position = self.player_position + delta_pos;
                proof {
                    let (dx, dy) = delta(dir);
                    let moved = v0.walk(v0.tiles, v0.player.0 + dx, v0.player.1 + dy);
                    assert(self.data@ =~= moved.tiles);
                }
                Ok(())
            },
        }
    }
}

} // verus!
