//! The text form of a stage: rows of glyphs, and what makes a text invalid.

use crate::tile::{count_goals, count_holding, tile_glyph, ObjectType, Tile};
use vstd::prelude::*;

verus! {

/// Why a text is not a valid stage.
#[derive(Debug, Clone, Copy, PartialEq, Eq, Structural)]
pub enum StageError {
    /// Row `row` has `found` cells where the first row has `expected`.
    InconsistentWidth { row: usize, expected: usize, found: usize },
    /// The character `character` at `column` of row `row` is not a glyph.
    InvalidCharacter { row: usize, column: usize, character: char },
    /// The text has no rows, or its first row is empty.
    EmptyStage,
    /// The grid holds `balls` balls but `goals` goals.
    GoalBallMismatch { balls: usize, goals: usize },
    /// The grid holds `players` players instead of one.
    PlayerCountInvalid { players: usize },
}

/// The characters that stand for a cell.
pub open spec fn is_glyph(c: char) -> bool {
    c == '#' || c == '.' || c == 'O' || c == '+' || c == '@'
}

/// The tile a glyph stands for.
pub open spec fn glyph_tile(c: char) -> Tile {
    if c == '#' {
        Tile::Wall
    } else if c == '.' {
        Tile::Plain(ObjectType::Empty)
    } else if c == 'O' {
        Tile::Plain(ObjectType::Ball)
    } else if c == '+' {
        Tile::Goal(ObjectType::Empty)
    } else {
        Tile::Plain(ObjectType::Player)
    }
}

/// The text cut at each `'\n'`, with every `'\r'` left out. There is always at
/// least one segment, the last one possibly empty.
pub open spec fn segments(s: Seq<char>) -> Seq<Seq<char>>
    decreases s.len(),
{
    if s.len() == 0 {
        seq![Seq::<char>::empty()]
    } else {
        let p = segments(s.drop_last());
        let c = s.last();
        if c == '\n' {
            p.push(Seq::<char>::empty())
        } else if c == '\r' {
            p
        } else {
            p.update(p.len() - 1, p.last().push(c))
        }
    }
}

/// The rows of a text: its lines, where a final line break ends the last line
/// rather than starting an empty one.
pub open spec fn text_rows(s: Seq<char>) -> Seq<Seq<char>> {
    if s.len() == 0 {
        Seq::empty()
    } else if s.last() == '\n' {
        segments(s).drop_last()
    } else {
        segments(s)
    }
}

/// The position of the first character of `r` that is not a glyph.
pub open spec fn first_invalid(r: Seq<char>) -> Option<int>
    decreases r.len(),
{
    if r.len() == 0 {
        None
    } else {
        match first_invalid(r.drop_last()) {
            Some(i) => Some(i),
            None => if is_glyph(r.last()) {
                None
            } else {
                Some(r.len() - 1)
            },
        }
    }
}

/// What is wrong with row `y` on its own: a width other than the first row's,
/// else a character that is not a glyph.
pub open spec fn row_error(rows: Seq<Seq<char>>, y: int) -> Option<StageError> {
    if y > 0 && rows[y].len() != rows[0].len() {
        Some(
            StageError::InconsistentWidth {
                row: y as usize,
                expected: rows[0].len() as usize,
                found: rows[y].len() as usize,
            },
        )
    } else {
        match first_invalid(rows[y]) {
            Some(x) => Some(
                StageError::InvalidCharacter {
                    row: y as usize,
                    column: x as usize,
                    character: rows[y][x],
                },
            ),
            None => None,
        }
    }
}

/// The error of the first faulty row among the first `n`.
pub open spec fn rows_error(rows: Seq<Seq<char>>, n: int) -> Option<StageError>
    decreases n,
{
    if n <= 0 {
        None
    } else {
        match rows_error(rows, n - 1) {
            Some(e) => Some(e),
            None => row_error(rows, n - 1),
        }
    }
}

pub open spec fn row_tiles(r: Seq<char>) -> Seq<Tile> {
    r.map_values(|c: char| glyph_tile(c))
}

/// The tiles of all rows, row after row.
pub open spec fn grid_tiles(rows: Seq<Seq<char>>) -> Seq<Tile>
    decreases rows.len(),
{
    if rows.len() == 0 {
        Seq::empty()
    } else {
        grid_tiles(rows.drop_last()) + row_tiles(rows.last())
    }
}

/// Why `s` is not a valid stage, checked in this order: the rows one by one,
/// then emptiness, then balls against goals, then the number of players.
pub open spec fn text_error(s: Seq<char>) -> Option<StageError> {
    let rows = text_rows(s);
    match rows_error(rows, rows.len() as int) {
        Some(e) => Some(e),
        None => {
            let t = grid_tiles(rows);
            let balls = count_holding(t, ObjectType::Ball);
            let goals = count_goals(t);
            let players = count_holding(t, ObjectType::Player);
            if rows.len() == 0 || rows[0].len() == 0 {
                Some(StageError::EmptyStage)
            } else if balls != goals {
                Some(StageError::GoalBallMismatch { balls: balls as usize, goals: goals as usize })
            } else if players != 1 {
                Some(StageError::PlayerCountInvalid { players: players as usize })
            } else {
                None
            }
        },
    }
}

/// The rows of a grid of width `w`, each drawn with its glyphs and ended by `'\n'`.
pub open spec fn grid_text(tiles: Seq<Tile>, w: nat) -> Seq<char>
    decreases tiles.len(),
{
    if w == 0 || tiles.len() < w {
        Seq::empty()
    } else {
        grid_text(tiles.take(tiles.len() - w), w) + tiles.skip(tiles.len() - w).map_values(
            |t: Tile| tile_glyph(t),
        ) + seq!['\n']
    }
}

/// The rows, each ended by `'\n'`.
pub open spec fn joined(rows: Seq<Seq<char>>) -> Seq<char>
    decreases rows.len(),
{
    if rows.len() == 0 {
        Seq::empty()
    } else {
        joined(rows.drop_last()) + rows.last() + seq!['\n']
    }
}

pub proof fn lemma_first_invalid_prefix(r: Seq<char>, k: int)
    requires
        0 <= k <= r.len(),
        first_invalid(r.take(k)) is Some,
    ensures
        first_invalid(r) == first_invalid(r.take(k)),
    decreases r.len(),
{
    if k == r.len() {
        assert(r.take(k) =~= r);
    } else {
        assert(r.drop_last().take(k) =~= r.take(k));
        lemma_first_invalid_prefix(r.drop_last(), k);
    }
}

pub proof fn lemma_first_invalid_none(r: Seq<char>)
    requires
        first_invalid(r) is None,
    ensures
        forall|i: int| 0 <= i < r.len() ==> is_glyph(#[trigger] r[i]),
    decreases r.len(),
{
    if r.len() > 0 {
        lemma_first_invalid_none(r.drop_last());
        assert forall|i: int| 0 <= i < r.len() implies is_glyph(#[trigger] r[i]) by {
            if i < r.len() - 1 {
                assert(r[i] == r.drop_last()[i]);
            }
        }
    }
}

/// Once a row is faulty, the first error among more rows is its error.
pub proof fn lemma_rows_error_later(rows: Seq<Seq<char>>, y: int, n: int)
    requires
        0 <= y < n,
        rows_error(rows, y) is None,
        row_error(rows, y) is Some,
    ensures
        rows_error(rows, n) == row_error(rows, y),
    decreases n,
{
    if n > y + 1 {
        lemma_rows_error_later(rows, y, n - 1);
    }
}

pub proof fn lemma_rows_error_none(rows: Seq<Seq<char>>, n: int)
    requires
        rows_error(rows, n) is None,
    ensures
        forall|y: int| 0 <= y < n ==> #[trigger] row_error(rows, y) is None,
    decreases n,
{
    if n > 0 {
        lemma_rows_error_none(rows, n - 1);
    }
}

pub open spec fn row_views(rows: Seq<Vec<char>>) -> Seq<Seq<char>> {
    rows.map_values(|r: Vec<char>| r@)
}

/// Cuts `text` into its rows.
pub fn split_rows(text: &str) -> (rows: Vec<Vec<char>>)
    requires
        text@.len() < i32::MAX,
    ensures
        row_views(rows@) == text_rows(text@),
        rows@.len() <= text@.len(),
        forall|y: int| 0 <= y < rows@.len() ==> #[trigger] rows@[y]@.len() <= text@.len(),
{
    let mut done: Vec<Vec<char>> = Vec::new();
    let mut cur: Vec<char> = Vec::new();
    let mut ended_by_newline = false;
    let mut seen_any = false;
    for c in it: text.chars()
        invariant
            it.seq() == text@,
            text@.len() < i32::MAX,
            row_views(done@).push(cur@) == segments(text@.take(it.index() as int)),
            ended_by_newline == (it.index() > 0 && text@[it.index() - 1] == '\n'),
            ended_by_newline ==> cur@.len() == 0,
            seen_any == (it.index() > 0),
            done@.len() <= it.index(),
            cur@.len() <= it.index(),
            it.index() > 0 && !ended_by_newline ==> done@.len() < it.index(),
            forall|y: int| 0 <= y < done@.len() ==> #[trigger] done@[y]@.len() <= it.index(),
    {
        let ghost i = it.index() as int;
        let ghost before = row_views(done@).push(cur@);
        assert(text@.take(i + 1).drop_last() =~= text@.take(i));
        seen_any = true;
        if c == '\n' {
            done.push(cur);
            cur = Vec::new();
            ended_by_newline = true;
            assert(row_views(done@).push(cur@) =~= before.push(Seq::<char>::empty()));
        } else if c == '\r' {
            ended_by_newline = false;
        } else {
            cur.push(c);
            ended_by_newline = false;
            assert(row_views(done@).push(cur@) =~= before.update(
                before.len() - 1,
                before.last().push(c),
            ));
        }
    }
    assert(text@.take(text@.len() as int) =~= text@);
    if !ended_by_newline && seen_any {
        done.push(cur);
    }
    proof {
        if text@.len() == 0 {
            assert(row_views(done@) =~= text_rows(text@));
        } else if ended_by_newline {
            assert(row_views(done@) =~= segments(text@).drop_last());
        } else {
            assert(row_views(done@) =~= segments(text@));
        }
    }
    done
}

} // verus!
