//! Properties of stages that hold over all inputs and all sequences of moves.

use crate::grid::{
    first_invalid, glyph_tile, grid_text, grid_tiles, is_glyph, joined, lemma_first_invalid_none,
    lemma_rows_error_none, row_error, row_tiles, text_error, text_rows,
};
use crate::stage::{delta, lemma_index, lemma_step_wf, parsed_from, Direction, MoveError, StageView};
use crate::tile::{
    count_holding, count_matched, count_tiles, holds, is_goal, is_matched, is_vacant,
    lemma_matched_positive, tile_glyph, ObjectType, Tile,
};
use vstd::prelude::*;

verus! {

/// The stage after the moves `ds`, one after another; a refused move changes nothing.
pub open spec fn after_moves(v: StageView, ds: Seq<Direction>) -> StageView
    decreases ds.len(),
{
    if ds.len() == 0 {
        v
    } else {
        let w = after_moves(v, ds.drop_last());
        match w.step(ds.last()) {
            Ok(n) => n,
            Err(_) => w,
        }
    }
}

proof fn lemma_grid_text_rows(rows: Seq<Seq<char>>, w: nat)
    requires
        w > 0,
        forall|y: int| 0 <= y < rows.len() ==> (#[trigger] rows[y]).len() == w,
        forall|y: int, x: int|
            0 <= y < rows.len() && 0 <= x < w ==> is_glyph(#[trigger] rows[y][x]),
    ensures
        grid_text(grid_tiles(rows), w) == joined(rows),
    decreases rows.len(),
{
    if rows.len() > 0 {
        let front = rows.drop_last();
        let last = rows.last();
        assert forall|y: int, x: int| 0 <= y < front.len() && 0 <= x < w implies is_glyph(
            #[trigger] front[y][x],
        ) by {
            assert(front[y] == rows[y]);
        }
        lemma_grid_text_rows(front, w);
        let t = grid_tiles(rows);
        let k = t.len() - w;
        assert(row_tiles(last).len() == w);
        assert(t.take(k) =~= grid_tiles(front));
        assert(t.skip(k) =~= row_tiles(last));
        assert forall|x: int| 0 <= x < w implies tile_glyph(glyph_tile(last[x])) == last[x] by {
            assert(is_glyph(rows[rows.len() - 1][x]));
        }
        assert(row_tiles(last).map_values(|t: Tile| tile_glyph(t)) =~= last);
    }
}

/// Parsing a valid text and drawing the stage gives back its rows of glyphs,
/// each ended by a line break (a ball on a goal is drawn as `$`, but no ball
/// starts on a goal).
pub proof fn lemma_parse_round_trip(s: Seq<char>, v: StageView)
    requires
        text_error(s) is None,
        parsed_from(v, s),
    ensures
        grid_text(v.tiles, v.width) == joined(text_rows(s)),
{
    let rows = text_rows(s);
    lemma_rows_error_none(rows, rows.len() as int);
    assert forall|y: int| 0 <= y < rows.len() implies (#[trigger] rows[y]).len() == v.width by {
        assert(row_error(rows, y) is None);
    }
    assert forall|y: int, x: int| 0 <= y < rows.len() && 0 <= x < v.width implies is_glyph(
        #[trigger] rows[y][x],
    ) by {
        assert(row_error(rows, y) is None);
        assert(first_invalid(rows[y]) is None);
        lemma_first_invalid_none(rows[y]);
    }
    lemma_grid_text_rows(rows, v.width);
}

/// Over any sequence of moves the stage keeps one player, and exactly as many
/// balls as it had goals when it was made.
pub proof fn lemma_moves_conserve(v: StageView, ds: Seq<Direction>)
    requires
        v.wf(),
    ensures
        after_moves(v, ds).wf(),
        after_moves(v, ds).total_goals == v.total_goals,
        count_holding(after_moves(v, ds).tiles, ObjectType::Ball) == v.total_goals,
        count_holding(after_moves(v, ds).tiles, ObjectType::Player) == 1,
    decreases ds.len(),
{
    if ds.len() > 0 {
        lemma_moves_conserve(v, ds.drop_last());
        lemma_step_wf(after_moves(v, ds.drop_last()), ds.last());
    }
}

proof fn lemma_count_implies(s: Seq<Tile>, f: spec_fn(Tile) -> bool, g: spec_fn(Tile) -> bool)
    requires
        forall|t: Tile| #[trigger] f(t) ==> g(t),
    ensures
        count_tiles(s, f) <= count_tiles(s, g),
    decreases s.len(),
{
    if s.len() > 0 {
        lemma_count_implies(s.drop_last(), f, g);
    }
}

/// A well-formed stage never has more matched goals than goals.
pub proof fn lemma_matched_le_total(v: StageView)
    requires
        v.wf(),
    ensures
        v.matched_goals <= v.total_goals,
{
    lemma_count_implies(v.tiles, |t: Tile| is_matched(t), |t: Tile| is_goal(t));
}

/// A push moves a ball from the cell ahead to the cell beyond it. The count of
/// matched goals goes up by one when the ball lands on a goal from a plain
/// tile, down by one when it leaves a goal for a plain tile, and otherwise
/// stays; a move without a push leaves it alone.
pub proof fn lemma_push_accounting(v: StageView, d: Direction)
    requires
        v.wf(),
        v.step(d) is Ok,
    ensures
        ({
            let n = v.step(d)->Ok_0;
            let (dx, dy) = delta(d);
            let ahead = v.tiles[v.index(v.player.0 + dx, v.player.1 + dy)];
            let beyond = v.tiles[v.index(v.player.0 + 2 * dx, v.player.1 + 2 * dy)];
            &&& n.matched_goals == count_matched(n.tiles)
            &&& n.is_won() == (n.matched_goals == n.total_goals)
            &&& holds(ahead, ObjectType::Ball) && is_goal(beyond) && !is_goal(ahead)
                ==> n.matched_goals == v.matched_goals + 1
            &&& holds(ahead, ObjectType::Ball) && !is_goal(beyond) && is_goal(ahead)
                ==> n.matched_goals == v.matched_goals - 1
            &&& holds(ahead, ObjectType::Ball) && is_goal(beyond) == is_goal(ahead)
                ==> n.matched_goals == v.matched_goals
            &&& !holds(ahead, ObjectType::Ball) ==> n.matched_goals == v.matched_goals
        }),
{
    lemma_step_wf(v, d);
    let (dx, dy) = delta(d);
    let n = v.index(v.player.0 + dx, v.player.1 + dy);
    lemma_index(v.width as int, v.height as int, v.player.0 + dx, v.player.1 + dy, 0, 0);
    if is_matched(v.tiles[n]) {
        lemma_matched_positive(v.tiles, n);
    }
}

/// A move toward the edge of the grid is refused as blocked by the boundary.
pub proof fn lemma_boundary_rejection(v: StageView, d: Direction)
    requires
        v.wf(),
        !v.in_bounds(v.player.0 + delta(d).0, v.player.1 + delta(d).1),
    ensures
        v.step(d) == Err::<StageView, MoveError>(MoveError::BlockedByBoundary),
{
}

/// A ball with the edge of the grid, a wall or another object behind it cannot
/// be pushed.
pub proof fn lemma_blocked_push(v: StageView, d: Direction)
    requires
        v.wf(),
        v.in_bounds(v.player.0 + delta(d).0, v.player.1 + delta(d).1),
        holds(v.tiles[v.index(v.player.0 + delta(d).0, v.player.1 + delta(d).1)], ObjectType::Ball),
    ensures
        !v.in_bounds(v.player.0 + 2 * delta(d).0, v.player.1 + 2 * delta(d).1) ==> v.step(d)
            == Err::<StageView, MoveError>(MoveError::BlockedByBoundaryBehindBall),
        v.in_bounds(v.player.0 + 2 * delta(d).0, v.player.1 + 2 * delta(d).1) && !is_vacant(
            v.tiles[v.index(v.player.0 + 2 * delta(d).0, v.player.1 + 2 * delta(d).1)],
        ) ==> v.step(d) == Err::<StageView, MoveError>(MoveError::BlockedByBall),
{
}

} // verus!
