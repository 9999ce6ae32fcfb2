use pusher::{Direction, MoveError, ObjectType, Stage, StageError, Tile, Vector2};

fn load(text: &str) -> Stage {
    Stage::new(text).unwrap()
}

#[test]
fn parse_reads_tiles_in_row_order() {
    let stage = load("#.@.O+#");
    assert_eq!(stage.width(), 7);
    assert_eq!(stage.height(), 1);
    assert_eq!(stage.total_goals(), 1);
    assert_eq!(stage.matched_goals(), 0);
    assert_eq!(stage.player_position(), Vector2::new(2, 0));
    assert_eq!(*stage.index(Vector2::new(0, 0)), Tile::Wall);
    assert_eq!(*stage.index(Vector2::new(1, 0)), Tile::Plain(ObjectType::Empty));
    assert_eq!(*stage.index(Vector2::new(2, 0)), Tile::Plain(ObjectType::Player));
    assert_eq!(*stage.index(Vector2::new(4, 0)), Tile::Plain(ObjectType::Ball));
    assert_eq!(*stage.index(Vector2::new(5, 0)), Tile::Goal(ObjectType::Empty));
}

#[test]
fn render_single_row() {
    let stage = load("#.@.O+#");
    assert_eq!(stage.render(), "#.@.O+#\nMatched goal(s): 0/1\n");
}

#[test]
fn render_reproduces_rows() {
    let text = "########\n#+####+#\n#O##.O.#\n#..@...#\n########";
    let stage = load(text);
    assert_eq!(stage.render(), format!("{}\nMatched goal(s): 0/2\n", text));
}

#[test]
fn parse_ignores_carriage_returns_and_final_newline() {
    let stage = load("#@#\r\n#.#\r\n");
    assert_eq!(stage.width(), 3);
    assert_eq!(stage.height(), 2);
    assert_eq!(stage.render(), "#@#\n#.#\nMatched goal(s): 0/0\n");
}

#[test]
fn push_three_times_left_onto_goal() {
    let mut stage = load("#######\n#+.O.@#\n#######");
    assert!(!stage.is_won());
    assert_eq!(stage.move_player(Direction::Left), Ok(()));
    assert_eq!(stage.move_player(Direction::Left), Ok(()));
    assert_eq!(stage.move_player(Direction::Left), Ok(()));
    assert_eq!(*stage.index(Vector2::new(1, 1)), Tile::Goal(ObjectType::Ball));
    assert_eq!(*stage.index(Vector2::new(2, 1)), Tile::Plain(ObjectType::Player));
    assert_eq!(stage.matched_goals(), 1);
    assert!(stage.is_won());
    assert_eq!(stage.player_position(), Vector2::new(2, 1));
    assert_eq!(stage.render(), "#######\n#$@...#\n#######\nMatched goal(s): 1/1\n");
}

#[test]
fn push_left_into_wall_below_goal() {
    let mut stage = load("#######\n#+....#\n#.O.@.#\n#######");
    assert_eq!(stage.move_player(Direction::Left), Ok(()));
    assert_eq!(stage.move_player(Direction::Left), Ok(()));
    assert_eq!(stage.move_player(Direction::Left), Err(MoveError::BlockedByBall));
    assert_eq!(*stage.index(Vector2::new(1, 2)), Tile::Plain(ObjectType::Ball));
    assert_eq!(stage.player_position(), Vector2::new(2, 2));
    assert_eq!(stage.matched_goals(), 0);
    assert!(!stage.is_won());
}

#[test]
fn player_between_walls() {
    let mut stage = load("#@#");
    assert!(stage.is_won());
    assert_eq!(stage.move_player(Direction::Left), Err(MoveError::BlockedByWall));
    assert_eq!(stage.move_player(Direction::Right), Err(MoveError::BlockedByWall));
    assert_eq!(stage.move_player(Direction::Up), Err(MoveError::BlockedByBoundary));
    assert_eq!(stage.move_player(Direction::Down), Err(MoveError::BlockedByBoundary));
    assert_eq!(stage.player_position(), Vector2::new(1, 0));
    assert_eq!(stage.render(), "#@#\nMatched goal(s): 0/0\n");
}

#[test]
fn two_players_rejected() {
    assert_eq!(
        Stage::new("@.@").unwrap_err(),
        StageError::PlayerCountInvalid { players: 2 }
    );
}

#[test]
fn no_player_rejected() {
    assert_eq!(
        Stage::new("#..#").unwrap_err(),
        StageError::PlayerCountInvalid { players: 0 }
    );
}

#[test]
fn more_balls_than_goals_rejected() {
    assert_eq!(
        Stage::new("O.O+@").unwrap_err(),
        StageError::GoalBallMismatch { balls: 2, goals: 1 }
    );
}

#[test]
fn inconsistent_width_rejected() {
    assert_eq!(
        Stage::new("#@#\n##").unwrap_err(),
        StageError::InconsistentWidth { row: 1, expected: 3, found: 2 }
    );
}

#[test]
fn width_checked_before_characters() {
    assert_eq!(
        Stage::new("#@#\nx#").unwrap_err(),
        StageError::InconsistentWidth { row: 1, expected: 3, found: 2 }
    );
}

#[test]
fn invalid_character_rejected() {
    assert_eq!(
        Stage::new("#@#\n#x#").unwrap_err(),
        StageError::InvalidCharacter { row: 1, column: 1, character: 'x' }
    );
}

#[test]
fn empty_text_rejected() {
    assert_eq!(Stage::new("").unwrap_err(), StageError::EmptyStage);
    assert_eq!(Stage::new("\n").unwrap_err(), StageError::EmptyStage);
}

#[test]
fn moving_off_the_grid_changes_nothing() {
    let mut stage = load("@.\n..");
    let before = stage.render();
    assert_eq!(stage.move_player(Direction::Up), Err(MoveError::BlockedByBoundary));
    assert_eq!(stage.move_player(Direction::Left), Err(MoveError::BlockedByBoundary));
    assert_eq!(stage.render(), before);
    assert_eq!(stage.move_player(Direction::Down), Ok(()));
    assert_eq!(stage.player_position(), Vector2::new(0, 1));
}

#[test]
fn ball_against_edge_cannot_be_pushed() {
    let mut stage = load("+@O");
    assert_eq!(
        stage.move_player(Direction::Right),
        Err(MoveError::BlockedByBoundaryBehindBall)
    );
    assert_eq!(stage.player_position(), Vector2::new(1, 0));
    assert_eq!(*stage.index(Vector2::new(2, 0)), Tile::Plain(ObjectType::Ball));
}

#[test]
fn ball_against_ball_cannot_be_pushed() {
    let mut stage = load("@OO++");
    assert_eq!(stage.move_player(Direction::Right), Err(MoveError::BlockedByBall));
    assert_eq!(stage.render(), "@OO++\nMatched goal(s): 0/2\n");
}

#[test]
fn ball_against_wall_cannot_be_pushed() {
    let mut stage = load("+.\n@.\nO.\n#.");
    assert_eq!(stage.move_player(Direction::Down), Err(MoveError::BlockedByBall));
    assert_eq!(stage.player_position(), Vector2::new(0, 1));
}

#[test]
fn pushing_off_a_goal_unmatches_it() {
    let mut stage = load("@O+.+\nO....");
    assert_eq!(stage.move_player(Direction::Right), Ok(()));
    assert_eq!(stage.matched_goals(), 1);
    assert!(!stage.is_won());
    assert_eq!(stage.render(), ".@$.+\nO....\nMatched goal(s): 1/2\n");
    assert_eq!(stage.move_player(Direction::Right), Ok(()));
    assert_eq!(stage.matched_goals(), 0);
    assert_eq!(stage.render(), "..@O+\nO....\nMatched goal(s): 0/2\n");
}

#[test]
fn ball_and_player_counts_kept_over_moves() {
    let mut stage = load("#####\n#@O+#\n#.O+#\n#####");
    let moves = [
        Direction::Right,
        Direction::Down,
        Direction::Left,
        Direction::Up,
        Direction::Right,
        Direction::Down,
    ];
    for d in moves {
        let _ = stage.move_player(d);
        let text = stage.render();
        let balls = text.chars().filter(|c| *c == 'O' || *c == '$').count();
        let players = text.chars().filter(|c| *c == '@').count();
        assert_eq!(balls, 2);
        assert_eq!(players, 1);
    }
}
