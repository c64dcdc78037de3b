use pc_solver::board::Board;
use pc_solver::config::Config;
use pc_solver::game::{Action, Game, HoldError, Move, MoveError, PlaceError, ReduceError};
use pc_solver::piece::{Piece, PieceKind};
use pc_solver::utils::direction::Direction;
use pc_solver::utils::point::Point;
use pc_solver::utils::rotation::{Orientation, Rotation};

#[test]
fn game_no_kick() {
    let config = Config::default();
    let game = Game {
        piece: Some(Piece::spawn(&config, &PieceKind::I)),
        ..Game::initial()
    };

    let position_before = game.piece.as_ref().unwrap().position;

    let next_game = game.with_move(&config, &Move::Rotate(Rotation::Clockwise));

    assert!(next_game.is_ok());
    let next_game = next_game.unwrap();

    assert!(next_game.piece.is_some());
    assert_eq!(
        next_game.piece.as_ref().unwrap().orientation,
        Orientation::East
    );
    assert_eq!(
        next_game.piece.as_ref().unwrap().position,
        position_before,
    );
}

#[test]
fn game_kick_one() {
    let config = Config::default();
    let mut board = Board::filled_board();

    board.empty(&Point::new(3, 2));
    board.empty(&Point::new(4, 2));
    board.empty(&Point::new(5, 2));
    board.empty(&Point::new(6, 2));
    board.empty(&Point::new(3, 0));
    board.empty(&Point::new(3, 1));
    board.empty(&Point::new(3, 2));
    board.empty(&Point::new(3, 3));

    let game = Game {
        board,
        piece: Some(Piece {
            position: Point::new(3, 0),
            ..Piece::spawn(&config, &PieceKind::I)
        }),
        ..Game::initial()
    };

    let next_game = game.with_move(&config, &Move::Rotate(Rotation::Clockwise));

    assert!(next_game.is_ok());
    let next_game = next_game.unwrap();

    assert!(next_game.piece.is_some());
    assert_eq!(
        next_game.piece.as_ref().unwrap().orientation,
        Orientation::East
    );
    assert_eq!(
        next_game.piece.as_ref().unwrap().position,
        Point::new(1, 0),
    );

    let next_game = next_game.with_move(&config, &Move::Rotate(Rotation::AntiClockwise));

    assert!(next_game.is_ok());
    let next_game = next_game.unwrap();

    assert!(next_game.piece.is_some());
    assert_eq!(
        next_game.piece.as_ref().unwrap().orientation,
        Orientation::North
    );
    assert_eq!(
        next_game.piece.as_ref().unwrap().position,
        Point::new(3, 0)
    );
}

#[test]
fn game_kick_two() {
    let config = Config::default();
    let mut board = Board::filled_board();

    board.empty(&Point::new(3, 2));
    board.empty(&Point::new(4, 2));
    board.empty(&Point::new(5, 2));
    board.empty(&Point::new(6, 2));
    board.empty(&Point::new(6, 0));
    board.empty(&Point::new(6, 1));
    board.empty(&Point::new(6, 2));
    board.empty(&Point::new(6, 3));

    let game = Game {
        board,
        piece: Some(Piece {
            position: Point::new(3, 0),
            ..Piece::spawn(&config, &PieceKind::I)
        }),
        ..Game::initial()
    };

    let next_game = game.with_move(&config, &Move::Rotate(Rotation::Clockwise));

    assert!(next_game.is_ok());
    let next_game = next_game.unwrap();

    assert!(next_game.piece.is_some());
    assert_eq!(
        next_game.piece.as_ref().unwrap().orientation,
        Orientation::East
    );
    assert_eq!(
        next_game.piece.as_ref().unwrap().position,
        Point::new(4, 0),
    );

    let next_game = next_game.with_move(&config, &Move::Rotate(Rotation::AntiClockwise));

    assert!(next_game.is_ok());
    let next_game = next_game.unwrap();

    assert!(next_game.piece.is_some());
    assert_eq!(
        next_game.piece.as_ref().unwrap().orientation,
        Orientation::North
    );
    assert_eq!(
        next_game.piece.as_ref().unwrap().position,
        Point::new(3, 0)
    );
}

#[test]
fn game_kick_three() {
    let config = Config::default();
    let mut board = Board::filled_board();

    board.empty(&Point::new(3, 3));
    board.empty(&Point::new(4, 3));
    board.empty(&Point::new(5, 3));
    board.empty(&Point::new(6, 3));
    board.empty(&Point::new(3, 0));
    board.empty(&Point::new(3, 1));
    board.empty(&Point::new(3, 2));
    board.empty(&Point::new(3, 3));

    let game = Game {
        board,
        piece: Some(Piece {
            position: Point::new(3, 1),
            ..Piece::spawn(&config, &PieceKind::I)
        }),
        ..Game::initial()
    };

    let next_game = game.with_move(&config, &Move::Rotate(Rotation::Clockwise));

    assert!(next_game.is_ok());
    let next_game = next_game.unwrap();

    assert!(next_game.piece.is_some());
    assert_eq!(
        next_game.piece.as_ref().unwrap().orientation,
        Orientation::East
    );
    assert_eq!(
        next_game.piece.as_ref().unwrap().position,
        Point::new(1, 0),
    );

    let next_game = next_game.with_move(&config, &Move::Rotate(Rotation::AntiClockwise));

    assert!(next_game.is_ok());
    let next_game = next_game.unwrap();

    assert!(next_game.piece.is_some());
    assert_eq!(
        next_game.piece.as_ref().unwrap().orientation,
        Orientation::North
    );
    assert_eq!(
        next_game.piece.as_ref().unwrap().position,
        Point::new(3, 1)
    );
}

#[test]
fn game_kick_four() {
    let config = Config::default();
    let mut board = Board::filled_board();

    board.empty(&Point::new(3, 2));
    board.empty(&Point::new(4, 2));
    board.empty(&Point::new(5, 2));
    board.empty(&Point::new(6, 2));
    board.empty(&Point::new(6, 2));
    board.empty(&Point::new(6, 3));
    board.empty(&Point::new(6, 4));
    board.empty(&Point::new(6, 5));

    let game = Game {
        board,
        piece: Some(Piece {
            position: Point::new(3, 0),
            ..Piece::spawn(&config, &PieceKind::I)
        }),
        ..Game::initial()
    };

    let next_game = game.with_move(&config, &Move::Rotate(Rotation::Clockwise));

    assert!(next_game.is_ok());
    let next_game = next_game.unwrap();

    assert!(next_game.piece.is_some());
    assert_eq!(
        next_game.piece.as_ref().unwrap().orientation,
        Orientation::East
    );
    assert_eq!(
        next_game.piece.as_ref().unwrap().position,
        Point::new(4, 2),
    );

    let next_game = next_game.with_move(&config, &Move::Rotate(Rotation::AntiClockwise));

    assert!(next_game.is_ok());
    let next_game = next_game.unwrap();

    assert!(next_game.piece.is_some());
    assert_eq!(
        next_game.piece.as_ref().unwrap().orientation,
        Orientation::North
    );
    assert_eq!(
        next_game.piece.as_ref().unwrap().position,
        Point::new(3, 0)
    );
}

#[test]
fn game_moves_piece() {
    let config = Config { soft_drop_allowed: true, ..Config::default() };
    let game = Game {
        piece: Some(Piece {
            position: Point::new(3, -1),
            ..Piece::spawn(&config, &PieceKind::I)
        }),
        ..Game::initial()
    };

    let next_game = game.with_move(&config, &Move::Translate(Direction::Down));

    assert!(next_game.is_ok());
    let next_game = next_game.unwrap();

    let piece = next_game.piece.as_ref().unwrap();
    assert_eq!(piece.position, Point::new(3, -2));

    let next_game = next_game.with_move(&config, &Move::Translate(Direction::Left));

    assert!(next_game.is_ok());
    let next_game = next_game.unwrap();

    let piece = next_game.piece.as_ref().unwrap();
    assert_eq!(piece.position, Point::new(2, -2));

    let next_game = next_game.with_move(&config, &Move::Translate(Direction::Right));

    assert!(next_game.is_ok());
    let next_game = next_game.unwrap();

    let piece = next_game.piece.as_ref().unwrap();
    assert_eq!(piece.position, Point::new(3, -2));

    let next_game = next_game.with_move(&config, &Move::Translate(Direction::Down));
    assert_eq!(next_game, Err(MoveError::InvalidMove));
}

#[test]
fn game_invalid_if_no_active_piece() {
    let config = Config::default();
    let game = Game {
        hold_kind: Some(PieceKind::J),
        ..Game::initial()
    };

    let next_game = game.reduce(&config, &Action::Hold { switch: true });

    assert_eq!(next_game, Err(ReduceError::Hold(HoldError::NoPiece)));
}

#[test]
fn game_invalid_if_no_hold_piece() {
    let config = Config::default();
    let game = Game {
        piece: Some(Piece::spawn(&config, &PieceKind::I)),
        ..Game::initial()
    };

    let next_game = game.reduce(&config, &Action::Hold { switch: true });

    assert_eq!(next_game, Err(ReduceError::Hold(HoldError::NoHoldPiece)));
}

#[test]
fn game_invalid_if_new_piece_intersects_board() {
    let config = Config::default();
    let mut board = Board::empty_board();
    for x in 3..7 {
        board.fill(&Point::new(x, 4));
    }

    let game = Game {
        board,
        hold_kind: Some(PieceKind::I),
        piece: Some(Piece::spawn(&config, &PieceKind::J)),
        ..Game::initial()
    };

    let next_game = game.reduce(&config, &Action::Hold { switch: true });

    assert_eq!(
        next_game,
        Err(ReduceError::Hold(HoldError::PieceCollision)),
        "Expected state to be invalid if next active piece intersects the board",
    )
}

#[test]
fn game_consumes_hold_and_swaps_hold() {
    let config = Config::default();
    let game = Game {
        hold_kind: Some(PieceKind::J),
        piece: Some(Piece::spawn(&config, &PieceKind::I)),
        ..Game::initial()
    };

    let next_game = game.reduce(&config, &Action::Hold { switch: true });

    assert!(next_game.is_ok());
    let next_game = next_game.unwrap();

    assert!(next_game.is_hold_used);
    assert_eq!(next_game.hold_kind.unwrap(), PieceKind::I);
    assert_eq!(next_game.piece.as_ref().unwrap().kind, PieceKind::J);
}

#[test]
fn game_consumes_hold_without_swapping_hold() {
    let config = Config::default();
    let game = Game {
        hold_kind: Some(PieceKind::J),
        piece: Some(Piece::spawn(&config, &PieceKind::I)),
        ..Game::initial()
    };

    let next_game = game.reduce(&config, &Action::Hold { switch: false });

    assert!(next_game.is_ok());
    let next_game = next_game.unwrap();

    assert!(next_game.is_hold_used);
    assert_eq!(next_game.hold_kind.unwrap(), PieceKind::J);
    assert_eq!(next_game.piece.as_ref().unwrap().kind, PieceKind::I);
}

#[test]
fn game_invalid_if_no_active_piece_to_place() {
    let config = Config::default();
    let game = Game::initial();

    let next_game = game.reduce(&config, &Action::Place);

    assert_eq!(
        next_game,
        Err(ReduceError::Place(PlaceError::NoPiece)),
        "Expected state to be invalid if placing without active piece"
    );
}

#[test]
fn game_invalid_if_piece_in_air() {
    let config = Config::default();
    let game = Game {
        piece: Some(Piece {
            position: Point::new(3, -1),
            ..Piece::spawn(&config, &PieceKind::I)
        }),
        ..Game::initial()
    };

    let next_game = game.reduce(&config, &Action::Place);

    assert_eq!(
        next_game,
        Err(ReduceError::Place(PlaceError::PieceInAir)),
        "Expected state to be invalid if placing without filled cell below piece"
    );
}

#[test]
fn game_piece_placed() {
    let config = Config::default();
    let game = Game {
        piece: Some(Piece {
            position: Point::new(3, -2),
            ..Piece::spawn(&config, &PieceKind::I)
        }),
        ..Game::initial()
    };

    let next_game = game.reduce(&config, &Action::Place);

    assert!(next_game.is_ok());
    let next_game = next_game.unwrap();
    assert!(
        next_game.piece.is_none(),
        "Active piece should be none after placement"
    );

    let mut expected_board = Board::empty_board();
    expected_board.fill(&Point::new(3, 0));
    expected_board.fill(&Point::new(4, 0));
    expected_board.fill(&Point::new(5, 0));
    expected_board.fill(&Point::new(6, 0));
    assert_eq!(
        next_game.board, expected_board,
        "Previous active piece should fill the board after placement"
    );
}

#[test]
fn game_move_without_a_piece() {
    let config = Config::default();
    let game = Game::initial();
    for mov in [
        Move::Rotate(Rotation::Clockwise),
        Move::Rotate(Rotation::AntiClockwise),
        Move::Rotate(Rotation::Half),
        Move::Translate(Direction::Left),
        Move::Drop,
    ] {
        assert_eq!(
            game.reduce(&config, &Action::Move(mov)),
            Err(ReduceError::Move(MoveError::NoPiece))
        );
    }
}

#[test]
fn game_hold_is_spent_once() {
    let config = Config::default();
    let game = Game {
        hold_kind: Some(PieceKind::J),
        piece: Some(Piece::spawn(&config, &PieceKind::I)),
        ..Game::initial()
    };
    let held = game.reduce(&config, &Action::Hold { switch: false }).unwrap();
    for switch in [true, false] {
        assert_eq!(
            held.reduce(&config, &Action::Hold { switch }),
            Err(ReduceError::Hold(HoldError::NotAvailable))
        );
    }
    let swapped = game.reduce(&config, &Action::Hold { switch: true }).unwrap();
    assert_eq!(swapped.piece, Some(Piece::spawn(&config, &PieceKind::J)));
    assert_eq!(swapped.board, game.board);
    assert_eq!(swapped.queue, game.queue);
}

#[test]
fn game_drop_lands_on_the_stack() {
    let config = Config::default();
    let mut board = Board::empty_board();
    board.fill(&Point::new(4, 0));
    board.fill(&Point::new(4, 1));
    let game = Game {
        board,
        piece: Some(Piece::spawn(&config, &PieceKind::I)),
        ..Game::initial()
    };
    let dropped = game.with_drop(&config).unwrap();
    assert_eq!(dropped.piece.unwrap().position, Point::new(3, 0));
    assert_eq!(dropped.piece.unwrap().orientation, Orientation::North);
    assert_eq!(dropped.with_drop(&config), Err(MoveError::InvalidMove));
    assert_eq!(
        dropped.reduce(&config, &Action::Move(Move::Drop)),
        Err(ReduceError::Move(MoveError::InvalidMove))
    );
    let on_floor = Game {
        piece: Some(Piece::spawn(&config, &PieceKind::O)),
        ..Game::initial()
    }
    .with_drop(&config)
    .unwrap();
    assert_eq!(on_floor.piece.unwrap().position, Point::new(3, -1));
}

#[test]
fn game_half_turn_has_no_kick() {
    let config = Config::default();
    let mut board = Board::filled_board();
    for x in 3..7 {
        board.empty(&Point::new(x, 2));
    }
    let game = Game {
        board,
        piece: Some(Piece {
            position: Point::new(3, 0),
            ..Piece::spawn(&config, &PieceKind::I)
        }),
        ..Game::initial()
    };
    assert_eq!(
        game.with_rotation(&config, &Rotation::Half),
        Err(MoveError::InvalidMove)
    );
    let free = Game { board: Board::empty_board(), ..game };
    let turned = free.with_rotation(&config, &Rotation::Half).unwrap();
    assert_eq!(turned.piece.unwrap().orientation, Orientation::South);
    assert_eq!(turned.piece.unwrap().position, Point::new(3, 0));
}

#[test]
fn game_o_piece_never_kicks() {
    let config = Config::default();
    for from in [Orientation::North, Orientation::East, Orientation::South, Orientation::West] {
        for to in [Orientation::North, Orientation::East, Orientation::South, Orientation::West] {
            assert_eq!(config.kick_table(&PieceKind::O, &from, &to), None);
        }
    }
}

#[test]
fn game_kick_table_has_four_kicks_for_each_quarter_turn() {
    let config = Config::default();
    let orientations =
        [Orientation::North, Orientation::East, Orientation::South, Orientation::West];
    for kind in [
        PieceKind::I,
        PieceKind::J,
        PieceKind::L,
        PieceKind::S,
        PieceKind::T,
        PieceKind::Z,
    ] {
        for (i, from) in orientations.iter().enumerate() {
            for (j, to) in orientations.iter().enumerate() {
                let table = config.kick_table(&kind, from, to);
                let quarter = (i + 1) % 4 == j || (j + 1) % 4 == i;
                assert_eq!(table.is_some(), quarter);
                if let Some(kicks) = table {
                    assert_eq!(kicks.len(), 4);
                    let back = config.kick_table(&kind, to, from).unwrap();
                    for k in 0..4 {
                        assert_eq!(back[k], Point::new(-kicks[k].x, -kicks[k].y));
                    }
                }
            }
        }
    }
    assert_eq!(
        config.kick_table(&PieceKind::I, &Orientation::North, &Orientation::East),
        Some([Point::new(-2, 0), Point::new(1, 0), Point::new(-2, -1), Point::new(1, 2)])
    );
    assert_eq!(
        config.kick_table(&PieceKind::T, &Orientation::West, &Orientation::North),
        Some([Point::new(-1, 0), Point::new(-1, -1), Point::new(0, 2), Point::new(-1, 2)])
    );
}

#[test]
fn game_possible_moves() {
    let config = Config::default();
    assert_eq!(
        config.possible_moves(),
        vec![
            Move::Rotate(Rotation::Clockwise),
            Move::Rotate(Rotation::AntiClockwise),
            Move::Drop,
            Move::Translate(Direction::Left),
            Move::Translate(Direction::Right),
        ]
    );
    let soft = Config { soft_drop_allowed: true, ..config };
    let moves = soft.possible_moves();
    assert_eq!(moves.len(), 6);
    assert_eq!(moves[5], Move::Translate(Direction::Down));
}

#[test]
fn game_reduce_leaves_the_game_alone() {
    let config = Config::default();
    let game = Game {
        piece: Some(Piece {
            position: Point::new(3, -2),
            ..Piece::spawn(&config, &PieceKind::I)
        }),
        hold_kind: Some(PieceKind::T),
        ..Game::initial()
    };
    let copy = game;
    for action in [
        Action::Place,
        Action::Hold { switch: true },
        Action::Hold { switch: false },
        Action::Move(Move::Translate(Direction::Left)),
        Action::Move(Move::Rotate(Rotation::Clockwise)),
        Action::Move(Move::Drop),
    ] {
        let first = game.reduce(&config, &action);
        let second = game.reduce(&config, &action);
        assert_eq!(first, second);
        assert_eq!(game, copy);
    }
}

#[test]
fn game_place_clears_filled_rows() {
    let config = Config::default();
    let mut board = Board::empty_board();
    for x in 0..10 {
        if x < 3 || x > 6 {
            board.fill(&Point::new(x, 0));
        }
    }
    board.fill(&Point::new(0, 1));
    let game = Game {
        board,
        piece: Some(Piece {
            position: Point::new(3, -2),
            ..Piece::spawn(&config, &PieceKind::I)
        }),
        is_hold_used: true,
        ..Game::initial()
    };
    let placed = game.reduce(&config, &Action::Place).unwrap();
    let mut expected = Board::empty_board();
    expected.fill(&Point::new(0, 0));
    assert_eq!(placed.board, expected);
    assert!(!placed.is_hold_used);
    assert!(placed.piece.is_none());
}

#[test]
fn game_place_keeps_a_board_that_clears_perfectly() {
    let config = Config::default();
    let mut board = Board::empty_board();
    for x in 0..10 {
        if x < 3 || x > 6 {
            board.fill(&Point::new(x, 0));
        }
    }
    let game = Game {
        board,
        piece: Some(Piece {
            position: Point::new(3, -2),
            ..Piece::spawn(&config, &PieceKind::I)
        }),
        ..Game::initial()
    };
    let placed = game.reduce(&config, &Action::Place).unwrap();
    assert_eq!(placed.board, Board::js_new(0b1111111111));
    assert!(placed.board.can_perfect_clear());
}

#[test]
fn game_queue_bytes() {
    let game = Game::js_new(Board::empty_board(), None, None, false, &[4, 0, 255, 6]);
    assert_eq!(
        game.queue,
        [Some(PieceKind::S), Some(PieceKind::I), None, Some(PieceKind::Z), None, None, None]
    );
    assert_eq!(game.js_queue(), vec![4, 0, 6]);
    assert_eq!(Game::initial().js_queue(), Vec::<u8>::new());
    let full = Game::js_new(Board::js_new(5), None, Some(PieceKind::T), true, &[0, 1, 2, 3, 4, 5, 6]);
    assert_eq!(full.js_queue(), vec![0, 1, 2, 3, 4, 5, 6]);
    assert_eq!(full.board.fill, 5);
    assert_eq!(full.hold_kind, Some(PieceKind::T));
    assert!(full.is_hold_used);
    assert!(full.is_wf());
}
