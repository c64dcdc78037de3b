use pc_solver::board::Board;
use pc_solver::config::Config;
use pc_solver::piece::{Piece, PieceKind};
use pc_solver::utils::point::Point;
use pc_solver::utils::rotation::Orientation;

fn assert_only_filled(board: &Board, fills: Vec<Point>) {
    for x in 0..10 {
        for y in 0..6 {
            let is_filled = fills.contains(&Point::new(x, y));
            assert_eq!(
                board.is_filled(&Point::new(x, y)),
                is_filled,
                "Expected board to be {} at ({}, {})",
                if is_filled { "filled" } else { "empty" },
                x,
                y
            );
        }
    }
}

fn assert_only_emptied(board: &Board, empties: Vec<Point>) {
    for x in 0..10 {
        for y in 0..6 {
            let is_empty = empties.contains(&Point::new(x, y));
            assert_eq!(
                !board.is_filled(&Point::new(x, y)),
                is_empty,
                "Expected board to be {} at ({}, {})",
                if is_empty { "empty" } else { "filled" },
                x,
                y
            );
        }
    }
}

#[test]
fn board_detects_filled_and_empty_cells() {
    let board = Board {
        fill: 0b0000000000_0000000000_0000000000_0000000001_1100000001_1101111011,
    };

    assert_only_filled(
        &board,
        vec![
            Point::new(0, 0),
            Point::new(1, 0),
            Point::new(3, 0),
            Point::new(4, 0),
            Point::new(5, 0),
            Point::new(6, 0),
            Point::new(8, 0),
            Point::new(9, 0),
            Point::new(0, 1),
            Point::new(8, 1),
            Point::new(9, 1),
            Point::new(0, 2),
        ],
    );
}

#[test]
fn board_walls_are_filled() {
    let board = Board::empty_board();

    for y in 0..6 {
        assert!(
            board.is_filled(&Point::new(-1, y)),
            "Expected left wall to be filled on line {}",
            y
        );
        assert!(
            board.is_filled(&Point::new(10, y)),
            "Expected right wall to be filled on line {}",
            y
        );
    }
}

#[test]
fn board_floor_is_filled() {
    let board = Board::empty_board();

    for x in 0..10 {
        assert!(
            board.is_filled(&Point::new(x, -1)),
            "Expected floor to be filled on column {}",
            x
        );
    }
}

#[test]
fn board_fills_cells() {
    let mut board = Board::empty_board();

    board.fill(&Point::new(0, 0));
    assert_only_filled(&board, vec![Point::new(0, 0)]);

    board.fill(&Point::new(9, 0));
    assert_only_filled(&board, vec![Point::new(0, 0), Point::new(9, 0)]);
}

#[test]
fn board_empties_cells() {
    let mut board = Board::filled_board();

    board.empty(&Point::new(0, 0));
    assert_only_emptied(&board, vec![Point::new(0, 0)]);

    board.empty(&Point::new(9, 0));
    assert_only_emptied(&board, vec![Point::new(0, 0), Point::new(9, 0)]);

    board.empty(&Point::new(0, 10));
    assert_only_emptied(
        &board,
        vec![Point::new(0, 0), Point::new(9, 0), Point::new(0, 10)],
    );

    board.empty(&Point::new(9, 10));
    assert_only_emptied(
        &board,
        vec![
            Point::new(0, 0),
            Point::new(9, 0),
            Point::new(0, 10),
            Point::new(9, 10),
        ],
    );

    board.empty(&Point::new(0, 20));
    assert_only_emptied(
        &board,
        vec![
            Point::new(0, 0),
            Point::new(9, 0),
            Point::new(0, 10),
            Point::new(9, 10),
            Point::new(0, 20),
        ],
    );

    board.empty(&Point::new(9, 20));
    assert_only_emptied(
        &board,
        vec![
            Point::new(0, 0),
            Point::new(9, 0),
            Point::new(0, 10),
            Point::new(9, 10),
            Point::new(0, 20),
            Point::new(9, 20),
        ],
    );
}

#[test]
fn true_if_all_empty() {
    let board = Board::empty_board();

    assert!(board.is_empty_board());
}

#[test]
fn false_if_any_filled() {
    let mut board = Board::empty_board();

    board.fill(&Point::new(3, 4));

    assert!(!board.is_empty_board());
}

#[test]
fn board_interlaced_boards() {
    let a = Board {
        fill: 0b0101010101_0101010101_0101010101_0101010101_0101010101_0101010101,
    };
    let b = Board {
        fill: 0b1010101010_1010101010_1010101010_1010101010_1010101010_1010101010,
    };
    assert!(
        !a.has_intersect(&b),
        "Expected interlaced boards to have no overlap"
    );
}

#[test]
fn board_overlap_on_bottom_left_cell() {
    let a = Board {
        fill: 0b0101010101_0101010101_0101010101_0101010101_0101010101_0101010101,
    };
    let b = Board {
        fill: 0b1010101010_1010101010_1010101010_1010101010_1010101010_1010101011,
    };
    assert!(a.has_intersect(&b), "Expected boards to overlap");
}

#[test]
fn board_unions_another_board() {
    let mut a = Board {
        fill: 0b0000000000_0000000000_0000000000_0000000000_0000000000_0000000000,
    };

    let b = Board {
        fill: 0b0101010101_0101010101_0101010101_0101010101_0101010101_0101010101,
    };

    a.union(&b);

    let expected = Board {
        fill: 0b0101010101_0101010101_0101010101_0101010101_0101010101_0101010101,
    };

    assert_eq!(expected, a);
}

#[test]
fn board_fits_in_a_minimal_gap() {
    let config = Config::default();
    let board = Board {
        fill: 0b1110000111_1111111111_1111111111_1111111111_1111111111_1111111111,
    };

    let piece = Piece {
        kind: PieceKind::I,
        orientation: Orientation::North,
        position: Point::new(3, 3),
    };

    assert!(
        board.can_fit(&piece.get_points(&config)),
        "Expected I piece to fit in board {:?}",
        board
    )
}

#[test]
fn board_cannot_fit_when_cell_overlaps() {
    let config = Config::default();
    let board = Board {
        fill: 0b0001000000_0000000000_0000000000_0000000000_0000000000_0000000000,
    };

    let piece = Piece {
        kind: PieceKind::I,
        orientation: Orientation::North,
        position: Point::new(3, 3),
    };

    assert!(
        !board.can_fit(&piece.get_points(&config)),
        "Expected I piece to not fit in board {:?}",
        board
    )
}

#[test]
fn board_cannot_fit_when_wall_collides() {
    let config = Config::default();
    let board = Board::empty_board();

    let piece = Piece {
        kind: PieceKind::I,
        orientation: Orientation::North,
        position: Point::new(-1, 0),
    };

    assert!(
        !board.can_fit(&piece.get_points(&config)),
        "Expected I piece to collide against the board wall",
    )
}

#[test]
fn board_can_place_i_piece_on_floor() {
    let config = Config::default();
    let board = Board::empty_board();

    let piece = Piece {
        position: Point::new(3, -2),
        ..Piece::spawn(&config, &PieceKind::I)
    };

    assert!(board.can_place(&piece.get_points(&config)));
}

#[test]
fn board_cannot_place_i_piece_in_air() {
    let config = Config::default();
    let board = Board::empty_board();

    let piece = Piece {
        position: Point::new(3, -1),
        ..Piece::spawn(&config, &PieceKind::I)
    };

    assert!(!board.can_place(&piece.get_points(&config)));
}

#[test]
fn board_can_place_j_piece_on_filled_cell() {
    let config = Config::default();
    let mut board = Board::empty_board();
    board.fill(&Point::new(0, 0));
    board.fill(&Point::new(0, 1));

    let piece = Piece {
        position: Point::new(0, 1),
        ..Piece::spawn(&config, &PieceKind::J)
    };

    assert!(board.can_place(&piece.get_points(&config)));
}

#[test]
fn board_fills_piece() {
    let config = Config::default();
    let mut board = Board::empty_board();
    let piece = Piece {
        kind: PieceKind::I,
        orientation: Orientation::North,
        position: Point::new(3, 3),
    };
    board.fill_piece_points(&piece.get_points(&config));

    let expected_board = Board {
        fill: 0b0001111000_0000000000_0000000000_0000000000_0000000000_0000000000,
    };

    assert_eq!(board, expected_board,)
}

#[test]
fn board_line_filled() {
    let board = Board::filled_board();
    for y in 0..6 {
        assert!(board.is_line_filled(y));
    }
}

#[test]
fn board_line_not_filled() {
    let board = Board::empty_board();
    for y in 0..6 {
        assert!(!board.is_line_filled(y));
    }
}

#[test]
fn board_line_not_filled_if_any_empty_cell() {
    let mut board = Board::filled_board();
    for y in 0..6 {
        board.empty(&Point::new(5, y));
    }
    for y in 0..6 {
        assert!(!board.is_line_filled(y));
    }
}

#[test]
fn line_empty() {
    let board = Board::empty_board();
    for y in 0..6 {
        assert!(board.is_line_empty(y));
    }
}

#[test]
fn line_not_empty() {
    let board = Board::filled_board();
    for y in 0..6 {
        assert!(!board.is_line_empty(y));
    }
}

#[test]
fn line_not_empty_if_any_filled_cell() {
    let mut board = Board::empty_board();
    for y in 0..6 {
        board.fill(&Point::new(5, y));
    }
    for y in 0..6 {
        assert!(!board.is_line_empty(y));
    }
}

#[test]
fn cannot_perfect_clear_if_gap() {
    let mut board = Board::filled_board();
    board.empty(&Point::new(5, 5));
    assert!(!board.can_perfect_clear());
}

#[test]
fn board_no_difference_if_no_filled_lines() {
    let mut board = Board::filled_board();
    for y in 0..6 {
        board.empty(&Point::new(y % 10, y));
    }

    let mut next_board = board.clone();
    next_board.clear_filled_lines();

    assert_eq!(next_board, board);
}

#[test]
fn board_moves_lines_down_when_clearing() {
    let board = {
        let mut b = Board::empty_board();

        // filled lines to clear
        for x in 0..10 {
            b.fill(&Point::new(x, 0));
            b.fill(&Point::new(x, 1));
            b.fill(&Point::new(x, 4));
            b.fill(&Point::new(x, 5));
        }
        // diagonal pattern that should be moved down
        b.fill(&Point::new(2, 2));
        b.fill(&Point::new(3, 3));

        b
    };

    let mut next_board = board.clone();
    next_board.clear_filled_lines();

    let expected_board = {
        let mut b = Board::empty_board();

        b.fill(&Point::new(2, 0));
        b.fill(&Point::new(3, 1));

        b
    };

    assert_eq!(next_board, expected_board);
}

#[test]
fn board_walls_and_floor_are_filled_on_any_board() {
    for board in [Board::empty_board(), Board::filled_board(), Board::js_new(0x1234_5678_9ABC)] {
        for y in -3..30 {
            assert!(board.is_filled(&Point::new(-1, y)));
            assert!(board.is_filled(&Point::new(10, y)));
        }
        for x in -3..13 {
            assert!(board.is_filled(&Point::new(x, -1)));
        }
        for x in 0..10 {
            for y in 6..30 {
                assert!(!board.is_filled(&Point::new(x, y)));
            }
        }
    }
}

#[test]
fn board_fill_and_empty_undo_each_other() {
    let start = Board::js_new(0b0000000000_0000000000_0000000000_0000000001_1100000001_1101111011);
    for x in 0..10 {
        for y in 0..6 {
            let point = Point::new(x, y);
            let mut board = start;
            if start.is_filled(&point) {
                board.empty(&point);
                assert_ne!(board, start);
                board.fill(&point);
            } else {
                board.fill(&point);
                assert_ne!(board, start);
                board.empty(&point);
            }
            assert_eq!(board, start);
        }
    }
}

#[test]
fn board_fill_outside_the_rows_changes_nothing() {
    let mut board = Board::js_new(0b1100000001_1101111011);
    let before = board;
    for point in [Point::new(-1, 0), Point::new(10, 3), Point::new(4, -1), Point::new(4, 6)] {
        board.fill(&point);
        assert_eq!(board, before);
        board.empty(&point);
        assert_eq!(board, before);
    }
}

#[test]
fn board_union_laws() {
    let a = Board::js_new(0b0101010101_0000011111);
    let b = Board::js_new(0b1111100000_0101010101_0000000000);
    let c = Board::js_new(0b1000000001_0000000000_0000000000_0000000000);
    let union = |x: Board, y: Board| {
        let mut z = x;
        z.union(&y);
        z
    };
    assert_eq!(union(a, a), a);
    assert_eq!(union(union(a, b), b), union(a, b));
    assert_eq!(union(a, b), union(b, a));
    assert_eq!(union(union(a, b), c), union(a, union(b, c)));
    assert_eq!(union(a, b).fill, a.fill | b.fill);
}

#[test]
fn board_perfect_clear_shapes() {
    let mut board = Board::empty_board();
    assert!(!board.can_perfect_clear());
    for y in 0..6 {
        for x in 0..10 {
            board.fill(&Point::new(x, y));
            let full_row = x == 9;
            assert_eq!(board.can_perfect_clear(), full_row && y < 4, "row {} column {}", y, x);
        }
    }
    let mut gap = Board::js_new(0b1111111111_1111111111);
    gap.empty(&Point::new(0, 0));
    assert!(!gap.can_perfect_clear());
    let floating = Board::js_new(0b1111111111_0000000000);
    assert!(!floating.can_perfect_clear());
}

#[test]
fn board_can_place_needs_a_fit() {
    let config = Config::default();
    let mut board = Board::empty_board();
    board.fill(&Point::new(4, 0));
    let piece = Piece {
        kind: PieceKind::I,
        orientation: Orientation::North,
        position: Point::new(3, -2),
    };
    assert!(!board.can_fit(&piece.get_points(&config)));
    assert!(!board.can_place(&piece.get_points(&config)));
}

#[test]
fn board_clear_keeps_the_order_of_rows() {
    let mut board = Board::empty_board();
    for x in 0..10 {
        board.fill(&Point::new(x, 1));
        board.fill(&Point::new(x, 3));
    }
    board.fill(&Point::new(0, 0));
    board.fill(&Point::new(1, 2));
    board.fill(&Point::new(2, 4));
    board.fill(&Point::new(3, 5));
    board.clear_filled_lines();
    assert_only_filled(
        &board,
        vec![Point::new(0, 0), Point::new(1, 1), Point::new(2, 2), Point::new(3, 3)],
    );
    assert_eq!(board.fill >> 60, 0);
}
