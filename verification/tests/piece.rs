use pc_solver::config::Config;
use pc_solver::piece::{orient_offset_box, piece_kinds, Piece, PieceKind};
use pc_solver::utils::point::Point;
use pc_solver::utils::rotation::Orientation;

#[test]
fn piece_j_piece_no_orientation() {
    let config = Config::default();
    let piece = Piece {
        kind: PieceKind::J,
        orientation: Orientation::North,
        position: Point::new(3, 18),
    };
    assert_eq!(
        piece.get_points(&config),
        [
            Point::new(3, 20),
            Point::new(3, 19),
            Point::new(4, 19),
            Point::new(5, 19),
        ]
    );
}

#[test]
fn piece_i_piece() {
    let config = Config::default();
    let mut offset_box = PieceKind::I.get_unoriented_offset_box(&config);
    orient_offset_box(&mut offset_box, &Orientation::North);
    assert!(offset_box.offsets.contains(&Point::new(0, 2)));
    assert!(offset_box.offsets.contains(&Point::new(1, 2)));
    assert!(offset_box.offsets.contains(&Point::new(2, 2)));
    assert!(offset_box.offsets.contains(&Point::new(3, 2)));
}

#[test]
fn piece_j_piece() {
    let config = Config::default();
    let mut offset_box = PieceKind::J.get_unoriented_offset_box(&config);
    orient_offset_box(&mut offset_box, &Orientation::North);
    assert!(offset_box.offsets.contains(&Point::new(0, 2)));
    assert!(offset_box.offsets.contains(&Point::new(0, 1)));
    assert!(offset_box.offsets.contains(&Point::new(1, 1)));
    assert!(offset_box.offsets.contains(&Point::new(2, 1)));
}

#[test]
fn piece_l_piece() {
    let config = Config::default();
    let mut offset_box = PieceKind::L.get_unoriented_offset_box(&config);
    orient_offset_box(&mut offset_box, &Orientation::North);
    assert!(offset_box.offsets.contains(&Point::new(2, 2)));
    assert!(offset_box.offsets.contains(&Point::new(0, 1)));
    assert!(offset_box.offsets.contains(&Point::new(1, 1)));
    assert!(offset_box.offsets.contains(&Point::new(2, 1)));
}

#[test]
fn piece_o_piece() {
    let config = Config::default();
    let mut offset_box = PieceKind::O.get_unoriented_offset_box(&config);
    orient_offset_box(&mut offset_box, &Orientation::North);
    assert!(offset_box.offsets.contains(&Point::new(1, 2)));
    assert!(offset_box.offsets.contains(&Point::new(2, 2)));
    assert!(offset_box.offsets.contains(&Point::new(1, 1)));
    assert!(offset_box.offsets.contains(&Point::new(2, 1)));
}

#[test]
fn piece_s_piece() {
    let config = Config::default();
    let mut offset_box = PieceKind::S.get_unoriented_offset_box(&config);
    orient_offset_box(&mut offset_box, &Orientation::North);
    assert!(offset_box.offsets.contains(&Point::new(1, 2)));
    assert!(offset_box.offsets.contains(&Point::new(2, 2)));
    assert!(offset_box.offsets.contains(&Point::new(0, 1)));
    assert!(offset_box.offsets.contains(&Point::new(1, 1)));
}

#[test]
fn piece_t_piece() {
    let config = Config::default();
    let mut offset_box = PieceKind::T.get_unoriented_offset_box(&config);
    orient_offset_box(&mut offset_box, &Orientation::North);
    assert!(offset_box.offsets.contains(&Point::new(1, 2)));
    assert!(offset_box.offsets.contains(&Point::new(0, 1)));
    assert!(offset_box.offsets.contains(&Point::new(1, 1)));
    assert!(offset_box.offsets.contains(&Point::new(2, 1)));
}

#[test]
fn piece_z_piece() {
    let config = Config::default();
    let mut offset_box = PieceKind::Z.get_unoriented_offset_box(&config);
    orient_offset_box(&mut offset_box, &Orientation::North);
    assert!(offset_box.offsets.contains(&Point::new(0, 2)));
    assert!(offset_box.offsets.contains(&Point::new(1, 2)));
    assert!(offset_box.offsets.contains(&Point::new(1, 1)));
    assert!(offset_box.offsets.contains(&Point::new(2, 1)));
}

#[test]
fn piece_i_piece_south() {
    let config = Config::default();
    let mut offset_box = PieceKind::I.get_unoriented_offset_box(&config);
    orient_offset_box(&mut offset_box, &Orientation::South);
    assert!(offset_box.offsets.contains(&Point::new(0, 1)));
    assert!(offset_box.offsets.contains(&Point::new(1, 1)));
    assert!(offset_box.offsets.contains(&Point::new(2, 1)));
    assert!(offset_box.offsets.contains(&Point::new(3, 1)));
}

#[test]
fn piece_j_piece_south() {
    let config = Config::default();
    let mut offset_box = PieceKind::J.get_unoriented_offset_box(&config);
    orient_offset_box(&mut offset_box, &Orientation::South);
    assert!(offset_box.offsets.contains(&Point::new(0, 1)));
    assert!(offset_box.offsets.contains(&Point::new(1, 1)));
    assert!(offset_box.offsets.contains(&Point::new(2, 1)));
    assert!(offset_box.offsets.contains(&Point::new(2, 0)));
}

#[test]
fn piece_l_piece_south() {
    let config = Config::default();
    let mut offset_box = PieceKind::L.get_unoriented_offset_box(&config);
    orient_offset_box(&mut offset_box, &Orientation::South);
    assert!(offset_box.offsets.contains(&Point::new(0, 1)));
    assert!(offset_box.offsets.contains(&Point::new(1, 1)));
    assert!(offset_box.offsets.contains(&Point::new(2, 1)));
    assert!(offset_box.offsets.contains(&Point::new(0, 0)));
}

#[test]
fn piece_o_piece_south() {
    let config = Config::default();
    let mut offset_box = PieceKind::O.get_unoriented_offset_box(&config);
    orient_offset_box(&mut offset_box, &Orientation::South);
    assert!(offset_box.offsets.contains(&Point::new(1, 2)));
    assert!(offset_box.offsets.contains(&Point::new(2, 2)));
    assert!(offset_box.offsets.contains(&Point::new(1, 1)));
    assert!(offset_box.offsets.contains(&Point::new(2, 1)));
}

#[test]
fn piece_s_piece_south() {
    let config = Config::default();
    let mut offset_box = PieceKind::S.get_unoriented_offset_box(&config);
    orient_offset_box(&mut offset_box, &Orientation::South);
    assert!(offset_box.offsets.contains(&Point::new(1, 1)));
    assert!(offset_box.offsets.contains(&Point::new(2, 1)));
    assert!(offset_box.offsets.contains(&Point::new(0, 0)));
    assert!(offset_box.offsets.contains(&Point::new(1, 0)));
}

#[test]
fn piece_t_piece_south() {
    let config = Config::default();
    let mut offset_box = PieceKind::T.get_unoriented_offset_box(&config);
    orient_offset_box(&mut offset_box, &Orientation::South);
    assert!(offset_box.offsets.contains(&Point::new(0, 1)));
    assert!(offset_box.offsets.contains(&Point::new(1, 1)));
    assert!(offset_box.offsets.contains(&Point::new(2, 1)));
    assert!(offset_box.offsets.contains(&Point::new(1, 0)));
}

#[test]
fn piece_z_piece_south() {
    let config = Config::default();
    let mut offset_box = PieceKind::Z.get_unoriented_offset_box(&config);
    orient_offset_box(&mut offset_box, &Orientation::South);
    assert!(offset_box.offsets.contains(&Point::new(0, 1)));
    assert!(offset_box.offsets.contains(&Point::new(1, 1)));
    assert!(offset_box.offsets.contains(&Point::new(1, 0)));
    assert!(offset_box.offsets.contains(&Point::new(2, 0)));
}

#[test]
fn piece_i_piece_east() {
    let config = Config::default();
    let mut offset_box = PieceKind::I.get_unoriented_offset_box(&config);
    orient_offset_box(&mut offset_box, &Orientation::East);
    assert!(offset_box.offsets.contains(&Point::new(2, 3)));
    assert!(offset_box.offsets.contains(&Point::new(2, 2)));
    assert!(offset_box.offsets.contains(&Point::new(2, 1)));
    assert!(offset_box.offsets.contains(&Point::new(2, 0)));
}

#[test]
fn piece_j_piece_east() {
    let config = Config::default();
    let mut offset_box = PieceKind::J.get_unoriented_offset_box(&config);
    orient_offset_box(&mut offset_box, &Orientation::East);
    assert!(offset_box.offsets.contains(&Point::new(1, 2)));
    assert!(offset_box.offsets.contains(&Point::new(2, 2)));
    assert!(offset_box.offsets.contains(&Point::new(1, 1)));
    assert!(offset_box.offsets.contains(&Point::new(1, 0)));
}

#[test]
fn piece_l_piece_east() {
    let config = Config::default();
    let mut offset_box = PieceKind::L.get_unoriented_offset_box(&config);
    orient_offset_box(&mut offset_box, &Orientation::East);
    assert!(offset_box.offsets.contains(&Point::new(1, 2)));
    assert!(offset_box.offsets.contains(&Point::new(1, 1)));
    assert!(offset_box.offsets.contains(&Point::new(1, 0)));
    assert!(offset_box.offsets.contains(&Point::new(2, 0)));
}

#[test]
fn piece_o_piece_east() {
    let config = Config::default();
    let mut offset_box = PieceKind::O.get_unoriented_offset_box(&config);
    orient_offset_box(&mut offset_box, &Orientation::East);
    assert!(offset_box.offsets.contains(&Point::new(1, 2)));
    assert!(offset_box.offsets.contains(&Point::new(2, 2)));
    assert!(offset_box.offsets.contains(&Point::new(1, 1)));
    assert!(offset_box.offsets.contains(&Point::new(2, 1)));
}

#[test]
fn piece_s_piece_east() {
    let config = Config::default();
    let mut offset_box = PieceKind::S.get_unoriented_offset_box(&config);
    orient_offset_box(&mut offset_box, &Orientation::East);
    assert!(offset_box.offsets.contains(&Point::new(1, 2)));
    assert!(offset_box.offsets.contains(&Point::new(1, 1)));
    assert!(offset_box.offsets.contains(&Point::new(2, 1)));
    assert!(offset_box.offsets.contains(&Point::new(2, 0)));
}

#[test]
fn piece_t_piece_east() {
    let config = Config::default();
    let mut offset_box = PieceKind::T.get_unoriented_offset_box(&config);
    orient_offset_box(&mut offset_box, &Orientation::East);
    assert!(offset_box.offsets.contains(&Point::new(1, 2)));
    assert!(offset_box.offsets.contains(&Point::new(1, 1)));
    assert!(offset_box.offsets.contains(&Point::new(2, 1)));
    assert!(offset_box.offsets.contains(&Point::new(1, 0)));
}

#[test]
fn piece_z_piece_east() {
    let config = Config::default();
    let mut offset_box = PieceKind::Z.get_unoriented_offset_box(&config);
    orient_offset_box(&mut offset_box, &Orientation::East);
    assert!(offset_box.offsets.contains(&Point::new(2, 2)));
    assert!(offset_box.offsets.contains(&Point::new(1, 1)));
    assert!(offset_box.offsets.contains(&Point::new(2, 1)));
    assert!(offset_box.offsets.contains(&Point::new(1, 0)));
}

#[test]
fn piece_i_piece_west() {
    let config = Config::default();
    let mut offset_box = PieceKind::I.get_unoriented_offset_box(&config);
    orient_offset_box(&mut offset_box, &Orientation::West);
    assert!(offset_box.offsets.contains(&Point::new(1, 3)));
    assert!(offset_box.offsets.contains(&Point::new(1, 2)));
    assert!(offset_box.offsets.contains(&Point::new(1, 1)));
    assert!(offset_box.offsets.contains(&Point::new(1, 0)));
}

#[test]
fn piece_j_piece_west() {
    let config = Config::default();
    let mut offset_box = PieceKind::J.get_unoriented_offset_box(&config);
    orient_offset_box(&mut offset_box, &Orientation::West);
    assert!(offset_box.offsets.contains(&Point::new(1, 2)));
    assert!(offset_box.offsets.contains(&Point::new(1, 1)));
    assert!(offset_box.offsets.contains(&Point::new(0, 0)));
    assert!(offset_box.offsets.contains(&Point::new(1, 0)));
}

#[test]
fn piece_l_piece_west() {
    let config = Config::default();
    let mut offset_box = PieceKind::L.get_unoriented_offset_box(&config);
    orient_offset_box(&mut offset_box, &Orientation::West);
    assert!(offset_box.offsets.contains(&Point::new(0, 2)));
    assert!(offset_box.offsets.contains(&Point::new(1, 2)));
    assert!(offset_box.offsets.contains(&Point::new(1, 1)));
    assert!(offset_box.offsets.contains(&Point::new(1, 0)));
}

#[test]
fn piece_o_piece_west() {
    let config = Config::default();
    let mut offset_box = PieceKind::O.get_unoriented_offset_box(&config);
    orient_offset_box(&mut offset_box, &Orientation::West);
    assert!(offset_box.offsets.contains(&Point::new(1, 2)));
    assert!(offset_box.offsets.contains(&Point::new(2, 2)));
    assert!(offset_box.offsets.contains(&Point::new(1, 1)));
    assert!(offset_box.offsets.contains(&Point::new(2, 1)));
}

#[test]
fn piece_s_piece_west() {
    let config = Config::default();
    let mut offset_box = PieceKind::S.get_unoriented_offset_box(&config);
    orient_offset_box(&mut offset_box, &Orientation::West);
    assert!(offset_box.offsets.contains(&Point::new(0, 2)));
    assert!(offset_box.offsets.contains(&Point::new(0, 1)));
    assert!(offset_box.offsets.contains(&Point::new(1, 1)));
    assert!(offset_box.offsets.contains(&Point::new(1, 0)));
}

#[test]
fn piece_t_piece_west() {
    let config = Config::default();
    let mut offset_box = PieceKind::T.get_unoriented_offset_box(&config);
    orient_offset_box(&mut offset_box, &Orientation::West);
    assert!(offset_box.offsets.contains(&Point::new(1, 2)));
    assert!(offset_box.offsets.contains(&Point::new(0, 1)));
    assert!(offset_box.offsets.contains(&Point::new(1, 1)));
    assert!(offset_box.offsets.contains(&Point::new(1, 0)));
}

#[test]
fn piece_z_piece_west() {
    let config = Config::default();
    let mut offset_box = PieceKind::Z.get_unoriented_offset_box(&config);
    orient_offset_box(&mut offset_box, &Orientation::West);
    assert!(offset_box.offsets.contains(&Point::new(1, 2)));
    assert!(offset_box.offsets.contains(&Point::new(0, 1)));
    assert!(offset_box.offsets.contains(&Point::new(1, 1)));
    assert!(offset_box.offsets.contains(&Point::new(0, 0)));
}

#[test]
fn piece_spawn_points() {
    let config = Config::default();
    assert_eq!(PieceKind::I.get_spawn_point(&config), Point::new(3, 2));
    for kind in [
        PieceKind::J,
        PieceKind::L,
        PieceKind::O,
        PieceKind::S,
        PieceKind::T,
        PieceKind::Z,
    ] {
        assert_eq!(kind.get_spawn_point(&config), Point::new(3, 3));
    }
    let piece = Piece::spawn(&config, &PieceKind::T);
    assert_eq!(piece.kind, PieceKind::T);
    assert_eq!(piece.orientation, Orientation::North);
    assert_eq!(piece.position, Point::new(3, 3));
    assert!(piece.is_in_bounds());
    for kind in piece_kinds() {
        for point in Piece::spawn(&config, &kind).get_points(&config) {
            assert!(point.y == 4 || point.y == 5);
            assert!(point.x >= 3 && point.x <= 6);
        }
    }
}

#[test]
fn piece_points_of_every_orientation_of_t() {
    let config = Config::default();
    let at = |orientation: Orientation| {
        Piece { kind: PieceKind::T, orientation, position: Point::new(4, 1) }.get_points(&config)
    };
    assert_eq!(
        at(Orientation::North),
        [Point::new(5, 3), Point::new(4, 2), Point::new(5, 2), Point::new(6, 2)]
    );
    assert_eq!(
        at(Orientation::South),
        [Point::new(5, 1), Point::new(6, 2), Point::new(5, 2), Point::new(4, 2)]
    );
    assert_eq!(
        at(Orientation::East),
        [Point::new(6, 2), Point::new(5, 3), Point::new(5, 2), Point::new(5, 1)]
    );
    assert_eq!(
        at(Orientation::West),
        [Point::new(4, 2), Point::new(5, 1), Point::new(5, 2), Point::new(5, 3)]
    );
}

#[test]
fn piece_four_clockwise_turns_give_the_cells_back() {
    let config = Config::default();
    for kind in piece_kinds() {
        let offsets = kind.get_position_offsets(&config);
        let size = kind.get_bounding_box_size(&config) as isize;
        for offset in offsets {
            let mut turned = offset;
            for _ in 0..4 {
                turned = Point::new(turned.y, size - 1 - turned.x);
            }
            assert_eq!(turned, offset);
        }
        let mut orientation = Orientation::North;
        for _ in 0..4 {
            orientation = orientation.rotated(&pc_solver::utils::rotation::Rotation::Clockwise);
        }
        assert_eq!(orientation, Orientation::North);
    }
}

#[test]
fn piece_kind_bytes_round_trip() {
    let kinds = piece_kinds();
    for byte in 0u8..7 {
        let kind = PieceKind::from_byte(byte).unwrap();
        assert_eq!(kind, kinds[byte as usize]);
        assert_eq!(kind.to_byte(), byte);
        assert_eq!(kind.index(), byte as usize);
        assert_eq!(PieceKind::try_from(byte), Ok(kind));
    }
    assert_eq!(PieceKind::from_byte(7), None);
    assert_eq!(PieceKind::from_byte(255), None);
    assert_eq!(PieceKind::try_from(9u8), Err(()));
}

#[test]
fn piece_bounding_boxes() {
    let config = Config::default();
    assert_eq!(PieceKind::I.get_bounding_box_size(&config), 4);
    assert_eq!(PieceKind::O.get_bounding_box_size(&config), 4);
    for kind in [PieceKind::J, PieceKind::L, PieceKind::S, PieceKind::T, PieceKind::Z] {
        assert_eq!(kind.get_bounding_box_size(&config), 3);
    }
}
