use hex_chess::{Coord, GetError, HexBoard, MoveError, MoveErrorType, Name, Piece, Team};

// check that a move is valid and that the piece has the state expected
fn check_move(board: &mut HexBoard, f: Coord, t: Coord, start_piece: Piece, end_piece: Piece) {
    assert_eq!(board.get(f), Ok(&start_piece), "state:\n{:?}", board);
    assert_eq!(board.move_piece(f, t), Ok(()));
    assert_eq!(board.get(t), Ok(&end_piece), "state:\n{:?}", board);
}

// check a move is valid for a piece with the same state before and after the move
fn check_move_sym(board: &mut HexBoard, f: Coord, t: Coord, piece: Piece) {
    check_move(board, f, t, piece, piece)
}

fn check_move_fails(
    board: &mut HexBoard,
    f: Coord,
    t: Coord,
    piece: Option<Piece>,
    error: MoveError,
) {
    if let Some(piece) = piece {
        assert_eq!(board.get(f), Ok(&piece), "state:\n{:?}", board);
    }
    assert_eq!(board.move_piece(f, t), Err(error));
}

#[test]
fn board_new() {
    let _board = HexBoard::new();
}

#[test]
fn board_move_no_piece_is_err() {
    let mut board = HexBoard::new();
    check_move_fails(
        &mut board,
        (0, 0).into(),
        (1, 0).into(),
        None,
        MoveError {
            err_type: GetError::NoPiece((0, 0).into()).into(),
            from: (0, 0).into(),
            to: (1, 0).into(),
        },
    );
}

#[test]
fn board_move_pawn() {
    let mut board = HexBoard::new();
    let pawn = Piece::new(Name::Pawn, Team::White);
    board.place((0, -2).into(), pawn.clone());
    board.place((-1, -1).into(), pawn);
    board.place((1, 1).into(), Piece::new(Name::Pawn, Team::Black));

    // move one
    check_move(
        &mut board,
        (0, -2).into(),
        (0, -1).into(),
        Piece::new(Name::Pawn, Team::White),
        Piece::new(Name::Pawn, Team::White),
    );

    // move 2
    check_move(
        &mut board,
        (-1, -1).into(),
        (-1, 1).into(),
        Piece::new(Name::Pawn, Team::White),
        Piece::new(Name::Pawn, Team::White),
    );

    // move 3 fails
    check_move_fails(
        &mut board,
        (-1, 1).into(),
        (-1, 3).into(),
        Some(Piece::new(Name::Pawn, Team::White)),
        MoveError {
            err_type: MoveErrorType::InvalidMove(Piece::new(Name::Pawn, Team::White)),
            from: (-1, 1).into(),
            to: (-1, 3).into(),
        },
    );

    // cannot move diagonally
    check_move_fails(
        &mut board,
        (-1, 1).into(),
        (0, 1).into(),
        Some(Piece::new(Name::Pawn, Team::White)),
        MoveError {
            err_type: MoveErrorType::InvalidMove(Piece::new(Name::Pawn, Team::White)),
            from: (-1, 1).into(),
            to: (0, 1).into(),
        },
    );

    // move black (reflected over q axis)
    check_move(
        &mut board,
        (1, 1).into(),
        (1, -1).into(),
        Piece::new(Name::Pawn, Team::Black),
        Piece::new(Name::Pawn, Team::Black),
    );

    // capture
    check_move(
        &mut board,
        (0, -1).into(),
        (1, -1).into(),
        Piece::new(Name::Pawn, Team::White),
        Piece::new(Name::Pawn, Team::White),
    )
}

#[test]
fn board_move_bishop() {
    let mut board = HexBoard::new();
    let bishop = Piece::new(Name::Bishop, Team::Black);
    board.place((0, 0).into(), bishop);

    check_move_sym(&mut board, (0, 0).into(), (1, 1).into(), bishop);
    check_move_sym(&mut board, (1, 1).into(), (3, -3).into(), bishop);
    check_move_sym(&mut board, (3, -3).into(), (1, -2).into(), bishop);

    // invalid bishop moves fails
    check_move_fails(
        &mut board,
        (1, -2).into(),
        (1, 0).into(),
        Some(bishop),
        MoveError {
            err_type: MoveErrorType::InvalidMove(bishop),
            from: (1, -2).into(),
            to: (1, 0).into(),
        },
    );
}

#[test]
fn board_move_knight() {
    let mut board = HexBoard::new();
    let knight = Piece::new(Name::Knight, Team::Black);
    board.place((0, 0).into(), knight);

    check_move_sym(&mut board.clone(), (0, 0).into(), (3, -1).into(), knight);

    // knight cannot move in lines
    check_move_fails(
        &mut board,
        (0, 0).into(),
        (3, 0).into(),
        Some(knight),
        MoveError {
            err_type: MoveErrorType::InvalidMove(knight),
            from: (0, 0).into(),
            to: (3, 0).into(),
        },
    )
}

#[test]
fn board_move_king() {
    let mut board = HexBoard::new();
    let king = Piece::new(Name::King, Team::Black);
    board.place((0, 0).into(), king);

    // bishop single
    check_move_sym(&mut board.clone(), (0, 0).into(), (1, 1).into(), king);

    // normal move
    check_move_sym(&mut board.clone(), (0, 0).into(), (1, 0).into(), king);

    // can't move by more than 1
    check_move_fails(
        &mut board.clone(),
        (0, 0).into(),
        (2, 0).into(),
        Some(king),
        MoveError {
            err_type: MoveErrorType::InvalidMove(king),
            from: (0, 0).into(),
            to: (2, 0).into(),
        },
    );
}

fn count_pieces(board: &HexBoard) -> usize {
    let mut n = 0;
    for q in -5..=5 {
        for r in -5..=5 {
            if board.get(Coord::new(q, r)).is_ok() {
                n += 1;
            }
        }
    }
    n
}

#[test]
fn opening_position_has_eighteen_pieces_a_side() {
    let board = HexBoard::new_initialize();
    assert_eq!(count_pieces(&board), 36);
    assert_eq!(board.get(Coord::new(1, -5)), Ok(&Piece::new(Name::King, Team::White)));
    assert_eq!(board.get(Coord::new(1, 4)), Ok(&Piece::new(Name::King, Team::Black)));
    assert_eq!(board.get(Coord::new(-1, -4)), Ok(&Piece::new(Name::Queen, Team::White)));
    assert_eq!(board.get(Coord::new(-1, 5)), Ok(&Piece::new(Name::Queen, Team::Black)));
    assert_eq!(board.get(Coord::new(0, -3)), Ok(&Piece::new(Name::Bishop, Team::White)));
    assert_eq!(board.get(Coord::new(0, 3)), Ok(&Piece::new(Name::Bishop, Team::Black)));
    assert_eq!(board.get(Coord::new(4, -5)), Ok(&Piece::new(Name::Pawn, Team::White)));
    assert_eq!(board.get(Coord::new(4, 1)), Ok(&Piece::new(Name::Pawn, Team::Black)));
    assert_eq!(board.get(Coord::new(0, 0)), Err(GetError::NoPiece(Coord::new(0, 0))));
}

#[test]
fn get_off_the_board_is_no_piece() {
    let board = HexBoard::new_initialize();
    assert_eq!(board.get(Coord::new(5, 5)), Err(GetError::NoPiece(Coord::new(5, 5))));
    assert_eq!(
        board.get(Coord::new(i32::MAX, i32::MIN)),
        Err(GetError::NoPiece(Coord::new(i32::MAX, i32::MIN)))
    );
}

#[test]
fn capture_removes_exactly_one_piece() {
    let mut board = HexBoard::new();
    let rook = Piece::new(Name::Rook, Team::White);
    let victim = Piece::new(Name::Knight, Team::Black);
    board.place(Coord::new(0, -3), rook);
    board.place(Coord::new(0, 2), victim);
    board.place(Coord::new(2, 2), Piece::new(Name::Pawn, Team::Black));
    assert_eq!(count_pieces(&board), 3);
    assert_eq!(board.move_piece(Coord::new(0, -3), Coord::new(0, 2)), Ok(()));
    assert_eq!(count_pieces(&board), 2);
    assert_eq!(board.get(Coord::new(0, 2)), Ok(&rook));
    assert_eq!(board.get(Coord::new(0, -3)), Err(GetError::NoPiece(Coord::new(0, -3))));
    assert_eq!(board.get(Coord::new(2, 2)), Ok(&Piece::new(Name::Pawn, Team::Black)));
}

#[test]
fn quiet_move_keeps_the_piece_count() {
    let mut board = HexBoard::new_initialize();
    assert_eq!(board.move_piece(Coord::new(-2, -3), Coord::new(-1, 0)), Err(MoveError {
        err_type: MoveErrorType::InvalidMove(Piece::new(Name::Knight, Team::White)),
        from: Coord::new(-2, -3),
        to: Coord::new(-1, 0),
    }));
    assert_eq!(board.move_piece(Coord::new(-2, -3), Coord::new(-3, 0)), Ok(()));
    assert_eq!(count_pieces(&board), 36);
}

#[test]
fn rejected_move_leaves_the_board_unchanged() {
    let mut board = HexBoard::new_initialize();
    let before = format!("{:?}", board);
    // the queen is blocked by its own pawn
    assert_eq!(
        board.move_piece(Coord::new(-1, -4), Coord::new(-1, 0)),
        Err(MoveError {
            err_type: MoveErrorType::CollisionOnPath(Piece::new(Name::Queen, Team::White)),
            from: Coord::new(-1, -4),
            to: Coord::new(-1, 0),
        })
    );
    assert_eq!(format!("{:?}", board), before);
    // a capture of an own piece
    assert!(board.move_piece(Coord::new(0, -5), Coord::new(0, -4)).is_err());
    assert_eq!(format!("{:?}", board), before);
    // an empty start cell
    assert!(board.move_piece(Coord::new(0, 0), Coord::new(0, 1)).is_err());
    assert_eq!(format!("{:?}", board), before);
    assert_eq!(
        board.can_move(Coord::new(-1, -4), Coord::new(-1, 0)),
        board.clone().move_piece(Coord::new(-1, -4), Coord::new(-1, 0))
    );
}

#[test]
fn rook_is_blocked_on_its_path() {
    let mut board = HexBoard::new();
    let rook = Piece::new(Name::Rook, Team::White);
    board.place(Coord::new(0, 0), rook);
    board.place(Coord::new(0, 2), Piece::new(Name::Pawn, Team::Black));
    assert_eq!(
        board.can_move(Coord::new(0, 0), Coord::new(0, 4)),
        Err(MoveError {
            err_type: MoveErrorType::CollisionOnPath(rook),
            from: Coord::new(0, 0),
            to: Coord::new(0, 4),
        })
    );
    assert_eq!(board.can_move(Coord::new(0, 0), Coord::new(0, 2)), Ok(()));
    assert_eq!(board.can_move(Coord::new(0, 0), Coord::new(0, 1)), Ok(()));
}

#[test]
fn bishop_is_blocked_on_its_diagonal() {
    let mut board = HexBoard::new();
    let bishop = Piece::new(Name::Bishop, Team::White);
    board.place(Coord::new(0, 0), bishop);
    board.place(Coord::new(1, 1), Piece::new(Name::Pawn, Team::White));
    assert_eq!(
        board.can_move(Coord::new(0, 0), Coord::new(2, 2)),
        Err(MoveError {
            err_type: MoveErrorType::CollisionOnPath(bishop),
            from: Coord::new(0, 0),
            to: Coord::new(2, 2),
        })
    );
    // cells next to the diagonal do not block it
    board.place(Coord::new(1, 0), Piece::new(Name::Pawn, Team::White));
    assert_eq!(board.can_move(Coord::new(0, 0), Coord::new(-2, 4)), Ok(()));
}

#[test]
fn knight_jumps_over_pieces() {
    let mut board = HexBoard::new();
    let knight = Piece::new(Name::Knight, Team::White);
    board.place(Coord::new(0, 0), knight);
    for &(q, r) in &[(1, 0), (1, -1), (0, -1), (-1, 0), (-1, 1), (0, 1)] {
        board.place(Coord::new(q, r), Piece::new(Name::Pawn, Team::White));
    }
    assert_eq!(board.can_move(Coord::new(0, 0), Coord::new(1, 2)), Ok(()));
    assert_eq!(board.can_move(Coord::new(0, 0), Coord::new(-3, 2)), Ok(()));
}

#[test]
fn moves_off_the_board_are_invalid() {
    let mut board = HexBoard::new();
    let rook = Piece::new(Name::Rook, Team::White);
    board.place(Coord::new(0, 5), rook);
    assert_eq!(
        board.can_move(Coord::new(0, 5), Coord::new(0, 6)),
        Err(MoveError {
            err_type: MoveErrorType::InvalidMove(rook),
            from: Coord::new(0, 5),
            to: Coord::new(0, 6),
        })
    );
    assert_eq!(
        board.can_move(Coord::new(0, 5), Coord::new(6, -1)),
        Err(MoveError {
            err_type: MoveErrorType::InvalidMove(rook),
            from: Coord::new(0, 5),
            to: Coord::new(6, -1),
        })
    );
    assert!(board.can_move(Coord::new(0, 5), Coord::new(-5, 5)).is_ok());
    assert!(board.can_move(Coord::new(0, 5), Coord::new(5, 0)).is_ok());
}

#[test]
fn pawn_captures_only_diagonally_and_moves_only_forward() {
    let mut board = HexBoard::new();
    let pawn = Piece::new(Name::Pawn, Team::White);
    board.place(Coord::new(2, -2), pawn);
    board.place(Coord::new(2, -1), Piece::new(Name::Rook, Team::Black));
    board.place(Coord::new(3, -2), Piece::new(Name::Rook, Team::Black));
    // forward onto a piece is refused
    assert!(board.can_move(Coord::new(2, -2), Coord::new(2, -1)).is_err());
    // diagonal capture
    assert_eq!(board.can_move(Coord::new(2, -2), Coord::new(3, -2)), Ok(()));
    // diagonal onto an empty cell is refused
    assert!(board.can_move(Coord::new(2, -2), Coord::new(1, -1)).is_err());
    // backwards is refused
    assert!(board.can_move(Coord::new(2, -2), Coord::new(2, -3)).is_err());
}

#[test]
fn pawn_double_step_depends_on_the_target_cell() {
    let mut board = HexBoard::new();
    let pawn = Piece::new(Name::Pawn, Team::White);
    board.place(Coord::new(0, -2), pawn);
    board.place(Coord::new(2, -3), pawn);
    assert_eq!(board.move_piece(Coord::new(0, -2), Coord::new(0, -1)), Ok(()));
    // (0, 1) is one of the double-step cells
    assert_eq!(board.can_move(Coord::new(0, -1), Coord::new(0, 1)), Ok(()));
    // (2, -1) is not
    assert_eq!(
        board.can_move(Coord::new(2, -3), Coord::new(2, -1)),
        Err(MoveError {
            err_type: MoveErrorType::InvalidMove(pawn),
            from: Coord::new(2, -3),
            to: Coord::new(2, -1),
        })
    );
    // a double step may not jump over a piece
    board.place(Coord::new(0, 0), Piece::new(Name::Knight, Team::Black));
    assert_eq!(
        board.can_move(Coord::new(0, -1), Coord::new(0, 1)),
        Err(MoveError {
            err_type: MoveErrorType::CollisionOnPath(pawn),
            from: Coord::new(0, -1),
            to: Coord::new(0, 1),
        })
    );
}

fn checked_position() -> HexBoard {
    let mut board = HexBoard::new();
    board.place(Coord::new(0, 5), Piece::new(Name::King, Team::Black));
    board.place(Coord::new(0, -2), Piece::new(Name::Rook, Team::White));
    board.place(Coord::new(-3, 0), Piece::new(Name::Knight, Team::Black));
    board.place(Coord::new(1, -5), Piece::new(Name::King, Team::White));
    board
}

#[test]
fn team_in_check_must_leave_check() {
    let board = checked_position();
    // a knight move that does not block the rook is refused
    assert_eq!(
        board.can_move(Coord::new(-3, 0), Coord::new(-1, -3)),
        Err(MoveError {
            err_type: MoveErrorType::InvalidMove(Piece::new(Name::Knight, Team::Black)),
            from: Coord::new(-3, 0),
            to: Coord::new(-1, -3),
        })
    );
    // blocking the rook's line is accepted
    assert_eq!(board.can_move(Coord::new(-3, 0), Coord::new(0, -1)), Ok(()));
    // stepping off the line is accepted
    assert_eq!(board.can_move(Coord::new(0, 5), Coord::new(1, 4)), Ok(()));
    assert!(!board.is_checkmated(Team::Black));
    assert!(!board.is_checkmated(Team::White));
}

#[test]
fn check_is_recorded_after_place_and_move() {
    let mut board = HexBoard::new();
    board.place(Coord::new(0, 5), Piece::new(Name::King, Team::Black));
    board.place(Coord::new(-3, 0), Piece::new(Name::Knight, Team::Black));
    board.place(Coord::new(2, -2), Piece::new(Name::Rook, Team::White));
    // not in check: an unrelated knight move is fine
    assert_eq!(board.can_move(Coord::new(-3, 0), Coord::new(-1, -3)), Ok(()));
    // the rook gives check along q = 0
    assert_eq!(board.move_piece(Coord::new(2, -2), Coord::new(0, -2)), Ok(()));
    assert!(board.can_move(Coord::new(-3, 0), Coord::new(-1, -3)).is_err());
}

fn mating_position() -> HexBoard {
    let mut board = HexBoard::new();
    board.place(Coord::new(0, 5), Piece::new(Name::King, Team::Black));
    board.place(Coord::new(-5, 1), Piece::new(Name::Queen, Team::White));
    board.place(Coord::new(-1, -4), Piece::new(Name::Rook, Team::White));
    board.place(Coord::new(1, -5), Piece::new(Name::King, Team::White));
    board
}

#[test]
fn queen_and_rook_mate_the_king_in_the_corner() {
    let mut board = mating_position();
    assert!(!board.is_checkmated(Team::Black));
    assert_eq!(board.move_piece(Coord::new(-5, 1), Coord::new(-1, 5)), Ok(()));
    assert!(board.is_checkmated(Team::Black));
    assert!(!board.is_checkmated(Team::White));
    // the king cannot take the protected queen
    assert!(board.can_move(Coord::new(0, 5), Coord::new(-1, 5)).is_err());
}

#[test]
fn default_board_is_empty() {
    let board = HexBoard::default();
    assert_eq!(count_pieces(&board), 0);
}
