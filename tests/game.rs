use hex_chess::{Coord, Game, GameError, GetError, HexBoard, MoveError, MoveErrorType, Name, Piece, Team};

#[test]
fn moving_works() {
    let mut game = Game::new();
    assert_eq!(game.move_piece((0, -1).into(), (0, 0).into()), Ok(()));
}

#[test]
fn unable_to_move_wrong_team() {
    let mut game = Game::new();
    assert_eq!(
        game.move_piece((0, 1).into(), (0, 0).into()),
        Err(GameError::TurnError {
            given: Team::Black,
            real: Team::White
        })
    );
}

#[test]
fn turns_alternate() {
    let mut game = Game::new();
    assert_eq!(game.turn, Team::White);
    assert!(!game.finished());
    assert_eq!(game.move_piece(Coord::new(0, -1), Coord::new(0, 0)), Ok(()));
    assert_eq!(game.turn, Team::Black);
    assert_eq!(game.move_piece(Coord::new(-1, 2), Coord::new(-1, 1)), Ok(()));
    assert_eq!(game.turn, Team::White);
    assert!(!game.finished());
}

#[test]
fn wrong_team_leaves_the_game_unchanged() {
    let mut game = Game::new();
    assert_eq!(game.move_piece(Coord::new(0, -1), Coord::new(0, 0)), Ok(()));
    let before = format!("{:?}", game.board);
    assert_eq!(
        game.move_piece(Coord::new(1, -2), Coord::new(1, -1)),
        Err(GameError::TurnError { given: Team::White, real: Team::Black })
    );
    assert_eq!(game.turn, Team::Black);
    assert_eq!(format!("{:?}", game.board), before);
}

#[test]
fn black_pawn_cannot_step_onto_the_advanced_white_pawn() {
    let mut game = Game::new();
    assert_eq!(game.move_piece(Coord::new(0, -1), Coord::new(0, 0)), Ok(()));
    assert_eq!(
        game.move_piece(Coord::new(0, 1), Coord::new(0, 0)),
        Err(GameError::MoveError(MoveError {
            err_type: MoveErrorType::InvalidMove(Piece::new(Name::Pawn, Team::Black)),
            from: Coord::new(0, 1),
            to: Coord::new(0, 0),
        }))
    );
    assert_eq!(game.turn, Team::Black);
}

#[test]
fn empty_cell_is_a_piece_error() {
    let mut game = Game::new();
    assert_eq!(
        game.move_piece(Coord::new(0, 0), Coord::new(0, 1)),
        Err(GameError::PieceError(GetError::NoPiece(Coord::new(0, 0))))
    );
    assert_eq!(game.turn, Team::White);
}

#[test]
fn checkmate_finishes_the_game() {
    let mut game = Game::default();
    let mut board = HexBoard::new();
    board.place(Coord::new(0, 5), Piece::new(Name::King, Team::Black));
    board.place(Coord::new(-5, 1), Piece::new(Name::Queen, Team::White));
    board.place(Coord::new(-1, -4), Piece::new(Name::Rook, Team::White));
    board.place(Coord::new(1, -5), Piece::new(Name::King, Team::White));
    game.board = board;
    assert_eq!(game.move_piece(Coord::new(-5, 1), Coord::new(-1, 5)), Ok(()));
    assert!(game.finished());
    assert_eq!(game.turn, Team::Black);
    assert_eq!(game.move_piece(Coord::new(0, 5), Coord::new(1, 4)), Err(GameError::GameOver));
}

#[test]
fn game_errors_convert_from_board_errors() {
    let e = GetError::NoPiece(Coord::new(2, 2));
    assert_eq!(GameError::from(e), GameError::PieceError(e));
    let m = MoveError { err_type: MoveErrorType::NoPiece(e), from: Coord::new(2, 2), to: Coord::new(2, 3) };
    assert_eq!(GameError::from(m), GameError::MoveError(m));
    assert_eq!(MoveErrorType::from(e), MoveErrorType::NoPiece(e));
}
