use vstd::prelude::*;

use crate::board::{
    checkmated, move_outcome, relocated, starting_position, GetError, HexBoard, MoveError,
};
use crate::coord::Coord;
use crate::piece::{Piece, Team};
use crate::render::game_text;

verus! {

#[derive(Debug, Clone, Copy, PartialEq, Eq, Structural)]
pub enum GameError {
    PieceError(GetError),
    TurnError { given: Team, real: Team },
    MoveError(MoveError),
    /// The game is over: the side to move is checkmated.
    GameOver,
}

impl From<GetError> for GameError {
    fn from(e: GetError) -> (g: GameError) {
        GameError::PieceError(e)
    }
}

impl vstd::std_specs::convert::FromSpecImpl<GetError> for GameError {
    open spec fn obeys_from_spec() -> bool {
        true
    }

    open spec fn from_spec(e: GetError) -> GameError {
        GameError::PieceError(e)
    }
}

impl From<MoveError> for GameError {
    fn from(e: MoveError) -> (g: GameError) {
        GameError::MoveError(e)
    }
}

impl vstd::std_specs::convert::FromSpecImpl<MoveError> for GameError {
    open spec fn obeys_from_spec() -> bool {
        true
    }

    open spec fn from_spec(e: MoveError) -> GameError {
        GameError::MoveError(e)
    }
}

/// What a move request returns, given whose turn it is, whether the game is
/// over, and the position.
pub open spec fn game_outcome(
    turn: Team,
    finished: bool,
    b: Map<Coord, Piece>,
    from: Coord,
    to: Coord,
) -> Result<(), GameError> {
    if finished {
        Err(GameError::GameOver)
    } else if !b.contains_key(from) {
        Err(GameError::PieceError(GetError::NoPiece(from)))
    } else if b[from].team != turn {
        Err(GameError::TurnError { given: b[from].team, real: turn })
    } else {
        match move_outcome(b, from, to) {
            Ok(()) => Ok(()),
            Err(e) => Err(GameError::MoveError(e)),
        }
    }
}

/// While the game runs, a move of a piece of the team not on turn is refused
/// with a `TurnError` naming that piece's team and the team on turn.
pub proof fn lemma_wrong_team_refused(
    turn: Team,
    b: Map<Coord, Piece>,
    from: Coord,
    to: Coord,
)
    requires
        b.contains_key(from),
        b[from].team != turn,
    ensures
        game_outcome(turn, false, b, from, to) == Err::<(), GameError>(
            GameError::TurnError { given: turn.other(), real: turn },
        ),
{
    assert(b[from].team == turn.other());
}

/// A game session: the team to move, the board, and whether the game is over.
pub struct Game {
    pub turn: Team,
    pub board: HexBoard,
    finished: bool,
}

impl Game {
    /// The side to move was checkmated by the last move.
    pub closed spec fn is_over(&self) -> bool {
        self.finished
    }

    /// The team to move.
    pub closed spec fn to_move(&self) -> Team {
        self.turn
    }

    /// The occupied cells and their pieces.
    pub closed spec fn position(&self) -> Map<Coord, Piece> {
        self.board@
    }

    /// The board is well formed.
    pub closed spec fn wf(&self) -> bool {
        self.board.wf()
    }

    /// White to move on the opening position.
    pub fn new() -> (g: Game)
        ensures
            g.to_move() == Team::White,
            g.wf(),
            g.position() == starting_position(),
            !g.is_over(),
    {
        Game { turn: Team::White, board: HexBoard::new_initialize(), finished: false }
    }

    /// Plays a move for the team on turn. On success the turn passes to the
    /// other team and the game is over iff that team is checkmated; a rejected
    /// move changes nothing.
    pub fn move_piece(&mut self, from: Coord, to: Coord) -> (r: Result<(), GameError>)
        requires
            old(self).wf(),
        ensures
            final(self).wf(),
            r == game_outcome(old(self).to_move(), old(self).is_over(), old(self).position(), from, to),
            r is Ok ==> {
                &&& final(self).position() == relocated(old(self).position(), from, to)
                &&& final(self).to_move() == old(self).to_move().other()
                &&& final(self).is_over() == checkmated(final(self).position(), final(self).to_move())
            },
            r is Err ==> *final(self) == *old(self),
    {
        if self.finished {
            return Err(GameError::GameOver);
        }
        let piece = match self.board.get(from) {
            Ok(p) => *p,
            Err(e) => {
                return Err(GameError::PieceError(e));
            },
        };
        if piece.team != self.turn {
            return Err(GameError::TurnError { given: piece.team, real: self.turn });
        }
        match self.board.move_piece(from, to) {
            Ok(()) => {},
            Err(e) => {
                return Err(GameError::MoveError(e));
            },
        }
        let next = self.turn.flip();
        self.finished = self.board.is_checkmated(next);
        self.turn = next;
        Ok(())
    }

    pub fn finished(&self) -> (b: bool)
        ensures
            b == self.is_over(),
    {
        self.finished
    }

    /// Whose turn it is and the board, as text, for a console.
    pub fn render(&self) -> (text: Vec<char>)
        requires
            self.wf(),
        ensures
            text@ == game_text(self.to_move(), self.position()),
    {
        let mut text: Vec<char> = match self.turn {
            Team::White => vec!['w', 'h', 'i', 't', 'e'],
            Team::Black => vec!['b', 'l', 'a', 'c', 'k'],
        };
        text.push('\'');
        text.push('s');
        text.push(' ');
        text.push('t');
        text.push('u');
        text.push('r');
        text.push('n');
        text.push('\n');
        let mut board = self.board.render();
        text.append(&mut board);
        text
    }
}

impl Default for Game {
    fn default() -> (g: Game)
        ensures
            g.to_move() == Team::White,
            g.wf(),
            g.position() == starting_position(),
            !g.is_over(),
    {
        Game::new()
    }
}

} // verus!
