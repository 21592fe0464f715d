use vstd::prelude::*;
use crate::board::{balanced, lemma_empty_balanced, lemma_turn_keeps_balance, to_move, Board, Cell, IllegalMove, Mark};
use crate::heuristic::{computer_move_normal, heuristic_choice, heuristic_move_with, heuristic_step};
use crate::optimal::{computer_move_god, lemma_no_new_line, optimal_move};
use crate::rules::lemma_ongoing;
use crate::rules::{classify, outcome, RoundOutcome};

verus! {

/// Points added to a score for each round won.
pub const WIN_POINTS: u32 = 100;

/// Which strategy the computer plays for a whole session.
#[derive(Clone, Copy, Debug, PartialEq, Eq, Structural)]
pub enum Mode {
    /// The one-ply heuristic.
    Normal,
    /// The exhaustive minimax search.
    God,
}

/// Where a session stands.
#[derive(Clone, Copy, Debug, PartialEq, Eq, Structural)]
pub enum Phase {
    AwaitingPlayerMove,
    AwaitingComputerMove,
    RoundOver,
    SessionOver,
}

/// The final record of a session: who played and the two scores.
pub struct GameData {
    pub username: String,
    pub player_score: u32,
    pub computer_score: u32,
}

/// A run of rounds between one player and the computer, with the scores.
pub struct Session {
    pub username: String,
    pub player_score: u32,
    pub computer_score: u32,
    pub draws: u32,
    pub mode: Mode,
    pub board: Board,
    pub phase: Phase,
}

/// The phase after a move that led to `o`, with `next` to move if it goes on.
pub open spec fn phase_after(o: RoundOutcome, next: Phase) -> Phase {
    if o is Ongoing {
        next
    } else {
        Phase::RoundOver
    }
}

impl Session {
    /// The board is balanced, and while a round is open it is not decided
    /// and the phase names the side whose turn it is.
    pub open spec fn wf(self) -> bool {
        &&& balanced(self.board@)
        &&& self.phase is AwaitingPlayerMove ==> outcome(self.board@) is Ongoing && to_move(
            self.board@,
        ) == Mark::Player
        &&& self.phase is AwaitingComputerMove ==> outcome(self.board@) is Ongoing && to_move(
            self.board@,
        ) == Mark::Computer
    }

    /// The counter that the outcome `o` raises has room for it.
    pub open spec fn room_for(self, o: RoundOutcome) -> bool {
        match o {
            RoundOutcome::PlayerWin(_) => self.player_score <= u32::MAX - WIN_POINTS,
            RoundOutcome::ComputerWin(_) => self.computer_score <= u32::MAX - WIN_POINTS,
            RoundOutcome::Draw => self.draws < u32::MAX,
            RoundOutcome::Ongoing => true,
        }
    }

    /// The board after the computer's move when the heuristic's random rule
    /// would draw `fallback`.
    pub open spec fn reply_board(self, fallback: usize) -> Seq<Cell> {
        let m = if self.mode == Mode::God {
            optimal_move(self.board@)
        } else {
            heuristic_choice(self.board@, fallback)
        };
        match m {
            Some(m) => self.board@.update(m as int, Cell::Computer),
            None => self.board@,
        }
    }

    /// `new` is `old` after a move that left `board` with outcome `o`: a win
    /// adds the points to the winner, a draw counts one more draw, and the
    /// round ends unless it goes on with `next` to move.
    pub open spec fn settled(old: Session, new: Session, board: Seq<Cell>, o: RoundOutcome, next: Phase) -> bool {
        &&& o == outcome(board)
        &&& new.board@ == board
        &&& new.username@ == old.username@
        &&& new.mode == old.mode
        &&& new.player_score == old.player_score + if o is PlayerWin {
            WIN_POINTS as int
        } else {
            0
        }
        &&& new.computer_score == old.computer_score + if o is ComputerWin {
            WIN_POINTS as int
        } else {
            0
        }
        &&& new.draws == old.draws + if o is Draw {
            1int
        } else {
            0
        }
        &&& new.phase == phase_after(o, next)
    }

    /// A session with no score yet, waiting for the player's first move on
    /// an empty board.
    pub fn new(username: String, mode: Mode) -> (r: Session)
        ensures
            r.wf(),
            r.username@ == username@,
            r.mode == mode,
            r.player_score == 0,
            r.computer_score == 0,
            r.draws == 0,
            r.phase == Phase::AwaitingPlayerMove,
            forall|i: int| 0 <= i < 9 ==> r.board@[i] == Cell::Empty,
    {
        let board = Board::new();
        proof {
            lemma_empty_balanced(board@);
            crate::rules::lemma_outcome_from(board@, 0);
        }
        Session {
            username,
            player_score: 0,
            computer_score: 0,
            draws: 0,
            mode,
            board,
            phase: Phase::AwaitingPlayerMove,
        }
    }

    /// Classify the board after a move, count the result, and move on to
    /// `next` if the round goes on.
    fn settle(&mut self, next: Phase) -> (r: RoundOutcome)
        requires
            old(self).room_for(outcome(old(self).board@)),
        ensures
            Session::settled(*old(self), *final(self), old(self).board@, r, next),
    {
        let o = classify(&self.board);
        match o {
            RoundOutcome::PlayerWin(_) => {
                self.player_score = self.player_score + WIN_POINTS;
                self.phase = Phase::RoundOver;
            },
            RoundOutcome::ComputerWin(_) => {
                self.computer_score = self.computer_score + WIN_POINTS;
                self.phase = Phase::RoundOver;
            },
            RoundOutcome::Draw => {
                self.draws = self.draws + 1;
                self.phase = Phase::RoundOver;
            },
            RoundOutcome::Ongoing => {
                self.phase = next;
            },
        }
        o
    }

    /// The player puts a mark on `index`; refused, with nothing changed, when
    /// the index is past the board or the cell is taken.
    pub fn player_move(&mut self, index: usize) -> (r: Result<RoundOutcome, IllegalMove>)
        requires
            old(self).wf(),
            old(self).phase == Phase::AwaitingPlayerMove,
            index < 9 && old(self).board@[index as int] == Cell::Empty ==> old(self).room_for(
                outcome(old(self).board@.update(index as int, Cell::Player)),
            ),
        ensures
            final(self).wf(),
            r is Err <==> !(index < 9 && old(self).board@[index as int] == Cell::Empty),
            r is Err ==> *final(self) == *old(self),
            r matches Ok(o) ==> Session::settled(
                *old(self),
                *final(self),
                old(self).board@.update(index as int, Cell::Player),
                o,
                Phase::AwaitingComputerMove,
            ),
    {
        if index >= 9 || self.board.cells[index] != Cell::Empty {
            return Err(IllegalMove);
        }
        proof {
            lemma_turn_keeps_balance(self.board@, index as int);
        }
        self.board.cells[index] = Cell::Player;
        Ok(self.settle(Phase::AwaitingComputerMove))
    }

    /// The computer moves with the session's strategy; the heuristic's
    /// random fallback draws among the empty cells.
    pub fn computer_move(&mut self) -> (r: RoundOutcome)
        requires
            old(self).wf(),
            old(self).phase == Phase::AwaitingComputerMove,
            old(self).computer_score <= u32::MAX - WIN_POINTS,
            old(self).draws < u32::MAX,
        ensures
            final(self).wf(),
            old(self).mode == Mode::God ==> (optimal_move(old(self).board@) matches Some(m)
                && Session::settled(
                *old(self),
                *final(self),
                old(self).board@.update(m as int, Cell::Computer),
                r,
                Phase::AwaitingPlayerMove,
            )),
            old(self).mode == Mode::Normal ==> heuristic_step(old(self).board@, final(self).board@)
                && Session::settled(
                *old(self),
                *final(self),
                final(self).board@,
                r,
                Phase::AwaitingPlayerMove,
            ),
    {
        let ghost before = self.board@;
        proof {
            crate::rules::lemma_outcome_from(before, 0);
        }
        match self.mode {
            Mode::God => computer_move_god(&mut self.board),
            Mode::Normal => computer_move_normal(&mut self.board),
        }
        proof {
            if self.mode == Mode::Normal && crate::heuristic::rule_move(before) is None {
                let m = choose|m: int|
                    0 <= m < 9 && before[m] == Cell::Empty && self.board@ == before.update(
                        m,
                        Cell::Computer,
                    );
                lemma_turn_keeps_balance(before, m);
            } else if self.mode == Mode::Normal {
                lemma_turn_keeps_balance(before, crate::heuristic::rule_move(before).unwrap() as int);
            } else {
                lemma_turn_keeps_balance(before, optimal_move(before).unwrap() as int);
            }
            lemma_ongoing(before);
            let m = choose|m: int| 0 <= m < 9 && self.board@ == before.update(m, Cell::Computer);
            lemma_no_new_line(before, m, Cell::Computer, Cell::Player);
            lemma_ongoing(self.board@);
        }
        self.settle(Phase::AwaitingPlayerMove)
    }

    /// The computer moves as `computer_move` does, with `fallback` as the
    /// cell that the heuristic's random rule would draw.
    pub fn computer_move_with(&mut self, fallback: usize) -> (r: RoundOutcome)
        requires
            old(self).wf(),
            old(self).phase == Phase::AwaitingComputerMove,
            old(self).room_for(outcome(old(self).reply_board(fallback))),
            old(self).mode == Mode::Normal ==> fallback < 9 && old(self).board@[fallback as int]
                == Cell::Empty,
        ensures
            final(self).wf(),
            old(self).mode == Mode::God ==> (optimal_move(old(self).board@) matches Some(m)
                && Session::settled(
                *old(self),
                *final(self),
                old(self).board@.update(m as int, Cell::Computer),
                r,
                Phase::AwaitingPlayerMove,
            )),
            old(self).mode == Mode::Normal ==> (heuristic_choice(old(self).board@, fallback) matches Some(m)
                && Session::settled(
                *old(self),
                *final(self),
                old(self).board@.update(m as int, Cell::Computer),
                r,
                Phase::AwaitingPlayerMove,
            )),
    {
        let ghost before = self.board@;
        proof {
            crate::rules::lemma_outcome_from(before, 0);
        }
        match self.mode {
            Mode::God => {
                computer_move_god(&mut self.board);
                proof {
                    lemma_turn_keeps_balance(before, optimal_move(before).unwrap() as int);
                }
            },
            Mode::Normal => {
                if let Some(m) = heuristic_move_with(&self.board, fallback) {
                    proof {
                        lemma_turn_keeps_balance(before, m as int);
                    }
                    self.board.cells[m] = Cell::Computer;
                }
            },
        }
        self.settle(Phase::AwaitingPlayerMove)
    }

    /// At the end of a round: start a fresh one, or end the session.
    pub fn finish_round(&mut self, again: bool)
        requires
            old(self).wf(),
            old(self).phase == Phase::RoundOver,
        ensures
            final(self).wf(),
            final(self).username@ == old(self).username@,
            final(self).mode == old(self).mode,
            final(self).player_score == old(self).player_score,
            final(self).computer_score == old(self).computer_score,
            final(self).draws == old(self).draws,
            again ==> final(self).phase == Phase::AwaitingPlayerMove && forall|i: int|
                0 <= i < 9 ==> final(self).board@[i] == Cell::Empty,
            !again ==> final(self).phase == Phase::SessionOver && final(self).board@ == old(
                self,
            ).board@,
    {
        if again {
            self.board = Board::new();
            proof {
                lemma_empty_balanced(self.board@);
                crate::rules::lemma_outcome_from(self.board@, 0);
            }
            self.phase = Phase::AwaitingPlayerMove;
        } else {
            self.phase = Phase::SessionOver;
        }
    }

    /// The final record of a finished session.
    pub fn game_data(self) -> (r: GameData)
        requires
            self.phase == Phase::SessionOver,
        ensures
            r.username@ == self.username@,
            r.player_score == self.player_score,
            r.computer_score == self.computer_score,
    {
        GameData {
            username: self.username,
            player_score: self.player_score,
            computer_score: self.computer_score,
        }
    }
}

} // verus!
