use vstd::prelude::*;
use crate::board::{empty_count, full, Board, Cell, Mark};
use crate::rules::{check_winner, complete, has_line, lemma_ongoing, line_at, outcome};

verus! {

/// The cell that the side to move writes: the computer maximises.
pub open spec fn mark_for(maximizing: bool) -> Cell {
    if maximizing {
        Cell::Computer
    } else {
        Cell::Player
    }
}

/// The better of two values for the side to move.
pub open spec fn better(maximizing: bool, a: int, b: int) -> int {
    if maximizing {
        if a >= b {
            a
        } else {
            b
        }
    } else {
        if a <= b {
            a
        } else {
            b
        }
    }
}

/// The worst value for the side to move.
pub open spec fn worst(maximizing: bool) -> int {
    if maximizing {
        -1
    } else {
        1
    }
}

/// The board is over: the computer or the player has a line, or no cell is
/// empty.
pub open spec fn decided(s: Seq<Cell>) -> bool {
    has_line(s, Cell::Computer) || has_line(s, Cell::Player) || full(s)
}

/// The game value of a board with the computer (`true`) or the player to
/// move: +1 when the computer has a line, else -1 when the player has one,
/// 0 on a full board; otherwise the best value that the side to move can
/// reach with one move.
pub open spec fn game_value(s: Seq<Cell>, maximizing: bool) -> int
    decreases empty_count(s), 10int,
{
    if s.len() != 9 {
        0
    } else if has_line(s, Cell::Computer) {
        1
    } else if has_line(s, Cell::Player) {
        -1
    } else if full(s) {
        0
    } else {
        best_upto(s, maximizing, 9)
    }
}

/// The best value, for the side to move, over the moves on the empty cells
/// below `n`; the worst value when there are none.
pub open spec fn best_upto(s: Seq<Cell>, maximizing: bool, n: int) -> int
    decreases empty_count(s), n,
{
    if n <= 0 || n > 9 || s.len() != 9 {
        worst(maximizing)
    } else if s[n - 1] == Cell::Empty {
        better(
            maximizing,
            best_upto(s, maximizing, n - 1),
            game_value(s.update(n - 1, mark_for(maximizing)), !maximizing),
        )
    } else {
        best_upto(s, maximizing, n - 1)
    }
}

/// The value of the board after the side to move takes the empty cell `k`.
pub open spec fn child_value(s: Seq<Cell>, maximizing: bool, k: int) -> int {
    game_value(s.update(k, mark_for(maximizing)), !maximizing)
}

/// The lowest empty cell below `n` whose move reaches the value `v`.
pub open spec fn first_reaching(s: Seq<Cell>, maximizing: bool, v: int, n: int) -> Option<usize>
    decreases n,
{
    if n <= 0 {
        None
    } else {
        match first_reaching(s, maximizing, v, n - 1) {
            Some(j) => Some(j),
            None => if s[n - 1] == Cell::Empty && child_value(s, maximizing, n - 1) == v {
                Some((n - 1) as usize)
            } else {
                None
            },
        }
    }
}

/// The best move: none on a board that is over, else the lowest empty cell
/// whose move reaches the game value.
pub open spec fn best_move(s: Seq<Cell>, maximizing: bool) -> Option<usize> {
    if s.len() != 9 || decided(s) {
        None
    } else {
        first_reaching(s, maximizing, game_value(s, maximizing), 9)
    }
}

/// The move the optimal strategy makes for the computer.
pub open spec fn optimal_move(s: Seq<Cell>) -> Option<usize> {
    best_move(s, true)
}

/// Full-depth minimax: the game value of `board` and the first move that
/// reaches it.
#[verifier::rlimit(40)]
pub fn minimax(board: Board, is_maximizing: bool) -> (r: (i32, Option<usize>))
    ensures
        r.0 as int == game_value(board@, is_maximizing),
        r.1 == best_move(board@, is_maximizing),
    decreases empty_count(board@),
{
    proof {
        lemma_game_value_unfold(board@, is_maximizing);
    }
    if check_winner(&board, Mark::Computer).is_some() {
        return (1, None);
    }
    if check_winner(&board, Mark::Player).is_some() {
        return (-1, None);
    }
    if board.is_full() {
        return (0, None);
    }
    let ghost s = board@;
    let mut best_score: i32 = if is_maximizing {
        i32::MIN
    } else {
        i32::MAX
    };
    let mut best_move: Option<usize> = None;
    let mut i: usize = 0;
    while i < 9
        invariant
            i <= 9,
            s == board@,
            s.len() == 9,
            !decided(s),
            best_move is None ==> {
                &&& best_score == if is_maximizing {
                    i32::MIN
                } else {
                    i32::MAX
                }
                &&& best_upto(s, is_maximizing, i as int) == worst(is_maximizing)
                &&& forall|k: int| 0 <= k < i ==> s[k] != Cell::Empty
            },
            best_move matches Some(j) ==> {
                &&& j < i
                &&& best_score == best_upto(s, is_maximizing, i as int)
                &&& first_reaching(s, is_maximizing, best_score as int, i as int) == Some(j)
                &&& -1 <= best_score <= 1
            },
            forall|v: int|
                (if is_maximizing {
                    v > best_score
                } else {
                    v < best_score
                }) ==> #[trigger] first_reaching(s, is_maximizing, v, i as int) is None,
        decreases 9 - i,
    {
        if board.cells[i] == Cell::Empty {
            let mut child = board;
            child.cells[i] = if is_maximizing {
                Cell::Computer
            } else {
                Cell::Player
            };
            assert(child@ == s.update(i as int, mark_for(is_maximizing)));
            let (score, _) = minimax(child, !is_maximizing);
            proof {
                lemma_value(child@, !is_maximizing);
                assert(score == child_value(s, is_maximizing, i as int));
                assert(best_upto(s, is_maximizing, i as int + 1) == better(
                    is_maximizing,
                    best_upto(s, is_maximizing, i as int),
                    score as int,
                ));
                assert(forall|v: int|
                    #[trigger] first_reaching(s, is_maximizing, v, i as int + 1) == match first_reaching(
                        s,
                        is_maximizing,
                        v,
                        i as int,
                    ) {
                        Some(j) => Some(j),
                        None => if score == v {
                            Some(i)
                        } else {
                            None
                        },
                    });
            }
            if is_maximizing && score > best_score {
                best_score = score;
                best_move = Some(i);
            } else if !is_maximizing && score < best_score {
                best_score = score;
                best_move = Some(i);
            }
        } else {
            assert(best_upto(s, is_maximizing, i as int + 1) == best_upto(s, is_maximizing, i as int));
            assert(forall|v: int|
                #[trigger] first_reaching(s, is_maximizing, v, i as int + 1) == first_reaching(
                    s,
                    is_maximizing,
                    v,
                    i as int,
                ));
        }
        i += 1;
    }
    (best_score, best_move)
}

/// Let the optimal strategy move for the computer: it takes the move that
/// `minimax` finds, and leaves a finished board as it is.
pub fn computer_move_god(board: &mut Board)
    ensures
        optimal_move(old(board)@) is Some <==> outcome(old(board)@) is Ongoing,
        optimal_move(old(board)@) matches Some(m) ==> m < 9 && old(board)@[m as int] == Cell::Empty
            && final(board)@ == old(board)@.update(m as int, Cell::Computer),
        optimal_move(old(board)@) is None ==> final(board)@ == old(board)@,
{
    let (_, best_move) = minimax(*board, true);
    proof {
        lemma_value(board@, true);
        lemma_ongoing(board@);
    }
    if let Some(index) = best_move {
        board.cells[index] = Cell::Computer;
    }
}

/// The optimal strategy is deterministic: two boards that hold the same cells
/// get the same move.
pub proof fn lemma_optimal_deterministic(a: Board, b: Board)
    requires
        a@ == b@,
    ensures
        optimal_move(a@) == optimal_move(b@),
{
}

/// The game value of a board, one step unfolded.
pub proof fn lemma_game_value_unfold(s: Seq<Cell>, maximizing: bool)
    requires
        s.len() == 9,
    ensures
        game_value(s, maximizing) == if has_line(s, Cell::Computer) {
            1
        } else if has_line(s, Cell::Player) {
            -1
        } else if full(s) {
            0
        } else {
            best_upto(s, maximizing, 9)
        },
{
}

/// The best value over the cells below `n`, one step unfolded.
proof fn lemma_best_unfold(s: Seq<Cell>, maximizing: bool, n: int)
    requires
        s.len() == 9,
        0 < n <= 9,
    ensures
        best_upto(s, maximizing, n) == if s[n - 1] == Cell::Empty {
            better(maximizing, best_upto(s, maximizing, n - 1), child_value(s, maximizing, n - 1))
        } else {
            best_upto(s, maximizing, n - 1)
        },
{
}

/// A cell found by `first_reaching` is empty, below `n`, and reaches `v`.
proof fn lemma_first_reaching(s: Seq<Cell>, maximizing: bool, v: int, n: int)
    requires
        0 <= n <= 9,
    ensures
        first_reaching(s, maximizing, v, n) matches Some(j) ==> j < n && s[j as int] == Cell::Empty
            && child_value(s, maximizing, j as int) == v,
    decreases n,
{
    if n > 0 {
        lemma_first_reaching(s, maximizing, v, n - 1);
    }
}

/// The best value over the cells below `n` lies in -1..=1, no empty cell
/// there beats it, and, when one is empty, the lowest cell reaching it is
/// found.
/// The best value over the cells below `n` lies in -1..=1, no empty cell
/// there beats it, and it is the worst value when no cell there is empty.
proof fn lemma_best_bound(s: Seq<Cell>, maximizing: bool, n: int)
    requires
        s.len() == 9,
        0 <= n <= 9,
    ensures
        -1 <= best_upto(s, maximizing, n) <= 1,
        forall|k: int|
            0 <= k < n && s[k] == Cell::Empty ==> better(
                maximizing,
                best_upto(s, maximizing, n),
                child_value(s, maximizing, k),
            ) == best_upto(s, maximizing, n),
        (forall|k: int| 0 <= k < n ==> s[k] != Cell::Empty) ==> best_upto(s, maximizing, n)
            == worst(maximizing),
    decreases empty_count(s), n, 0int,
{
    if n > 0 {
        lemma_best_bound(s, maximizing, n - 1);
        lemma_best_unfold(s, maximizing, n);
        if s[n - 1] == Cell::Empty {
            lemma_value(s.update(n - 1, mark_for(maximizing)), !maximizing);
        }
    }
}

/// When a cell below `n` is empty, the lowest cell reaching the best value
/// over them is found.
proof fn lemma_best(s: Seq<Cell>, maximizing: bool, n: int)
    requires
        s.len() == 9,
        0 <= n <= 9,
        exists|k: int| 0 <= k < n && s[k] == Cell::Empty,
    ensures
        first_reaching(s, maximizing, best_upto(s, maximizing, n), n) is Some,
    decreases empty_count(s), n, 1int,
{
    let b = best_upto(s, maximizing, n);
    lemma_best_unfold(s, maximizing, n);
    lemma_best_bound(s, maximizing, n);
    lemma_best_bound(s, maximizing, n - 1);
    lemma_first_reaching(s, maximizing, b, n - 1);
    let b0 = best_upto(s, maximizing, n - 1);
    if s[n - 1] == Cell::Empty {
        let c = child_value(s, maximizing, n - 1);
        lemma_value(s.update(n - 1, mark_for(maximizing)), !maximizing);
        assert(b == better(maximizing, b0, c));
        if exists|k: int| 0 <= k < n - 1 && s[k] == Cell::Empty {
            if b == b0 {
                lemma_best(s, maximizing, n - 1);
            } else {
                assert(first_reaching(s, maximizing, b, n - 1) is None);
            }
        } else {
            assert(first_reaching(s, maximizing, b, n - 1) is None);
        }
    } else {
        let k = choose|k: int| 0 <= k < n && s[k] == Cell::Empty;
        assert(0 <= k < n - 1);
        lemma_best(s, maximizing, n - 1);
    }
}

/// Game values lie in -1..=1; an open board has a best move, an empty cell
/// whose value is the board's, and no empty cell is better for the side to
/// move.
pub proof fn lemma_value(s: Seq<Cell>, maximizing: bool)
    requires
        s.len() == 9,
    ensures
        -1 <= game_value(s, maximizing) <= 1,
        best_move(s, maximizing) is Some <==> !decided(s),
        best_move(s, maximizing) matches Some(j) ==> {
            &&& j < 9
            &&& s[j as int] == Cell::Empty
            &&& game_value(s, maximizing) == child_value(s, maximizing, j as int)
        },
        !decided(s) ==> forall|k: int|
            0 <= k < 9 && s[k] == Cell::Empty ==> better(
                maximizing,
                game_value(s, maximizing),
                child_value(s, maximizing, k),
            ) == game_value(s, maximizing),
    decreases empty_count(s), 10int, 0int,
{
    lemma_game_value_unfold(s, maximizing);
    if !decided(s) {
        assert(!full(s));
        lemma_best_bound(s, maximizing, 9);
        lemma_best(s, maximizing, 9);
        lemma_first_reaching(s, maximizing, game_value(s, maximizing), 9);
    }
}

/// A mark of one side completes no line of the other.
pub proof fn lemma_no_new_line(s: Seq<Cell>, i: int, c: Cell, other: Cell)
    requires
        s.len() == 9,
        0 <= i < 9,
        c != other,
        !has_line(s, other),
    ensures
        !has_line(s.update(i, c), other),
{
    assert forall|k: int| 0 <= k < 8 implies !complete(s.update(i, c), line_at(k), other) by {
        assert(!complete(s, line_at(k), other));
    }
}

/// The optimal strategy never loses from a board that is not already lost:
/// with the player to move on an open board whose game value is not a loss
/// for the computer, no player move wins, and after the computer's reply the
/// board is either over without a player win or open with a value that is
/// still not a loss.
pub proof fn lemma_optimal_never_loses(s: Seq<Cell>, p: int)
    requires
        s.len() == 9,
        outcome(s) is Ongoing,
        0 <= p < 9,
        s[p] == Cell::Empty,
        game_value(s, false) >= 0,
    ensures
        !(outcome(s.update(p, Cell::Player)) is PlayerWin),
        outcome(s.update(p, Cell::Player)) is Ongoing ==> (optimal_move(s.update(p, Cell::Player))
            matches Some(m) && {
            let s2 = s.update(p, Cell::Player).update(m as int, Cell::Computer);
            &&& m < 9
            &&& s.update(p, Cell::Player)[m as int] == Cell::Empty
            &&& !(outcome(s2) is PlayerWin)
            &&& game_value(s2, false) >= 0
        }),
{
    let s1 = s.update(p, Cell::Player);
    lemma_game_value_unfold(s1, true);
    lemma_ongoing(s);
    lemma_value(s, false);
    assert(game_value(s1, true) >= 0);
    lemma_ongoing(s1);
    lemma_no_new_line(s, p, Cell::Player, Cell::Computer);
    lemma_value(s1, true);
    if outcome(s1) is Ongoing {
        let m = optimal_move(s1).unwrap();
        let s2 = s1.update(m as int, Cell::Computer);
        lemma_no_new_line(s1, m as int, Cell::Computer, Cell::Player);
        lemma_ongoing(s2);
        lemma_game_value_unfold(s2, false);
        lemma_value(s2, false);
    }
}

} // verus!
