use vstd::prelude::*;
use rand::seq::IteratorRandom;
use crate::board::{empties_of, full, Board, Cell, Mark};
use crate::rules::{check_winner, has_line};

verus! {

/// Putting `c` on the empty cell `i` fills a winning line with `c`.
pub open spec fn completes(s: Seq<Cell>, c: Cell, i: int) -> bool {
    s[i] == Cell::Empty && has_line(s.update(i, c), c)
}

/// The lowest index from `i` on where `c` would complete a line.
pub open spec fn first_completing(s: Seq<Cell>, c: Cell, i: int) -> Option<usize>
    decreases 9 - i,
{
    if i < 0 || i >= 9 {
        None
    } else if completes(s, c, i) {
        Some(i as usize)
    } else {
        first_completing(s, c, i + 1)
    }
}

/// The move that the first three rules pick: win now, else block the
/// player's line, else take the centre.
pub open spec fn rule_move(s: Seq<Cell>) -> Option<usize> {
    match first_completing(s, Cell::Computer, 0) {
        Some(i) => Some(i),
        None => match first_completing(s, Cell::Player, 0) {
            Some(i) => Some(i),
            None => if s[4] == Cell::Empty {
                Some(4usize)
            } else {
                None
            },
        },
    }
}

/// The heuristic's move when the fallback rule would pick `fallback`.
pub open spec fn heuristic_choice(s: Seq<Cell>, fallback: usize) -> Option<usize> {
    match rule_move(s) {
        Some(i) => Some(i),
        None => if full(s) {
            None
        } else {
            Some(fallback)
        },
    }
}

/// `new` is what the heuristic may leave after moving on `old`: the move of
/// the first three rules where one applies, else any empty cell, and nothing
/// on a full board.
pub open spec fn heuristic_step(old: Seq<Cell>, new: Seq<Cell>) -> bool {
    match rule_move(old) {
        Some(m) => m < 9 && old[m as int] == Cell::Empty && new == old.update(
            m as int,
            Cell::Computer,
        ),
        None => if full(old) {
            new == old
        } else {
            exists|m: int|
                0 <= m < 9 && old[m] == Cell::Empty && new == old.update(m, Cell::Computer)
        },
    }
}

/// The scan for a completing cell from `i` on.
pub proof fn lemma_first_completing(s: Seq<Cell>, c: Cell, i: int)
    requires
        s.len() == 9,
        0 <= i <= 9,
    ensures
        first_completing(s, c, i) is None <==> forall|k: int|
            i <= k < 9 ==> !completes(s, c, k),
        first_completing(s, c, i) matches Some(j) ==> i <= j < 9 && completes(s, c, j as int)
            && forall|k: int| i <= k < j ==> !completes(s, c, k),
    decreases 9 - i,
{
    if i < 9 {
        lemma_first_completing(s, c, i + 1);
    }
}

/// The lowest index where `mark` would complete a line.
fn first_completing_move(board: &Board, mark: Mark) -> (r: Option<usize>)
    ensures
        r == first_completing(board@, mark.cell(), 0),
{
    let mut i: usize = 0;
    while i < 9
        invariant
            i <= 9,
            board@.len() == 9,
            first_completing(board@, mark.cell(), i as int) == first_completing(
                board@,
                mark.cell(),
                0,
            ),
        decreases 9 - i,
    {
        if board.cells[i] == Cell::Empty {
            let mut trial = *board;
            trial.cells[i] = mark.cell();
            assert(trial@ == board@.update(i as int, mark.cell()));
            if check_winner(&trial, mark).is_some() {
                return Some(i);
            }
        }
        i += 1;
    }
    None
}

/// The move of the first three rules, if one of them applies.
pub fn rule_based_move(board: &Board) -> (r: Option<usize>)
    ensures
        r == rule_move(board@),
{
    if let Some(i) = first_completing_move(board, Mark::Computer) {
        return Some(i);
    }
    if let Some(i) = first_completing_move(board, Mark::Player) {
        return Some(i);
    }
    if board.cells[4] == Cell::Empty {
        Some(4)
    } else {
        None
    }
}

/// The heuristic's move, given the cell that the fallback rule drew; `None`
/// on a full board.
pub fn heuristic_move_with(board: &Board, fallback: usize) -> (r: Option<usize>)
    requires
        rule_move(board@) is None && !full(board@) ==> fallback < 9 && board@[fallback as int]
            == Cell::Empty,
    ensures
        r == heuristic_choice(board@, fallback),
        r matches Some(m) ==> m < 9 && board@[m as int] == Cell::Empty,
{
    proof {
        lemma_first_completing(board@, Cell::Computer, 0);
        lemma_first_completing(board@, Cell::Player, 0);
    }
    match rule_based_move(board) {
        Some(i) => Some(i),
        None => if board.is_full() {
            None
        } else {
            Some(fallback)
        },
    }
}

/// The heuristic always takes a winning move when one exists: it then picks
/// the lowest cell that completes a computer line.
pub proof fn lemma_heuristic_takes_win(s: Seq<Cell>, fallback: usize, w: int)
    requires
        s.len() == 9,
        0 <= w < 9,
        completes(s, Cell::Computer, w),
    ensures
        heuristic_choice(s, fallback) matches Some(m) && m <= w && completes(
            s,
            Cell::Computer,
            m as int,
        ),
{
    lemma_first_completing(s, Cell::Computer, 0);
}

/// With no winning move of its own, the heuristic blocks the player's one
/// winning cell when there is exactly one.
pub proof fn lemma_heuristic_blocks(s: Seq<Cell>, fallback: usize, b: int)
    requires
        s.len() == 9,
        forall|i: int| 0 <= i < 9 ==> !completes(s, Cell::Computer, i),
        0 <= b < 9,
        completes(s, Cell::Player, b),
        forall|k: int| 0 <= k < 9 && completes(s, Cell::Player, k) ==> k == b,
    ensures
        heuristic_choice(s, fallback) == Some(b as usize),
{
    lemma_first_completing(s, Cell::Computer, 0);
    lemma_first_completing(s, Cell::Player, 0);
}

/// Relies on rand's `IteratorRandom::choose` with the thread-local generator
/// of `rand::rng`: on a list of known length it returns nothing when the list
/// is empty and one of its elements otherwise.
#[verifier::external_body]
pub(crate) fn choose_one(candidates: &Vec<usize>) -> (r: Option<usize>)
    ensures
        r is Some <==> candidates@.len() > 0,
        r matches Some(x) ==> candidates@.contains(x),
{
    candidates.iter().copied().choose(&mut rand::rng())
}

/// Let the heuristic move for the computer: win now, else block, else the
/// centre, else a cell drawn at random among the empty ones.
pub fn computer_move_normal(board: &mut Board)
    ensures
        heuristic_step(old(board)@, final(board)@),
{
    let ghost all = Seq::new(9, |i: int| i as usize);
    let ghost pred = |i: usize| board@[i as int] == Cell::Empty;
    let mut fallback: usize = 0;
    if rule_based_move(board).is_none() && !board.is_full() {
        let empties = board.empty_indices();
        proof {
            let e = choose|e: int| 0 <= e < 9 && board@[e] == Cell::Empty;
            all.lemma_filter_contains(pred, e);
        }
        if let Some(pick) = choose_one(&empties) {
            proof {
                let k = choose|k: int| 0 <= k < empties@.len() && empties@[k] == pick;
            }
            fallback = pick;
        }
    }
    if let Some(m) = heuristic_move_with(board, fallback) {
        board.cells[m] = Cell::Computer;
    }
}

} // verus!
