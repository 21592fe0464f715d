use vstd::prelude::*;
use crate::board::{full, Board, Cell, Mark};

verus! {

/// Three board indices that win when one mark holds all of them.
#[derive(Clone, Copy, Debug, PartialEq, Eq, Structural)]
pub struct WinLine {
    pub a: usize,
    pub b: usize,
    pub c: usize,
}

/// Where a board stands: won (and along which line), drawn, or still open.
#[derive(Clone, Copy, Debug, PartialEq, Eq, Structural)]
pub enum RoundOutcome {
    PlayerWin(WinLine),
    ComputerWin(WinLine),
    Draw,
    Ongoing,
}

/// The eight winning lines: rows, then columns, then the two diagonals.
pub open spec fn line_at(k: int) -> WinLine {
    if k == 0 {
        WinLine { a: 0, b: 1, c: 2 }
    } else if k == 1 {
        WinLine { a: 3, b: 4, c: 5 }
    } else if k == 2 {
        WinLine { a: 6, b: 7, c: 8 }
    } else if k == 3 {
        WinLine { a: 0, b: 3, c: 6 }
    } else if k == 4 {
        WinLine { a: 1, b: 4, c: 7 }
    } else if k == 5 {
        WinLine { a: 2, b: 5, c: 8 }
    } else if k == 6 {
        WinLine { a: 0, b: 4, c: 8 }
    } else {
        WinLine { a: 2, b: 4, c: 6 }
    }
}

/// All three cells of `l` hold `c`.
pub open spec fn complete(s: Seq<Cell>, l: WinLine, c: Cell) -> bool {
    s[l.a as int] == c && s[l.b as int] == c && s[l.c as int] == c
}

/// Some winning line is filled with `c`.
pub open spec fn has_line(s: Seq<Cell>, c: Cell) -> bool {
    exists|k: int| 0 <= k < 8 && complete(s, line_at(k), c)
}

/// The first line, from the `k`-th on, that is filled with `c`.
pub open spec fn first_line_of(s: Seq<Cell>, c: Cell, k: int) -> Option<WinLine>
    decreases 8 - k,
{
    if k >= 8 {
        None
    } else if complete(s, line_at(k), c) {
        Some(line_at(k))
    } else {
        first_line_of(s, c, k + 1)
    }
}

/// The outcome read from the `k`-th line on: the first line whose three cells
/// hold one non-empty mark decides; with none, a full board is a draw.
pub open spec fn outcome_from(s: Seq<Cell>, k: int) -> RoundOutcome
    decreases 8 - k,
{
    if k >= 8 {
        if full(s) {
            RoundOutcome::Draw
        } else {
            RoundOutcome::Ongoing
        }
    } else if complete(s, line_at(k), Cell::Player) {
        RoundOutcome::PlayerWin(line_at(k))
    } else if complete(s, line_at(k), Cell::Computer) {
        RoundOutcome::ComputerWin(line_at(k))
    } else {
        outcome_from(s, k + 1)
    }
}

/// The outcome of a board.
pub open spec fn outcome(s: Seq<Cell>) -> RoundOutcome {
    outcome_from(s, 0)
}

/// The `k`-th winning line.
pub fn win_line(k: usize) -> (r: WinLine)
    requires
        k < 8,
    ensures
        r == line_at(k as int),
{
    if k == 0 {
        WinLine { a: 0, b: 1, c: 2 }
    } else if k == 1 {
        WinLine { a: 3, b: 4, c: 5 }
    } else if k == 2 {
        WinLine { a: 6, b: 7, c: 8 }
    } else if k == 3 {
        WinLine { a: 0, b: 3, c: 6 }
    } else if k == 4 {
        WinLine { a: 1, b: 4, c: 7 }
    } else if k == 5 {
        WinLine { a: 2, b: 5, c: 8 }
    } else if k == 6 {
        WinLine { a: 0, b: 4, c: 8 }
    } else {
        WinLine { a: 2, b: 4, c: 6 }
    }
}

/// The first winning line filled with `mark`, if there is one.
pub fn check_winner(board: &Board, mark: Mark) -> (r: Option<WinLine>)
    ensures
        r == first_line_of(board@, mark.cell(), 0),
        r is Some <==> has_line(board@, mark.cell()),
        r matches Some(l) ==> complete(board@, l, mark.cell()),
{
    proof {
        lemma_first_line(board@, mark.cell(), 0);
    }
    let c = mark.cell();
    let mut k: usize = 0;
    while k < 8
        invariant
            k <= 8,
            c == mark.cell(),
            board@.len() == 9,
            first_line_of(board@, c, k as int) == first_line_of(board@, c, 0),
        decreases 8 - k,
    {
        let l = win_line(k);
        if board.cells[l.a] == c && board.cells[l.b] == c && board.cells[l.c] == c {
            return Some(l);
        }
        k += 1;
    }
    None
}

/// Classify a board as won, drawn or still open.
pub fn classify(board: &Board) -> (r: RoundOutcome)
    ensures
        r == outcome(board@),
{
    let mut k: usize = 0;
    while k < 8
        invariant
            k <= 8,
            board@.len() == 9,
            outcome_from(board@, k as int) == outcome(board@),
        decreases 8 - k,
    {
        let l = win_line(k);
        let x = board.cells[l.a];
        if x != Cell::Empty && board.cells[l.b] == x && board.cells[l.c] == x {
            if x == Cell::Player {
                return RoundOutcome::PlayerWin(l);
            } else {
                return RoundOutcome::ComputerWin(l);
            }
        }
        k += 1;
    }
    if board.is_full() {
        RoundOutcome::Draw
    } else {
        RoundOutcome::Ongoing
    }
}

/// Classification is consistent: a line of one mark, with no line of the
/// other, is a win for that mark along one of its lines; a full board without
/// any line is a draw; an open board without any line is still going.
pub proof fn lemma_classify_consistent(s: Seq<Cell>)
    requires
        s.len() == 9,
    ensures
        has_line(s, Cell::Player) && !has_line(s, Cell::Computer) ==> (outcome(s) matches RoundOutcome::PlayerWin(l)
            && complete(s, l, Cell::Player)),
        has_line(s, Cell::Computer) && !has_line(s, Cell::Player) ==> (outcome(s) matches RoundOutcome::ComputerWin(l)
            && complete(s, l, Cell::Computer)),
        !has_line(s, Cell::Player) && !has_line(s, Cell::Computer) && full(s) ==> outcome(s) is Draw,
        !has_line(s, Cell::Player) && !has_line(s, Cell::Computer) && !full(s) ==> outcome(s) is Ongoing,
{
    lemma_outcome_from(s, 0);
    match outcome(s) {
        RoundOutcome::PlayerWin(l) => {
            let j = choose|j: int| 0 <= j < 8 && l == line_at(j);
            assert(has_line(s, Cell::Player));
        },
        RoundOutcome::ComputerWin(l) => {
            let j = choose|j: int| 0 <= j < 8 && l == line_at(j);
            assert(has_line(s, Cell::Computer));
        },
        _ => {},
    }
}

/// A board is still going exactly when neither mark has a line and a cell
/// is empty.
pub proof fn lemma_ongoing(s: Seq<Cell>)
    requires
        s.len() == 9,
    ensures
        outcome(s) is Ongoing <==> !has_line(s, Cell::Player) && !has_line(s, Cell::Computer)
            && !full(s),
        outcome(s) is PlayerWin ==> has_line(s, Cell::Player),
        outcome(s) is ComputerWin ==> has_line(s, Cell::Computer),
{
    lemma_outcome_from(s, 0);
    lemma_classify_consistent(s);
    match outcome(s) {
        RoundOutcome::PlayerWin(l) => {
            let j = choose|j: int| 0 <= j < 8 && l == line_at(j);
            assert(complete(s, line_at(j), Cell::Player));
        },
        RoundOutcome::ComputerWin(l) => {
            let j = choose|j: int| 0 <= j < 8 && l == line_at(j);
            assert(complete(s, line_at(j), Cell::Computer));
        },
        _ => {},
    }
}

/// Classification depends on the cells alone: classifying the same board
/// twice gives the same outcome.
pub proof fn lemma_classify_deterministic(a: Board, b: Board)
    requires
        a@ == b@,
    ensures
        outcome(a@) == outcome(b@),
{
}

/// What the scan for a filled line finds from the `k`-th line on.
pub proof fn lemma_first_line(s: Seq<Cell>, c: Cell, k: int)
    requires
        0 <= k <= 8,
    ensures
        first_line_of(s, c, k) is Some <==> exists|j: int| k <= j < 8 && complete(s, line_at(j), c),
        first_line_of(s, c, k) matches Some(l) ==> complete(s, l, c),
    decreases 8 - k,
{
    if k < 8 {
        lemma_first_line(s, c, k + 1);
    }
}

/// What the outcome scan finds from the `k`-th line on.
pub proof fn lemma_outcome_from(s: Seq<Cell>, k: int)
    requires
        0 <= k <= 8,
    ensures
        outcome_from(s, k) matches RoundOutcome::PlayerWin(l) ==> complete(s, l, Cell::Player)
            && exists|j: int| k <= j < 8 && l == line_at(j),
        outcome_from(s, k) matches RoundOutcome::ComputerWin(l) ==> complete(s, l, Cell::Computer)
            && exists|j: int| k <= j < 8 && l == line_at(j),
        (outcome_from(s, k) is Draw || outcome_from(s, k) is Ongoing) <==> (forall|j: int|
            k <= j < 8 ==> !complete(s, line_at(j), Cell::Player) && !complete(
                s,
                line_at(j),
                Cell::Computer,
            )),
        outcome_from(s, k) is Draw ==> full(s),
        outcome_from(s, k) is Ongoing ==> !full(s),
    decreases 8 - k,
{
    if k < 8 {
        lemma_outcome_from(s, k + 1);
    }
}

} // verus!
