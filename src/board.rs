use vstd::prelude::*;

verus! {

/// One square of the board.
#[derive(Clone, Copy, Debug, PartialEq, Eq, Structural)]
pub enum Cell {
    Empty,
    Player,
    Computer,
}

/// The mark that one of the two parties puts on the board.
#[derive(Clone, Copy, Debug, PartialEq, Eq, Structural)]
pub enum Mark {
    Player,
    Computer,
}

impl Mark {
    /// The cell that holds this mark.
    pub open spec fn cell_spec(self) -> Cell {
        match self {
            Mark::Player => Cell::Player,
            Mark::Computer => Cell::Computer,
        }
    }

    /// The cell that holds this mark.
    #[verifier::when_used_as_spec(cell_spec)]
    pub fn cell(self) -> (r: Cell)
        ensures
            r == self.cell_spec(),
    {
        match self {
            Mark::Player => Cell::Player,
            Mark::Computer => Cell::Computer,
        }
    }
}

/// A move that names a square outside the board or one already taken.
#[derive(Clone, Copy, Debug, PartialEq, Eq, Structural)]
pub struct IllegalMove;

/// Nine cells, indexed 0 to 8 row by row.
#[derive(Clone, Copy, Debug)]
pub struct Board {
    pub cells: [Cell; 9],
}

/// 1 when the cell is empty, else 0.
pub open spec fn empty_at(s: Seq<Cell>, i: int) -> nat {
    if s[i] == Cell::Empty {
        1
    } else {
        0
    }
}

/// How many of the nine cells are empty.
pub open spec fn empty_count(s: Seq<Cell>) -> nat {
    empty_at(s, 0) + empty_at(s, 1) + empty_at(s, 2) + empty_at(s, 3) + empty_at(s, 4)
        + empty_at(s, 5) + empty_at(s, 6) + empty_at(s, 7) + empty_at(s, 8)
}

/// No cell is empty.
pub open spec fn full(s: Seq<Cell>) -> bool {
    forall|i: int| 0 <= i < 9 ==> s[i] != Cell::Empty
}

/// How many cells among the first `n` hold `c`.
pub open spec fn count_of(s: Seq<Cell>, c: Cell, n: int) -> nat
    decreases n,
{
    if n <= 0 {
        0
    } else {
        count_of(s, c, n - 1) + if s[n - 1] == c {
            1nat
        } else {
            0nat
        }
    }
}

/// The player moves first, so the computer has as many marks as the player
/// or one fewer.
pub open spec fn balanced(s: Seq<Cell>) -> bool {
    let p = count_of(s, Cell::Player, 9);
    let c = count_of(s, Cell::Computer, 9);
    c == p || c + 1 == p
}

/// Whose turn it is on a balanced board.
pub open spec fn to_move(s: Seq<Cell>) -> Mark {
    if count_of(s, Cell::Player, 9) == count_of(s, Cell::Computer, 9) {
        Mark::Player
    } else {
        Mark::Computer
    }
}

/// The empty indices in ascending order.
pub open spec fn empties_of(s: Seq<Cell>) -> Seq<usize> {
    Seq::new(9, |i: int| i as usize).filter(|i: usize| s[i as int] == Cell::Empty)
}

/// How a count changes when one cell among the first `n` is overwritten.
pub proof fn lemma_count_update(s: Seq<Cell>, c: Cell, n: int, i: int, v: Cell)
    requires
        0 <= i < n <= s.len(),
    ensures
        count_of(s.update(i, v), c, n) + (if s[i] == c {
            1int
        } else {
            0int
        }) == count_of(s, c, n) + (if v == c {
            1int
        } else {
            0int
        }),
    decreases n,
{
    if n - 1 > i {
        lemma_count_update(s, c, n - 1, i, v);
    } else {
        assert(s.update(i, v).subrange(0, i) == s.subrange(0, i));
        lemma_count_same(s, s.update(i, v), c, n - 1);
    }
}

/// Two sequences that agree on the first `n` cells have the same counts there.
proof fn lemma_count_same(s: Seq<Cell>, t: Seq<Cell>, c: Cell, n: int)
    requires
        0 <= n <= s.len(),
        n <= t.len(),
        forall|k: int| 0 <= k < n ==> s[k] == t[k],
    ensures
        count_of(s, c, n) == count_of(t, c, n),
    decreases n,
{
    if n > 0 {
        lemma_count_same(s, t, c, n - 1);
    }
}

/// Placing the mark whose turn it is on an empty cell keeps the counts
/// balanced: after every legal move the computer has as many marks as the
/// player or one fewer. (That a cell holds nothing but Empty, Player or
/// Computer is given by its type.)
pub proof fn lemma_turn_keeps_balance(s: Seq<Cell>, i: int)
    requires
        s.len() == 9,
        balanced(s),
        0 <= i < 9,
        s[i] == Cell::Empty,
    ensures
        balanced(s.update(i, to_move(s).cell())),
        to_move(s.update(i, to_move(s).cell())) != to_move(s),
{
    lemma_count_update(s, Cell::Player, 9, i, to_move(s).cell());
    lemma_count_update(s, Cell::Computer, 9, i, to_move(s).cell());
}

/// An empty board is balanced, with the player to move.
pub proof fn lemma_empty_balanced(s: Seq<Cell>)
    requires
        s.len() == 9,
        forall|i: int| 0 <= i < 9 ==> s[i] == Cell::Empty,
    ensures
        count_of(s, Cell::Player, 9) == 0,
        count_of(s, Cell::Computer, 9) == 0,
        balanced(s),
        to_move(s) == Mark::Player,
{
    assert(count_of(s, Cell::Player, 9) == 0) by {
        reveal_with_fuel(count_of, 10);
    }
    assert(count_of(s, Cell::Computer, 9) == 0) by {
        reveal_with_fuel(count_of, 10);
    }
}

impl View for Board {
    type V = Seq<Cell>;

    open spec fn view(&self) -> Seq<Cell> {
        self.cells@
    }
}

impl Board {
    /// A board with every cell empty.
    pub fn new() -> (r: Board)
        ensures
            r@.len() == 9,
            forall|i: int| 0 <= i < 9 ==> r@[i] == Cell::Empty,
    {
        Board { cells: [Cell::Empty; 9] }
    }

    /// The cell at `index`.
    pub fn cell(&self, index: usize) -> (r: Cell)
        requires
            index < 9,
        ensures
            r == self@[index as int],
    {
        self.cells[index]
    }

    /// Put `mark` on the cell at `index`; refused when the index is past the
    /// board or the cell is taken.
    pub fn place(&mut self, index: usize, mark: Mark) -> (r: Result<(), IllegalMove>)
        ensures
            r is Ok <==> (index < 9 && old(self)@[index as int] == Cell::Empty),
            r is Ok ==> final(self)@ == old(self)@.update(index as int, mark.cell()),
            r is Err ==> *final(self) == *old(self),
    {
        if index >= 9 || self.cells[index] != Cell::Empty {
            return Err(IllegalMove);
        }
        self.cells[index] = mark.cell();
        Ok(())
    }

    /// Whether no cell is empty.
    pub fn is_full(&self) -> (r: bool)
        ensures
            r == full(self@),
    {
        let mut i: usize = 0;
        while i < 9
            invariant
                i <= 9,
                self@.len() == 9,
                forall|j: int| 0 <= j < i ==> self@[j] != Cell::Empty,
            decreases 9 - i,
        {
            if self.cells[i] == Cell::Empty {
                return false;
            }
            i += 1;
        }
        true
    }

    /// The indices of the empty cells, ascending.
    pub fn empty_indices(&self) -> (r: Vec<usize>)
        ensures
            r@ == empties_of(self@),
            forall|k: int| 0 <= k < r@.len() ==> r@[k] < 9 && self@[r@[k] as int] == Cell::Empty,
    {
        let ghost all = Seq::new(9, |i: int| i as usize);
        let ghost pred = |i: usize| self@[i as int] == Cell::Empty;
        let mut out: Vec<usize> = Vec::new();
        let mut i: usize = 0;
        while i < 9
            invariant
                i <= 9,
                all == Seq::new(9, |i: int| i as usize),
                pred == (|i: usize| self@[i as int] == Cell::Empty),
                out@ == all.take(i as int).filter(pred),
                forall|k: int|
                    0 <= k < out@.len() ==> out@[k] < i && self@[out@[k] as int] == Cell::Empty,
            decreases 9 - i,
        {
            proof {
                assert(all.take(i as int + 1).drop_last() =~= all.take(i as int));
                reveal(Seq::filter);
            }
            if self.cells[i] == Cell::Empty {
                out.push(i);
            }
            i += 1;
        }
        proof {
            assert(all.take(9) =~= all);
        }
        out
    }
}

} // verus!
