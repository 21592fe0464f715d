use succinctactoe::{
    check_winner, classify, computer_move_god, computer_move_normal, heuristic_move_with, minimax,
    rule_based_move, win_line, Board, Cell, IllegalMove, Mark, Mode, Phase, RoundOutcome, Session,
    WinLine,
};

const P: Cell = Cell::Player;
const C: Cell = Cell::Computer;
const E: Cell = Cell::Empty;

fn board_of(cells: [Cell; 9]) -> Board {
    Board { cells }
}

fn empties(b: &Board) -> Vec<usize> {
    b.empty_indices()
}

#[test]
fn place_rejects_taken_and_out_of_range() {
    let mut b = Board::new();
    assert_eq!(b.place(9, Mark::Player), Err(IllegalMove));
    assert_eq!(b.place(0, Mark::Player), Ok(()));
    assert_eq!(b.cell(0), Cell::Player);
    assert_eq!(b.place(0, Mark::Computer), Err(IllegalMove));
    assert_eq!(b.cell(0), Cell::Player);
}

#[test]
fn empty_indices_ascending() {
    let b = board_of([P, E, C, E, E, P, C, E, E]);
    assert_eq!(empties(&b), vec![1, 3, 4, 7, 8]);
    assert_eq!(empties(&Board::new()), vec![0, 1, 2, 3, 4, 5, 6, 7, 8]);
    let full = board_of([P, C, P, P, C, C, C, P, P]);
    assert!(full.is_full());
    assert!(empties(&full).is_empty());
    assert!(!b.is_full());
}

#[test]
fn win_lines_in_order() {
    assert_eq!(win_line(0), WinLine { a: 0, b: 1, c: 2 });
    assert_eq!(win_line(3), WinLine { a: 0, b: 3, c: 6 });
    assert_eq!(win_line(7), WinLine { a: 2, b: 4, c: 6 });
}

#[test]
fn classify_each_line_for_each_mark() {
    for k in 0..8 {
        let l = win_line(k);
        let mut cells = [E; 9];
        cells[l.a] = P;
        cells[l.b] = P;
        cells[l.c] = P;
        assert_eq!(classify(&board_of(cells)), RoundOutcome::PlayerWin(l));
        assert_eq!(check_winner(&board_of(cells), Mark::Player), Some(l));
        assert_eq!(check_winner(&board_of(cells), Mark::Computer), None);
        cells[l.a] = C;
        cells[l.b] = C;
        cells[l.c] = C;
        assert_eq!(classify(&board_of(cells)), RoundOutcome::ComputerWin(l));
    }
}

#[test]
fn classify_draw_and_ongoing() {
    let full = board_of([P, C, P, P, C, C, C, P, P]);
    assert_eq!(classify(&full), RoundOutcome::Draw);
    assert_eq!(classify(&Board::new()), RoundOutcome::Ongoing);
    let open = board_of([P, C, E, E, P, E, E, E, C]);
    assert_eq!(classify(&open), RoundOutcome::Ongoing);
}

#[test]
fn classify_first_line_wins_ties() {
    // Two complete lines can only come from an illegal board: the first in order decides.
    let b = board_of([C, C, C, P, P, P, E, E, E]);
    assert_eq!(classify(&b), RoundOutcome::ComputerWin(win_line(0)));
}

#[test]
fn classify_twice_same_result() {
    let b = board_of([P, C, E, E, P, E, E, E, C]);
    let first = classify(&b);
    let second = classify(&b);
    assert_eq!(first, second);
    let won = board_of([P, P, P, C, C, E, E, E, E]);
    assert_eq!(classify(&won), classify(&won));
}

#[test]
fn minimax_values() {
    // The computer can win at once.
    let b = board_of([P, P, E, C, C, E, P, E, E]);
    assert_eq!(minimax(b, true), (1, Some(5)));
    // Finished boards carry no move.
    assert_eq!(minimax(board_of([P, P, P, C, C, E, E, E, E]), true), (-1, None));
    assert_eq!(minimax(board_of([P, C, P, P, C, C, C, P, P]), false), (0, None));
    // The player to move on the same board wins at once too.
    let b = board_of([C, C, E, P, P, E, C, E, E]);
    assert_eq!(minimax(b, false), (-1, Some(5)));
}

#[test]
fn minimax_computer_line_counts_first() {
    // Both sides hold a line: the computer's line is tested first.
    let b = board_of([P, P, P, C, C, C, E, E, E]);
    assert_eq!(minimax(b, true), (1, None));
    assert_eq!(minimax(b, false), (1, None));
    let mut moved = b;
    computer_move_god(&mut moved);
    assert_eq!(moved.cells, b.cells);
}

#[test]
fn minimax_player_to_move() {
    // The last cell draws.
    let b = board_of([P, C, P, P, C, C, C, P, E]);
    assert_eq!(minimax(b, false), (0, Some(8)));
    // Cell 3 leads to a draw, cell 5 wins for the player: the minimum is kept.
    let b = board_of([P, C, P, E, C, E, C, P, P]);
    assert_eq!(minimax(b, false), (-1, Some(5)));
}

#[test]
fn minimax_lowest_index_on_ties() {
    // The computer wins on 2 (top row) and on 6 (left column) alike; the
    // lower index is kept.
    let b = board_of([C, C, E, C, P, P, E, P, P]);
    assert_eq!(minimax(b, true), (1, Some(2)));
}

#[test]
fn optimal_blocks_and_is_deterministic() {
    let b = board_of([P, P, E, E, C, E, E, E, E]);
    let mut first = b;
    let mut second = b;
    computer_move_god(&mut first);
    computer_move_god(&mut second);
    assert_eq!(first.cells, second.cells);
    assert_eq!(first.cell(2), Cell::Computer);
}

#[test]
fn optimal_after_corner_opening_never_loses() {
    let mut b = Board::new();
    b.place(0, Mark::Player).unwrap();
    computer_move_god(&mut b);
    assert_eq!(b.cell(4), Cell::Computer);
    let mut games: u32 = 0;
    explore_player_replies(b, &mut games);
    assert!(games > 0);
}

fn explore_player_replies(b: Board, games: &mut u32) {
    for i in empties(&b) {
        let mut after_player = b;
        after_player.place(i, Mark::Player).unwrap();
        match classify(&after_player) {
            RoundOutcome::PlayerWin(_) => panic!("player won against the optimal strategy"),
            RoundOutcome::Draw => *games += 1,
            RoundOutcome::ComputerWin(_) => unreachable!(),
            RoundOutcome::Ongoing => {
                let mut after_computer = after_player;
                computer_move_god(&mut after_computer);
                match classify(&after_computer) {
                    RoundOutcome::PlayerWin(_) => panic!("player won against the optimal strategy"),
                    RoundOutcome::Ongoing => explore_player_replies(after_computer, games),
                    RoundOutcome::ComputerWin(_) | RoundOutcome::Draw => *games += 1,
                }
            }
        }
    }
}

#[test]
fn optimal_never_loses_from_any_opening() {
    for first in 0..9 {
        let mut b = Board::new();
        b.place(first, Mark::Player).unwrap();
        computer_move_god(&mut b);
        let mut games: u32 = 0;
        explore_player_replies(b, &mut games);
        assert!(games > 0);
    }
}

#[test]
fn heuristic_prefers_win_over_block() {
    let b = board_of([P, P, E, C, C, E, E, E, E]);
    assert_eq!(rule_based_move(&b), Some(5));
    let mut moved = b;
    computer_move_normal(&mut moved);
    assert_eq!(moved.cell(5), Cell::Computer);
    assert_eq!(classify(&moved), RoundOutcome::ComputerWin(win_line(1)));
}

#[test]
fn heuristic_win_now_before_block() {
    // The player holds 0 and 1, the computer 3 and 4: completing the
    // computer's row on 5 comes ahead of blocking the player on 2.
    let b = board_of([P, P, E, C, C, E, E, E, E]);
    assert_eq!(heuristic_move_with(&b, 2), Some(5));
    assert_eq!(heuristic_move_with(&b, 8), Some(5));
}

#[test]
fn heuristic_blocks_single_threat() {
    let b = board_of([P, P, E, E, C, E, E, E, E]);
    assert_eq!(heuristic_move_with(&b, 8), Some(2));
    let mut moved = b;
    computer_move_normal(&mut moved);
    assert_eq!(moved.cell(2), Cell::Computer);
}

#[test]
fn heuristic_takes_centre() {
    let b = board_of([P, E, E, E, E, E, E, E, E]);
    assert_eq!(heuristic_move_with(&b, 1), Some(4));
}

#[test]
fn heuristic_falls_back_without_threat() {
    let b = board_of([P, E, E, E, C, E, E, E, P]);
    assert_eq!(rule_based_move(&b), None);
    assert_eq!(heuristic_move_with(&b, 6), Some(6));
    assert_eq!(heuristic_move_with(&b, 1), Some(1));
    for _ in 0..20 {
        let mut moved = b;
        computer_move_normal(&mut moved);
        let taken: Vec<usize> = (0..9)
            .filter(|&i| b.cell(i) == Cell::Empty && moved.cell(i) == Cell::Computer)
            .collect();
        assert_eq!(taken.len(), 1);
        assert!([1, 2, 3, 5, 6, 7].contains(&taken[0]));
    }
}

#[test]
fn heuristic_full_board_makes_no_move() {
    let full = board_of([P, C, P, P, C, C, C, P, P]);
    assert_eq!(heuristic_move_with(&full, 0), None);
    let mut moved = full;
    computer_move_normal(&mut moved);
    assert_eq!(moved.cells, full.cells);
}

#[test]
fn session_three_rounds_scores() {
    let mut s = Session::new(String::from("alice"), Mode::Normal);
    assert_eq!(s.phase, Phase::AwaitingPlayerMove);

    // Round one: the player builds two threats and the heuristic blocks one.
    assert_eq!(s.player_move(4), Ok(RoundOutcome::Ongoing));
    assert_eq!(s.phase, Phase::AwaitingComputerMove);
    assert_eq!(s.computer_move_with(1), RoundOutcome::Ongoing);
    assert_eq!(s.board.cell(1), Cell::Computer);
    assert_eq!(s.player_move(0), Ok(RoundOutcome::Ongoing));
    assert_eq!(s.computer_move_with(2), RoundOutcome::Ongoing);
    assert_eq!(s.board.cell(8), Cell::Computer);
    assert_eq!(s.player_move(6), Ok(RoundOutcome::Ongoing));
    assert_eq!(s.computer_move_with(3), RoundOutcome::Ongoing);
    assert_eq!(s.board.cell(2), Cell::Computer);
    assert_eq!(s.player_move(3), Ok(RoundOutcome::PlayerWin(win_line(3))));
    assert_eq!(s.phase, Phase::RoundOver);
    assert_eq!((s.player_score, s.computer_score, s.draws), (100, 0, 0));
    s.finish_round(true);
    assert_eq!(s.phase, Phase::AwaitingPlayerMove);
    assert_eq!(empties(&s.board).len(), 9);

    // Round two: the computer completes its diagonal.
    assert_eq!(s.player_move(0), Ok(RoundOutcome::Ongoing));
    assert_eq!(s.computer_move_with(3), RoundOutcome::Ongoing);
    assert_eq!(s.board.cell(4), Cell::Computer);
    assert_eq!(s.player_move(1), Ok(RoundOutcome::Ongoing));
    assert_eq!(s.computer_move_with(3), RoundOutcome::Ongoing);
    assert_eq!(s.board.cell(2), Cell::Computer);
    assert_eq!(s.player_move(5), Ok(RoundOutcome::Ongoing));
    assert_eq!(s.computer_move_with(3), RoundOutcome::ComputerWin(win_line(7)));
    assert_eq!((s.player_score, s.computer_score, s.draws), (100, 100, 0));
    s.finish_round(true);

    // Round three: a draw.
    assert_eq!(s.player_move(0), Ok(RoundOutcome::Ongoing));
    assert_eq!(s.computer_move_with(1), RoundOutcome::Ongoing);
    assert_eq!(s.player_move(8), Ok(RoundOutcome::Ongoing));
    assert_eq!(s.computer_move_with(1), RoundOutcome::Ongoing);
    assert_eq!(s.player_move(7), Ok(RoundOutcome::Ongoing));
    assert_eq!(s.computer_move_with(3), RoundOutcome::Ongoing);
    assert_eq!(s.board.cell(6), Cell::Computer);
    assert_eq!(s.player_move(2), Ok(RoundOutcome::Ongoing));
    assert_eq!(s.computer_move_with(3), RoundOutcome::Ongoing);
    assert_eq!(s.board.cell(5), Cell::Computer);
    assert_eq!(s.player_move(3), Ok(RoundOutcome::Draw));
    s.finish_round(false);
    assert_eq!(s.phase, Phase::SessionOver);
    assert_eq!(s.draws, 1);
    let data = s.game_data();
    assert_eq!(data.username, "alice");
    assert_eq!(data.player_score, 100);
    assert_eq!(data.computer_score, 100);
}

#[test]
fn session_rejects_illegal_player_move() {
    let mut s = Session::new(String::from("bob"), Mode::God);
    assert_eq!(s.player_move(9), Err(IllegalMove));
    assert_eq!(s.phase, Phase::AwaitingPlayerMove);
    assert_eq!(s.player_move(0), Ok(RoundOutcome::Ongoing));
    assert_eq!(s.computer_move(), RoundOutcome::Ongoing);
    assert_eq!(s.board.cell(4), Cell::Computer);
    assert_eq!(s.player_move(4), Err(IllegalMove));
    assert_eq!(s.player_move(0), Err(IllegalMove));
    assert_eq!(s.phase, Phase::AwaitingPlayerMove);
}

#[test]
fn session_full_player_counter_still_plays_god_mode() {
    // God mode never gives the player a win, so a full player counter does
    // not stop play.
    let mut s = Session::new(String::from("erin"), Mode::God);
    s.player_score = u32::MAX;
    let mut outcome = RoundOutcome::Ongoing;
    while outcome == RoundOutcome::Ongoing {
        let choice = empties(&s.board)[0];
        outcome = s.player_move(choice).unwrap();
        if outcome == RoundOutcome::Ongoing {
            outcome = s.computer_move();
        }
    }
    assert!(!matches!(outcome, RoundOutcome::PlayerWin(_)));
    assert_eq!(s.player_score, u32::MAX);
}

#[test]
fn session_god_mode_never_loses_played_out() {
    let mut s = Session::new(String::from("carol"), Mode::God);
    let mut outcome = RoundOutcome::Ongoing;
    while outcome == RoundOutcome::Ongoing {
        let choice = empties(&s.board)[0];
        outcome = s.player_move(choice).unwrap();
        if outcome == RoundOutcome::Ongoing {
            outcome = s.computer_move();
        }
    }
    assert!(!matches!(outcome, RoundOutcome::PlayerWin(_)));
    assert_eq!(s.player_score, 0);
}

#[test]
fn session_normal_mode_random_move_is_legal() {
    let mut s = Session::new(String::from("dave"), Mode::Normal);
    assert_eq!(s.player_move(0), Ok(RoundOutcome::Ongoing));
    assert_eq!(s.computer_move(), RoundOutcome::Ongoing);
    assert_eq!(s.board.cell(4), Cell::Computer);
    assert_eq!(s.player_move(8), Ok(RoundOutcome::Ongoing));
    assert_eq!(s.computer_move(), RoundOutcome::Ongoing);
    assert_eq!(empties(&s.board).len(), 5);
}
