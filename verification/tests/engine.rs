//! Exercises the board, the solver and the coordinate parser.

use tictactoe::board::{Board, Player};
use tictactoe::parse::parse_coord;
use tictactoe::solver::find_best_move;

#[test]
fn place_and_available() {
    let mut b = Board::new();
    assert!(b.place(0, 0, Player::X));
    assert!(!b.place(0, 0, Player::O)); // occupied
    assert!(!b.place(3, 0, Player::X)); // out of bounds
    let moves = b.available_moves();
    assert_eq!(moves.len(), 8);
}

#[test]
fn winner_rows_cols_diags() {
    let mut b = Board::new();
    b.place(0, 0, Player::X);
    b.place(0, 1, Player::X);
    b.place(0, 2, Player::X);
    assert_eq!(b.winner(), Some(Player::X));

    let mut b2 = Board::new();
    b2.place(0, 0, Player::O);
    b2.place(1, 0, Player::O);
    b2.place(2, 0, Player::O);
    assert_eq!(b2.winner(), Some(Player::O));

    let mut b3 = Board::new();
    b3.place(0, 0, Player::X);
    b3.place(1, 1, Player::X);
    b3.place(2, 2, Player::X);
    assert_eq!(b3.winner(), Some(Player::X));
}

#[test]
fn minimax_block_and_win() {
    // ai X can win
    let mut b = Board::new();
    b.place(0, 0, Player::X);
    b.place(0, 1, Player::X);
    b.place(1, 1, Player::O);
    let mv = find_best_move(&b, Player::X);
    assert_eq!(mv, Some(2)); // completes row 0

    // need to block opponent
    let mut b2 = Board::new();
    b2.place(0, 0, Player::X);
    b2.place(0, 1, Player::X);
    b2.place(1, 1, Player::O);
    let mv_block = find_best_move(&b2, Player::O);
    assert_eq!(mv_block, Some(2));
}

#[test]
fn parse_coord_tests() {
    assert_eq!(parse_coord("1:2"), Some((1, 2)));
    assert_eq!(parse_coord(" 0:0 \n"), Some((0, 0)));
    assert_eq!(parse_coord("3:0"), None);
    assert_eq!(parse_coord("a:b"), None);
    assert_eq!(parse_coord("1"), None);
}

#[test]
fn print_to_outputs() {
    let mut b = Board::new();
    b.place(0, 0, Player::X);
    let mut buf = Vec::new();
    b.print_to(&mut buf).unwrap();
    let s = String::from_utf8(buf).unwrap();
    assert!(s.contains("X"));
    assert!(s.contains("---+---+---"));
}

#[test]
fn player_other_and_glyphs() {
    assert_eq!(Player::X.other(), Player::O);
    assert_eq!(Player::O.other(), Player::X);
    assert_eq!(Player::X.to_char(), 'X');
    assert_eq!(Player::O.to_char(), 'O');
}

#[test]
fn out_of_bounds_leaves_board_unchanged() {
    let mut b = Board::new();
    assert!(!b.place(3, 0, Player::X));
    assert!(!b.place(0, 3, Player::X));
    assert!(!b.place(7, 7, Player::O));
    assert_eq!(b.available_moves().len(), 9);
    assert_eq!(b.winner(), None);
    assert!(!b.is_full());
}

#[test]
fn occupied_cell_keeps_first_mark() {
    let mut b = Board::new();
    assert!(b.place(1, 1, Player::X));
    assert!(!b.place(1, 1, Player::O));
    // cell 4 stays X's: X completes the diagonal through it
    b.place(0, 0, Player::X);
    b.place(2, 2, Player::X);
    assert_eq!(b.winner(), Some(Player::X));
}

#[test]
fn moves_plus_occupied_is_nine() {
    let mut b = Board::new();
    assert_eq!(b.available_moves().len(), 9);
    let mut placed = 0;
    let spots = [(0usize, 0usize), (1, 1), (2, 0), (0, 2), (2, 1)];
    let mut turn = Player::X;
    for (r, c) in spots {
        assert!(b.place(r, c, turn));
        placed += 1;
        assert_eq!(b.available_moves().len() + placed, 9);
        turn = turn.other();
    }
}

#[test]
fn available_moves_ascending() {
    let mut b = Board::new();
    b.place(0, 1, Player::X);
    b.place(1, 1, Player::O);
    b.place(2, 2, Player::X);
    assert_eq!(b.available_moves(), vec![0, 2, 3, 5, 6, 7]);
}

#[test]
fn winner_all_eight_lines() {
    let lines = [
        [0usize, 1, 2],
        [3, 4, 5],
        [6, 7, 8],
        [0, 3, 6],
        [1, 4, 7],
        [2, 5, 8],
        [0, 4, 8],
        [2, 4, 6],
    ];
    for line in lines {
        for p in [Player::X, Player::O] {
            let mut b = Board::new();
            for i in line {
                assert!(b.place(i / 3, i % 3, p));
            }
            assert_eq!(b.winner(), Some(p));
        }
    }
}

#[test]
fn no_winner_without_full_line() {
    let mut b = Board::new();
    b.place(0, 0, Player::X);
    b.place(0, 1, Player::X);
    b.place(1, 1, Player::O);
    b.place(2, 2, Player::O);
    assert_eq!(b.winner(), None);
}

#[test]
fn full_board_draw() {
    // X O X / X O O / O X X: every line is mixed
    let mut b = Board::new();
    b.place(0, 0, Player::X);
    b.place(0, 1, Player::O);
    b.place(0, 2, Player::X);
    b.place(1, 0, Player::X);
    b.place(1, 1, Player::O);
    b.place(1, 2, Player::O);
    b.place(2, 0, Player::O);
    b.place(2, 1, Player::X);
    b.place(2, 2, Player::X);
    assert!(b.is_full());
    assert_eq!(b.winner(), None);
    assert_eq!(b.available_moves().len(), 0);
    assert_eq!(find_best_move(&b, Player::X), None);
}

#[test]
fn solver_self_play_ends_in_draw() {
    // Both sides playing the solver's move from the empty board must end
    // in a draw: perfect play never loses.
    let mut b = Board::new();
    let mut turn = Player::X;
    while b.winner().is_none() && !b.is_full() {
        let mv = find_best_move(&b, turn).expect("position is not terminal");
        assert!(b.place(mv / 3, mv % 3, turn));
        turn = turn.other();
    }
    assert!(b.is_full());
    assert_eq!(b.winner(), None);
}

#[test]
fn solver_on_won_board_returns_nothing() {
    let mut b = Board::new();
    b.place(0, 0, Player::X);
    b.place(0, 1, Player::X);
    b.place(0, 2, Player::X);
    assert_eq!(find_best_move(&b, Player::X), None);
    assert_eq!(find_best_move(&b, Player::O), None);
}

#[test]
fn parse_coord_more_shapes() {
    assert_eq!(parse_coord("2:2"), Some((2, 2)));
    assert_eq!(parse_coord(" 1 : 2 "), Some((1, 2)));
    assert_eq!(parse_coord("+1:+2"), Some((1, 2)));
    assert_eq!(parse_coord("02:1"), Some((2, 1)));
    assert_eq!(parse_coord("0:3"), None);
    assert_eq!(parse_coord("12:0"), None);
    assert_eq!(parse_coord("1:2:3"), None);
    assert_eq!(parse_coord(""), None);
    assert_eq!(parse_coord(" : "), None);
    assert_eq!(parse_coord("+:1"), None);
    assert_eq!(parse_coord("1:"), None);
    assert_eq!(parse_coord("99999999999999999999:0"), None);
}

#[test]
fn parse_coord_unicode_whitespace() {
    // str::trim removes Unicode white space, not just ASCII
    assert_eq!(parse_coord("\u{a0}1:2\u{a0}"), Some((1, 2)));
    assert_eq!(parse_coord("\u{2003}0:2\u{3000}"), Some((0, 2)));
    assert_eq!(parse_coord("1\u{85}:\u{1680}2"), Some((1, 2)));
    assert_eq!(parse_coord("\u{2028}\u{2029}2:0 "), Some((2, 0)));
    assert_eq!(parse_coord("\u{a0}:\u{a0}"), None);
    assert_eq!(parse_coord("\u{a0}3:0\u{a0}"), None);
}

#[test]
fn render_exact_text() {
    let mut b = Board::new();
    b.place(0, 0, Player::X);
    b.place(1, 1, Player::O);
    let expected = "\n X | . | .\n---+---+---\n . | O | .\n---+---+---\n . | . | .\n\n";
    assert_eq!(b.render(), expected);
    let mut buf = Vec::new();
    b.print_to(&mut buf).unwrap();
    assert_eq!(String::from_utf8(buf).unwrap(), expected);
}
