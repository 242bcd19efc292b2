use tictactoe::board::{Cell, Game};

fn game_with(board: [[Cell; 3]; 3], current: Cell) -> Game {
    let mut game = Game::new();
    game.board = board;
    game.current_player = current;
    game
}

fn winner_of(game: &Game) -> Option<Cell> {
    if game.is_winner(&Cell::X) {
        Some(Cell::X)
    } else if game.is_winner(&Cell::O) {
        Some(Cell::O)
    } else {
        None
    }
}

#[test]
fn get_random_move_picks_only_empty_cell() {
    let mut game = Game::new();
    game.board = [
        [Cell::X, Cell::O, Cell::X],
        [Cell::O, Cell::X, Cell::O],
        [Cell::X, Cell::Empty, Cell::O],
    ];

    assert_eq!(game.get_random_move(), Some((2, 1)));
}

#[test]
fn random_move_is_none_on_full_board() {
    let game = game_with(
        [
            [Cell::X, Cell::O, Cell::X],
            [Cell::X, Cell::O, Cell::O],
            [Cell::O, Cell::X, Cell::X],
        ],
        Cell::O,
    );
    assert_eq!(game.get_random_move(), None);
}

#[test]
fn random_move_lands_on_an_empty_cell() {
    let game = game_with(
        [
            [Cell::X, Cell::Empty, Cell::X],
            [Cell::Empty, Cell::O, Cell::O],
            [Cell::X, Cell::Empty, Cell::O],
        ],
        Cell::O,
    );
    for _ in 0..200 {
        let (r, c) = game.get_random_move().unwrap();
        assert_eq!(game.board[r][c], Cell::Empty);
    }
}

#[test]
fn empty_cells_in_row_major_order() {
    let game = game_with(
        [
            [Cell::X, Cell::Empty, Cell::X],
            [Cell::Empty, Cell::O, Cell::O],
            [Cell::X, Cell::Empty, Cell::O],
        ],
        Cell::O,
    );
    assert_eq!(game.empty_cells(), vec![(0, 1), (1, 0), (2, 1)]);
    assert_eq!(Game::new().empty_cells().len(), 9);
}

#[test]
fn new_game_is_empty_with_x_to_move() {
    let game = Game::new();
    assert_eq!(game.current_player, Cell::X);
    for row in game.board.iter() {
        for cell in row.iter() {
            assert_eq!(*cell, Cell::Empty);
        }
    }
    assert!(!game.is_winner(&Cell::X));
    assert!(!game.is_winner(&Cell::O));
    assert!(!game.is_draw());
}

#[test]
fn winner_on_each_row_column_and_diagonal() {
    let lines: [[(usize, usize); 3]; 8] = [
        [(0, 0), (0, 1), (0, 2)],
        [(1, 0), (1, 1), (1, 2)],
        [(2, 0), (2, 1), (2, 2)],
        [(0, 0), (1, 0), (2, 0)],
        [(0, 1), (1, 1), (2, 1)],
        [(0, 2), (1, 2), (2, 2)],
        [(0, 0), (1, 1), (2, 2)],
        [(0, 2), (1, 1), (2, 0)],
    ];
    for mark in [Cell::X, Cell::O] {
        for line in lines.iter() {
            let mut game = Game::new();
            for &(r, c) in line.iter() {
                game.board[r][c] = mark;
            }
            assert!(game.is_winner(&mark));
            let other = if mark == Cell::X { Cell::O } else { Cell::X };
            assert!(!game.is_winner(&other));
        }
    }
}

#[test]
fn two_in_a_line_is_no_win() {
    let game = game_with(
        [
            [Cell::X, Cell::X, Cell::Empty],
            [Cell::O, Cell::O, Cell::Empty],
            [Cell::X, Cell::Empty, Cell::O],
        ],
        Cell::X,
    );
    assert!(!game.is_winner(&Cell::X));
    assert!(!game.is_winner(&Cell::O));
}

#[test]
fn mixed_line_is_no_win() {
    let game = game_with(
        [
            [Cell::X, Cell::O, Cell::X],
            [Cell::X, Cell::O, Cell::O],
            [Cell::O, Cell::X, Cell::X],
        ],
        Cell::O,
    );
    assert!(!game.is_winner(&Cell::X));
    assert!(!game.is_winner(&Cell::O));
    assert!(game.is_draw());
}

#[test]
fn draw_needs_every_cell_filled() {
    let game = game_with(
        [
            [Cell::X, Cell::O, Cell::X],
            [Cell::X, Cell::O, Cell::O],
            [Cell::O, Cell::X, Cell::Empty],
        ],
        Cell::X,
    );
    assert!(!game.is_draw());
}

#[test]
fn full_winning_board_also_reads_as_draw() {
    let game = game_with(
        [
            [Cell::X, Cell::X, Cell::X],
            [Cell::O, Cell::O, Cell::X],
            [Cell::X, Cell::O, Cell::O],
        ],
        Cell::X,
    );
    assert!(game.is_winner(&Cell::X));
    assert!(game.is_draw());
}

#[test]
fn make_move_on_empty_cell_sets_only_that_cell() {
    let mut game = Game::new();
    assert!(game.make_move(1, 2));
    for r in 0..3 {
        for c in 0..3 {
            let expected = if (r, c) == (1, 2) { Cell::X } else { Cell::Empty };
            assert_eq!(game.board[r][c], expected);
        }
    }
    assert_eq!(game.current_player, Cell::X);
}

#[test]
fn make_move_on_occupied_cell_changes_nothing() {
    let mut game = Game::new();
    assert!(game.make_move(0, 0));
    game.switch_player();
    let before = game.board;
    assert!(!game.make_move(0, 0));
    assert_eq!(game.board, before);
    assert_eq!(game.current_player, Cell::O);
}

#[test]
fn switch_player_alternates() {
    let mut game = Game::new();
    game.switch_player();
    assert_eq!(game.current_player, Cell::O);
    game.switch_player();
    assert_eq!(game.current_player, Cell::X);
}

#[test]
fn mark_counts_stay_balanced_through_a_game() {
    let moves = [(1, 1), (0, 0), (2, 2), (0, 2), (0, 1), (2, 1), (1, 0), (1, 2), (2, 0)];
    let mut game = Game::new();
    for &(r, c) in moves.iter() {
        assert!(game.make_move(r, c));
        game.switch_player();
        let mut xs = 0i32;
        let mut os = 0i32;
        for row in game.board.iter() {
            for cell in row.iter() {
                match cell {
                    Cell::X => xs += 1,
                    Cell::O => os += 1,
                    Cell::Empty => {}
                }
            }
        }
        let diff = xs - os;
        assert!(diff == 0 || diff == 1);
        assert_eq!(diff == 0, game.current_player == Cell::X);
    }
}
