use tictactoe::board::{Cell, Game};

fn game_with(board: [[Cell; 3]; 3]) -> Game {
    let mut game = Game::new();
    game.board = board;
    game
}

#[test]
fn minimax_scores_terminal_boards() {
    let mut won = game_with([
        [Cell::X, Cell::X, Cell::X],
        [Cell::O, Cell::O, Cell::Empty],
        [Cell::Empty, Cell::Empty, Cell::Empty],
    ]);
    assert_eq!(won.minimax(0, false), 10);
    assert_eq!(won.minimax(3, true), 7);
    let mut lost = game_with([
        [Cell::O, Cell::O, Cell::O],
        [Cell::X, Cell::X, Cell::Empty],
        [Cell::X, Cell::Empty, Cell::Empty],
    ]);
    assert_eq!(lost.minimax(2, true), -8);
    let mut drawn = game_with([
        [Cell::X, Cell::O, Cell::X],
        [Cell::X, Cell::O, Cell::O],
        [Cell::O, Cell::X, Cell::X],
    ]);
    assert_eq!(drawn.minimax(0, true), 0);
}

#[test]
fn minimax_prefers_the_faster_outcome() {
    // X to move wins at once at (1, 2).
    let mut game = game_with([
        [Cell::O, Cell::O, Cell::Empty],
        [Cell::X, Cell::X, Cell::Empty],
        [Cell::O, Cell::X, Cell::Empty],
    ]);
    assert_eq!(game.minimax(0, true), 9);
    // O to move wins at once at (0, 2).
    assert_eq!(game.minimax(0, false), -9);
}

#[test]
fn best_move_leaves_board_unchanged() {
    let board = [
        [Cell::X, Cell::Empty, Cell::Empty],
        [Cell::Empty, Cell::O, Cell::Empty],
        [Cell::Empty, Cell::Empty, Cell::Empty],
    ];
    let mut game = game_with(board);
    game.current_player = Cell::X;
    let _ = game.get_best_move();
    assert_eq!(game.board, board);
    assert_eq!(game.current_player, Cell::X);
    let _ = game.minimax(0, true);
    assert_eq!(game.board, board);
}

#[test]
fn best_move_takes_an_immediate_win() {
    let mut game = game_with([
        [Cell::X, Cell::O, Cell::Empty],
        [Cell::O, Cell::X, Cell::Empty],
        [Cell::Empty, Cell::Empty, Cell::Empty],
    ]);
    assert_eq!(game.get_best_move(), (2, 2));
}

#[test]
fn best_move_wins_rather_than_blocks() {
    // X can block O's row at (1, 2) or win its own row at (0, 2).
    let mut game = game_with([
        [Cell::X, Cell::X, Cell::Empty],
        [Cell::O, Cell::O, Cell::Empty],
        [Cell::Empty, Cell::Empty, Cell::Empty],
    ]);
    assert_eq!(game.get_best_move(), (0, 2));
}

#[test]
fn best_move_blocks_a_threat() {
    // X has no win at once; anything but (0, 2) lets O complete the top row.
    let mut game = game_with([
        [Cell::O, Cell::O, Cell::Empty],
        [Cell::X, Cell::Empty, Cell::Empty],
        [Cell::Empty, Cell::Empty, Cell::X],
    ]);
    assert_eq!(game.get_best_move(), (0, 2));
}

#[test]
fn best_move_tie_break_is_first_in_row_major_order() {
    // From the empty board every first move is worth a draw.
    let mut game = Game::new();
    assert_eq!(game.get_best_move(), (0, 0));
    assert_eq!(game.get_best_move(), (0, 0));
}

#[test]
fn best_move_on_full_board_is_origin() {
    let mut game = game_with([
        [Cell::X, Cell::O, Cell::X],
        [Cell::X, Cell::O, Cell::O],
        [Cell::O, Cell::X, Cell::X],
    ]);
    assert_eq!(game.get_best_move(), (0, 0));
}

fn o_best_move(game: &mut Game) -> (usize, usize) {
    let mut best = i32::MAX;
    let mut best_move = (0, 0);
    for r in 0..3 {
        for c in 0..3 {
            if game.board[r][c] == Cell::Empty {
                game.board[r][c] = Cell::O;
                let s = game.minimax(0, true);
                game.board[r][c] = Cell::Empty;
                if s < best {
                    best = s;
                    best_move = (r, c);
                }
            }
        }
    }
    best_move
}

#[test]
fn optimal_self_play_is_a_draw() {
    let mut game = Game::new();
    loop {
        let (r, c) = if game.current_player == Cell::X {
            game.get_best_move()
        } else {
            o_best_move(&mut game)
        };
        assert!(game.make_move(r, c));
        assert!(!game.is_winner(&game.current_player));
        if game.is_draw() {
            break;
        }
        game.switch_player();
    }
}

fn x_never_loses(game: &mut Game) {
    // X to move.
    if game.is_draw() {
        return;
    }
    let (r, c) = game.get_best_move();
    assert!(game.make_move(r, c));
    if game.is_winner(&Cell::X) || game.is_draw() {
        game.board[r][c] = Cell::Empty;
        return;
    }
    game.switch_player();
    for (orow, ocol) in game.empty_cells() {
        assert!(game.make_move(orow, ocol));
        assert!(!game.is_winner(&Cell::O));
        game.switch_player();
        x_never_loses(game);
        game.switch_player();
        game.board[orow][ocol] = Cell::Empty;
    }
    game.switch_player();
    game.board[r][c] = Cell::Empty;
}

#[test]
fn optimal_x_never_loses_to_any_reply() {
    let mut game = Game::new();
    x_never_loses(&mut game);
    assert_eq!(game.board, Game::new().board);
}
