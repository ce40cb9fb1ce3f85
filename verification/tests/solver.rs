use connect4_solver::board::BitBoard;
use connect4_solver::board::Board;
use connect4_solver::board::Column;
use connect4_solver::solver::generate_move_order;
use connect4_solver::solver::negamax_ab::NegamaxSolver;
use connect4_solver::solver::negamax_id_nw::NegamaxID;
use connect4_solver::solver::score;
use connect4_solver::solver::unwrap_col;
use connect4_solver::solver::Solver;
use connect4_solver::transposition_table::TranspositionTable;

#[test]
fn test_score() {
    // Win on 4th stone of player 1 -> each player played 3 so far
    assert_eq!(score(6), 18);
    // 4th stone of player 2 -> P1 played 4, P2 played 3
    assert_eq!(score(7), 18);

    // 18th stone of player 1 -> P1 played 17, P2 played 17
    assert_eq!(score(34), 4);
    // 18th stone of player 2 -> P1 played 18, P2 played 17
    assert_eq!(score(35), 4);
}

#[test]
fn score_at_the_ends() {
    assert_eq!(score(0), 21);
    assert_eq!(score(1), 21);
    assert_eq!(score(41), 1);
    assert_eq!(score(42), 0);
}

#[test]
fn move_order_starts_in_the_centre() {
    assert_eq!(
        generate_move_order(),
        [
            Column::D,
            Column::E,
            Column::C,
            Column::F,
            Column::B,
            Column::G,
            Column::A
        ]
    );
}

#[test]
fn unwrap_col_gives_the_column() {
    assert_eq!(unwrap_col(Some(Column::C)), Column::C);
    assert_eq!(unwrap_col(Column::from_repr(6)), Column::G);
}

// Positions without a winning move for the player to move, with their scores.
const CASES: [(&str, i32); 31] = [
    ("45741713466116636564374731", 1),
    ("43642212226215634413767641", -8),
    ("37131116552552517774656663", -7),
    ("52314325527716411147276314", -2),
    ("7465265162463436341365344137", -2),
    ("1754672171566712243267217455", -7),
    ("2425611115331536266362235523", -4),
    ("1777617766341217623334313441", 4),
    ("537532647233373462167757615511", 0),
    ("136524662137666271375754731711", 5),
    ("553753457222212773355347231661", -2),
    ("761433341344242726345132162217", -6),
    ("62777376745232664716531313612134", -5),
    ("75737451372732746613152134266122", 2),
    ("66531177731765712611535266347344", 1),
    ("43656677664516724772721425224111", 0),
    ("3341263226747523166427474273673461", -4),
    ("2174711653745435113663176532234472", 0),
    ("7444335135573641335666414715715662", 3),
    ("1262654343227642377125347735736116", -1),
    ("773445271611551565724126127352673333", -3),
    ("744352325715643517114156254462716773", 0),
    ("652773733132414244147411253217276653", -1),
    ("735522573226616712737133163756261155", 2),
    ("33612434327775366214175555522376267644", 0),
    ("61514514245227642653312155714432366673", 1),
    ("75765247216361645525112732245614673333", -2),
    ("15336544433574424737732277552522111161", -1),
    ("1524771262345274314177267435642553516616", 0),
    ("1643325115124343137571776235542625776626", -1),
    ("56317546741551443355713246116722773623622", 0),
];

#[test]
fn solver_finds_the_scores() {
    let mut solver = Solver::new_with_table(TranspositionTable::with_size_bits(16));
    for (notation, expected) in CASES {
        let board = BitBoard::from_notation(notation);
        solver.clear();
        let result = solver.solve(&board);
        assert_eq!(result.score, expected, "{}", notation);
        assert!(result.nodes_searched >= 1);
    }
}

#[test]
fn solver_with_a_warm_table_finds_the_scores() {
    let mut solver = Solver::new_with_table(TranspositionTable::with_size_bits(10));
    for (notation, expected) in CASES {
        let board = BitBoard::from_notation(notation);
        let result = solver.solve(&board);
        assert_eq!(result.score, expected, "{}", notation);
    }
    // once more, now that the table holds what the first round left
    for (notation, expected) in CASES {
        let board = BitBoard::from_notation(notation);
        let result = solver.solve(&board);
        assert_eq!(result.score, expected, "{}", notation);
    }
}

#[test]
fn solver_with_the_default_table() {
    let mut solver = Solver::new();
    let board = BitBoard::from_notation("7444335135573641335666414715715662");
    assert_eq!(solver.solve(&board).score, 3);
    solver.clear();
    assert_eq!(solver.solve(&board).score, 3);
    let mut solver = Solver::default();
    assert_eq!(solver.solve(&board).score, 3);
}

#[test]
fn negamax_finds_the_scores() {
    for (notation, expected) in CASES {
        let board = BitBoard::from_notation(notation);
        let mut solver = NegamaxSolver::new();
        let result = solver.solve(&board);
        assert_eq!(result.score, expected, "{}", notation);
        assert!(result.nodes_searched >= 1);
    }
}

#[test]
fn negamax_with_a_table_finds_the_scores() {
    let mut solver = NegamaxSolver::new_with_custom_table(TranspositionTable::with_size_bits(12));
    for (notation, expected) in CASES {
        let board = BitBoard::from_notation(notation);
        let result = solver.solve(&board);
        assert_eq!(result.score, expected, "{}", notation);
    }
}

#[test]
fn negamax_with_the_default_table() {
    let mut solver = NegamaxSolver::new_with_table();
    let board = BitBoard::from_notation("1777617766341217623334313441");
    assert_eq!(solver.solve(&board).score, 4);
    solver.clear_table();
    assert_eq!(solver.solve(&board).score, 4);
}

#[test]
fn negamax_id_finds_the_scores() {
    let mut solver = NegamaxID::new_with_custom_table(TranspositionTable::with_size_bits(12));
    for (notation, expected) in CASES {
        let board = BitBoard::from_notation(notation);
        let result = solver.solve(&board);
        assert_eq!(result.score, expected, "{}", notation);
    }
}

#[test]
fn negamax_id_with_the_default_table() {
    let mut solver = NegamaxID::new();
    let board = BitBoard::from_notation("136524662137666271375754731711");
    assert_eq!(solver.solve(&board).score, 5);
}

#[test]
fn solvers_agree() {
    let mut plain = NegamaxSolver::new();
    let mut probing = NegamaxID::new_with_custom_table(TranspositionTable::with_size_bits(14));
    let mut full = Solver::new_with_table(TranspositionTable::with_size_bits(14));
    for (notation, _) in CASES {
        let board = BitBoard::from_notation(notation);
        let a = plain.solve(&board).score;
        let b = probing.solve(&board).score;
        let c = full.solve(&board).score;
        assert_eq!(a, b, "{}", notation);
        assert_eq!(a, c, "{}", notation);
    }
}

#[test]
fn a_win_at_once_needs_no_search() {
    // the player to move completes a row with a stone in G
    let board = BitBoard::from_notation("435462");
    assert!(board.can_win_in_one_move());
    let mut solver = Solver::new_with_table(TranspositionTable::with_size_bits(4));
    let result = solver.solve(&board);
    assert_eq!(result.score, 18);
    assert_eq!(result.nodes_searched, 1);

    let mut solver = NegamaxID::new_with_custom_table(TranspositionTable::with_size_bits(4));
    let result = solver.solve(&board);
    assert_eq!(result.score, 18);
    assert_eq!(result.nodes_searched, 1);

    let mut solver = NegamaxSolver::new();
    let result = solver.solve(&board);
    assert_eq!(result.score, 18);
    assert_eq!(result.nodes_searched, 1);
}

#[test]
fn a_forced_loss_is_lost_with_the_next_stone() {
    // 13 stones, and the opponent wins in A or in G
    let board = BitBoard::from_notation("4453623221115");
    assert_eq!(board.number_of_moves(), 13);
    let mut solver = Solver::new_with_table(TranspositionTable::with_size_bits(4));
    let result = solver.solve(&board);
    assert_eq!(result.score, -14);
    // one probe of one node settles it
    assert_eq!(result.nodes_searched, 1);
    let mut solver = NegamaxSolver::new();
    assert_eq!(solver.solve(&board).score, -14);
    let mut solver = NegamaxID::new_with_custom_table(TranspositionTable::with_size_bits(4));
    assert_eq!(solver.solve(&board).score, -14);
}

#[test]
fn solve_ab_bounds_the_score_outside_the_window() {
    // the score of this position is 5
    let board = BitBoard::from_notation("136524662137666271375754731711");
    let mut solver = NegamaxSolver::new();
    let inside = solver.solve_ab(&board, 2, 8);
    assert_eq!(inside.score, 5);
    let below = solver.solve_ab(&board, -3, 1);
    assert!(1 <= below.score && below.score <= 5);
    let above = solver.solve_ab(&board, 7, 9);
    assert!(5 <= above.score && above.score <= 7);
}

#[test]
fn scores_stay_within_their_bounds() {
    for (notation, expected) in CASES {
        let board = BitBoard::from_notation(notation);
        let m = board.number_of_moves() as i32;
        if board.possible_nonlosing_moves().is_some() {
            assert!(-(40 - m) / 2 <= expected, "{}", notation);
            assert!(expected <= (42 - m) / 2, "{}", notation);
        } else {
            assert_eq!(expected, -(42 - m) / 2, "{}", notation);
        }
    }
}

// Positions with more cells left, and their scores.
const EARLIER: [(&str, i32); 9] = [
    ("41176122144644156276", -1),
    ("33133147122611155376", -1),
    ("24526724641542137631", -4),
    ("2247566112244163734111", 7),
    ("1575135141261475643154", -7),
    ("2413573367135114354735", -8),
    ("725535424516164161645751", -2),
    ("416215447432442356651257", -8),
    ("275557226673235322313341", -8),
];

#[test]
fn solver_finds_the_scores_of_earlier_positions() {
    let mut solver = Solver::new_with_table(TranspositionTable::with_size_bits(18));
    for (notation, expected) in EARLIER {
        let board = BitBoard::from_notation(notation);
        solver.clear();
        let result = solver.solve(&board);
        assert_eq!(result.score, expected, "{}", notation);
    }
}

#[test]
fn negamax_id_finds_the_scores_of_earlier_positions() {
    let mut solver = NegamaxID::new_with_custom_table(TranspositionTable::with_size_bits(18));
    for (notation, expected) in EARLIER {
        let board = BitBoard::from_notation(notation);
        let result = solver.solve(&board);
        assert_eq!(result.score, expected, "{}", notation);
    }
}

#[test]
fn a_full_board_is_a_draw() {
    let board = BitBoard::from_notation("156773731413476534472373522264422156165561");
    assert_eq!(board.number_of_moves(), 42);
    assert!(!board.can_win_in_one_move());
    assert_eq!(board.possible_nonlosing_moves(), None);

    let mut solver = Solver::new_with_table(TranspositionTable::with_size_bits(4));
    let result = solver.solve(&board);
    assert_eq!(result.score, 0);
    assert_eq!(result.nodes_searched, 0);

    let mut solver = NegamaxID::new_with_custom_table(TranspositionTable::with_size_bits(4));
    let result = solver.solve(&board);
    assert_eq!(result.score, 0);
    assert_eq!(result.nodes_searched, 0);

    let mut solver = NegamaxSolver::new();
    let result = solver.solve(&board);
    assert_eq!(result.score, 0);
    assert_eq!(result.nodes_searched, 1);
}

#[test]
fn default_solvers() {
    let board = BitBoard::from_notation("75737451372732746613152134266122");
    assert_eq!(NegamaxSolver::default().solve(&board).score, 2);
    assert_eq!(NegamaxID::default().solve(&board).score, 2);
    assert_eq!(Solver::default().solve(&board).score, 2);
}

#[test]
fn with_two_cells_left_nobody_wins() {
    // 40 and 41 stones, no winning move, and a move that loses nothing
    for notation in [
        "1524771262345274314177267435642553516616",
        "56317546741551443355713246116722773623622",
    ] {
        let board = BitBoard::from_notation(notation);
        assert!(!board.can_win_in_one_move());
        assert!(board.possible_nonlosing_moves().is_some());
        let mut solver = Solver::new_with_table(TranspositionTable::with_size_bits(4));
        let result = solver.solve(&board);
        assert_eq!(result.score, 0);
        assert!(result.nodes_searched >= 1);
    }
}

#[test]
fn a_table_that_was_used_gives_the_same_scores_as_a_new_one() {
    let mut warm = Solver::new_with_table(TranspositionTable::with_size_bits(8));
    for (notation, _) in CASES {
        warm.solve(&BitBoard::from_notation(notation));
    }
    for (notation, expected) in CASES {
        let board = BitBoard::from_notation(notation);
        let mut fresh = Solver::new_with_table(TranspositionTable::with_size_bits(8));
        assert_eq!(warm.solve(&board).score, fresh.solve(&board).score);
        warm.clear();
        assert_eq!(warm.solve(&board).score, expected);
    }
}
