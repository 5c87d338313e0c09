use std::cell::Cell;
use std::rc::Rc;
use std::time::Duration;
use arbor::Action;
use arbor::GameResult;
use arbor::GameState;
use arbor::MCTS;
use arbor::Node;
use arbor::SearchError;
use arbor::go;
use arbor::Tree;
use arbor::isqrt;
use arbor::log2_floor;

#[derive(Copy, Clone, Debug, PartialEq, Eq)]
enum Move {
    TL,
    TM,
    TR,
    ML,
    MM,
    MR,
    BL,
    BM,
    BR,
}

impl Action for Move {}

fn square(m: Move) -> usize {
    match m {
        Move::TL => 0,
        Move::TM => 1,
        Move::TR => 2,
        Move::ML => 3,
        Move::MM => 4,
        Move::MR => 5,
        Move::BL => 6,
        Move::BM => 7,
        Move::BR => 8,
    }
}

fn all_moves() -> Vec<Move> {
    vec![
        Move::TL,
        Move::TM,
        Move::TR,
        Move::ML,
        Move::MM,
        Move::MR,
        Move::BL,
        Move::BM,
        Move::BR,
    ]
}

#[derive(Clone)]
struct TicTacToe {
    board: [u8; 9],
    side: u8,
}

fn line(b: &[u8; 9], p: u8, i: usize, j: usize, k: usize) -> bool {
    b[i] == p && b[j] == p && b[k] == p
}

fn has_win(b: &[u8; 9], p: u8) -> bool {
    line(b, p, 0, 1, 2)
        || line(b, p, 3, 4, 5)
        || line(b, p, 6, 7, 8)
        || line(b, p, 0, 3, 6)
        || line(b, p, 1, 4, 7)
        || line(b, p, 2, 5, 8)
        || line(b, p, 0, 4, 8)
        || line(b, p, 2, 4, 6)
}

impl GameState<Move> for TicTacToe {
    fn actions(&self) -> Vec<Move> {
        let mut v = Vec::new();
        for m in all_moves() {
            if self.board[square(m)] == 0 {
                v.push(m);
            }
        }
        v
    }

    fn make(&self, action: Move) -> Self {
        let mut next = self.clone();
        next.board[square(action)] = self.side;
        next.side = 3 - self.side;
        next
    }

    fn hash(&self) -> u64 {
        let mut h: u64 = 0;
        for i in 0..9 {
            h = h * 3 + self.board[i] as u64;
        }
        h
    }

    fn gameover(&self) -> Option<GameResult> {
        let me = self.side;
        let opp = 3 - me;
        if has_win(&self.board, me) {
            Some(GameResult::Win)
        } else if has_win(&self.board, opp) {
            Some(GameResult::Lose)
        } else if self.board.iter().all(|&s| s != 0) {
            Some(GameResult::Draw)
        } else {
            None
        }
    }

    fn player(&self) -> u32 {
        self.side as u32
    }

    fn custom_evaluation(&self) -> u64 {
        500_000
    }
}

fn load(moves: &[Move]) -> TicTacToe {
    let mut game = TicTacToe { board: [0; 9], side: 1 };
    for &m in moves {
        game = game.make(m);
    }
    game
}

fn best(moves: &[Move]) -> Move {
    let game = load(moves);
    let result = MCTS::new().with_time(Duration::new(1, 0)).search(game).unwrap();
    println!("{:?}", result);
    result
}

#[test]
fn tictactoe_best_obvious() {
    assert!(best(&[Move::MM, Move::TM, Move::MR, Move::ML, Move::BR, Move::TR]) == Move::TL);
}

#[test]
fn tictactoe_best_even() {
    assert!(best(&[Move::TL, Move::MM, Move::ML]) == Move::BL);
}

#[test]
fn tictactoe_best_even2() {
    assert!(best(&[Move::MM, Move::ML, Move::MR, Move::TL]) == Move::BL);
}

#[test]
fn tictactoe_best_split() {
    let m = best(&[Move::MM, Move::TM, Move::MR, Move::ML]);
    assert!((m == Move::BR) || (m == Move::TR));
}

#[test]
fn terminal_values_are_fixed() {
    assert_eq!(GameResult::Win.value(), 1_000_000);
    assert_eq!(GameResult::Lose.value(), 0);
    assert_eq!(GameResult::Draw.value(), 500_000);
}

#[test]
fn transposition_shares_one_entry() {
    let first = load(&[Move::MM, Move::TL, Move::MR, Move::TM]);
    let second = load(&[Move::MR, Move::TM, Move::MM, Move::TL]);
    assert_eq!(first.hash(), second.hash());

    let mut tree: Tree<Move> = Tree::new();
    tree.set(first.hash(), Node::Leaf(1, 250_000, 1));
    match tree.get(second.hash()) {
        Node::Leaf(p, q, n) => {
            assert_eq!(p, 1);
            assert_eq!(q, 250_000);
            assert_eq!(n, 1);
        },
        _ => panic!("the shared fingerprint must read back the stored leaf"),
    }
}

#[test]
fn absent_fingerprint_reads_unexplored() {
    let tree: Tree<Move> = Tree::new();
    assert!(matches!(tree.get(12345), Node::Unexplored));
}

#[test]
fn zero_budget_reports_unexpanded_root() {
    let game = load(&[]);
    let result = MCTS::new().with_time(Duration::new(0, 0)).search(game);
    assert_eq!(result, Err(SearchError::RootNotExpanded));
}

struct NoMoveGame;

impl GameState<Move> for NoMoveGame {
    fn actions(&self) -> Vec<Move> {
        Vec::new()
    }

    fn make(&self, _action: Move) -> Self {
        unreachable!()
    }

    fn hash(&self) -> u64 {
        7
    }

    fn gameover(&self) -> Option<GameResult> {
        None
    }

    fn player(&self) -> u32 {
        1
    }
}

#[test]
fn actionless_position_aborts_the_search() {
    let result = MCTS::new().search(NoMoveGame);
    assert_eq!(result, Err(SearchError::NoActions));
}

#[derive(Clone)]
struct EndlessGame {
    at: u64,
}

impl GameState<Move> for EndlessGame {
    fn actions(&self) -> Vec<Move> {
        vec![Move::TL]
    }

    fn make(&self, _action: Move) -> Self {
        EndlessGame { at: 1 - self.at }
    }

    fn hash(&self) -> u64 {
        self.at
    }

    fn gameover(&self) -> Option<GameResult> {
        None
    }

    fn player(&self) -> u32 {
        1
    }
}

#[test]
fn unbounded_playout_aborts_the_search() {
    let result = MCTS::new().search(EndlessGame { at: 0 });
    assert_eq!(result, Err(SearchError::OutOfBounds));
}

struct FlakyHashGame {
    counter: Rc<Cell<u64>>,
    depth: u8,
}

impl GameState<Move> for FlakyHashGame {
    fn actions(&self) -> Vec<Move> {
        vec![Move::TL]
    }

    fn make(&self, _action: Move) -> Self {
        FlakyHashGame { counter: self.counter.clone(), depth: self.depth + 1 }
    }

    fn hash(&self) -> u64 {
        if self.depth == 0 {
            0
        } else {
            let c = self.counter.get() + 1;
            self.counter.set(c);
            c
        }
    }

    fn gameover(&self) -> Option<GameResult> {
        if self.depth == 0 {
            None
        } else {
            Some(GameResult::Draw)
        }
    }

    fn player(&self) -> u32 {
        1
    }
}

#[test]
fn inconsistent_hash_aborts_the_search() {
    let game = FlakyHashGame { counter: Rc::new(Cell::new(0)), depth: 0 };
    let result = MCTS::new().search(game);
    assert_eq!(result, Err(SearchError::HashMismatch));
}

#[test]
fn walk_on_terminal_start_is_read_only() {
    let mut tree: Tree<Move> = Tree::new();
    tree.set(42, Node::Terminal(1, 500_000));
    let params = MCTS::new();
    let game = load(&[]);
    let result = go(&game, &mut tree, &params, 42);
    assert_eq!(result, Ok(500_000));
    assert!(matches!(tree.get(42), Node::Terminal(1, 500_000)));
}

#[test]
fn walk_on_leaf_start_records_exactly_one_visit() {
    let game = load(&[]);
    let root = game.hash();
    let mut tree: Tree<Move> = Tree::new();
    tree.set(root, Node::Leaf(1, 250_000, 2));
    let params = MCTS::new();
    let value = go(&game, &mut tree, &params, root).unwrap();
    assert!(value == 0 || value == 500_000 || value == 1_000_000);
    match tree.get(root) {
        Node::Leaf(p, q, n) => {
            assert_eq!(p, 1);
            assert_eq!(q, 250_000 + value);
            assert_eq!(n, 3);
        },
        _ => panic!("a leaf below the threshold must stay a leaf"),
    }
}

#[test]
fn walk_converts_leaf_past_threshold_to_branch() {
    let game = load(&[]);
    let root = game.hash();
    let mut tree: Tree<Move> = Tree::new();
    tree.set(root, Node::Leaf(1, 6_000_000, 11));
    let params = MCTS::new();
    let value = go(&game, &mut tree, &params, root).unwrap();
    match tree.get(root) {
        Node::Branch(p, q, n, e) => {
            assert_eq!(p, 1);
            assert_eq!(q, 6_000_000 + value);
            assert_eq!(n, 12);
            assert_eq!(e.len(), 9);
        },
        _ => panic!("a leaf past the threshold must expand to a branch"),
    }
}

#[test]
fn builder_defaults() {
    let params = MCTS::new();
    assert_eq!(params.time, Duration::new(1, 0));
    assert_eq!(params.exploration, 1_414_214);
    assert_eq!(params.expansion, 10);
    assert_eq!(params.use_custom_evaluation, false);
}

#[test]
fn builder_overrides() {
    let params = MCTS::new()
        .with_time(Duration::from_millis(250))
        .with_exploration(2_000_000)
        .with_expansion_minimum(3)
        .with_custom_evaluation();
    assert_eq!(params.time, Duration::from_millis(250));
    assert_eq!(params.exploration, 2_000_000);
    assert_eq!(params.expansion, 3);
    assert_eq!(params.use_custom_evaluation, true);
}

#[test]
fn custom_evaluation_still_finds_the_win() {
    let game = load(&[Move::MM, Move::TM, Move::MR, Move::ML, Move::BR, Move::TR]);
    let result = MCTS::new()
        .with_custom_evaluation()
        .with_time(Duration::new(1, 0))
        .search(game)
        .unwrap();
    assert_eq!(result, Move::TL);
}

#[test]
fn expansion_threshold_changes_still_find_the_win() {
    let moves = [Move::MM, Move::TM, Move::MR, Move::ML, Move::BR, Move::TR];
    for threshold in [1u32, 50u32] {
        let game = load(&moves);
        let result = MCTS::new()
            .with_expansion_minimum(threshold)
            .with_time(Duration::new(1, 0))
            .search(game)
            .unwrap();
        assert_eq!(result, Move::TL);
    }
}

#[test]
fn integer_sqrt_examples() {
    assert_eq!(isqrt(0), 0);
    assert_eq!(isqrt(1), 1);
    assert_eq!(isqrt(15), 3);
    assert_eq!(isqrt(16), 4);
    assert_eq!(isqrt(1_000_000), 1000);
    assert_eq!(isqrt(u64::MAX), 4_294_967_295);
}

#[test]
fn integer_log2_examples() {
    assert_eq!(log2_floor(1), 0);
    assert_eq!(log2_floor(2), 1);
    assert_eq!(log2_floor(3), 1);
    assert_eq!(log2_floor(1024), 10);
    assert_eq!(log2_floor(u32::MAX), 31);
}
