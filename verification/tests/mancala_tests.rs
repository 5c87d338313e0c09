use std::time::Duration;
use arbor::Action;
use arbor::GameResult;
use arbor::GameState;
use arbor::MCTS;

const RB: usize = 6;
const LB: usize = 13;

#[derive(Copy, Clone, Debug, PartialEq, Eq)]
enum Pit {
    R1,
    R2,
    R3,
    R4,
    R5,
    R6,
    RBank,
    L1,
    L2,
    L3,
    L4,
    L5,
    L6,
    LBank,
}

impl Action for Pit {}

#[derive(Copy, Clone, Debug, PartialEq, Eq)]
enum Player {
    R,
    L,
}

#[derive(Clone, Debug)]
struct Mancala {
    pit: [u8; 14],
    side: Player,
}

fn next_idx(side: Player, i: usize) -> usize {
    let mut j = (i + 1) % 14;
    if side == Player::R && j == LB {
        j = 0;
    }
    if side == Player::L && j == RB {
        j = RB + 1;
    }
    j
}

fn right_pits() -> Vec<Pit> {
    vec![Pit::R1, Pit::R2, Pit::R3, Pit::R4, Pit::R5, Pit::R6]
}

fn left_pits() -> Vec<Pit> {
    vec![Pit::L1, Pit::L2, Pit::L3, Pit::L4, Pit::L5, Pit::L6]
}

impl Mancala {
    fn new() -> Self {
        let mut pit = [4u8; 14];
        pit[RB] = 0;
        pit[LB] = 0;
        Mancala { pit, side: Player::R }
    }

    fn load(moves: &[Pit]) -> Self {
        let mut game = Mancala::new();
        for &m in moves {
            game = game.make(m);
        }
        game
    }
}

impl GameState<Pit> for Mancala {
    fn actions(&self) -> Vec<Pit> {
        let own = match self.side {
            Player::R => right_pits(),
            Player::L => left_pits(),
        };
        let mut v = Vec::new();
        for p in own {
            if self.pit[p as usize] > 0 {
                v.push(p);
            }
        }
        v
    }

    fn make(&self, action: Pit) -> Self {
        let mut g = self.clone();
        let start = action as usize;
        let mut stones = g.pit[start];
        g.pit[start] = 0;
        let mut i = start;
        while stones > 0 {
            i = next_idx(g.side, i);
            g.pit[i] += 1;
            stones -= 1;
        }
        let my_bank = match g.side {
            Player::R => RB,
            Player::L => LB,
        };
        if i != my_bank {
            let own_pit = match g.side {
                Player::R => i < RB,
                Player::L => i > RB && i < LB,
            };
            if own_pit && g.pit[i] == 1 {
                let opposite = 12 - i;
                if g.pit[opposite] > 0 {
                    g.pit[my_bank] += g.pit[i] + g.pit[opposite];
                    g.pit[i] = 0;
                    g.pit[opposite] = 0;
                }
            }
            g.side = match g.side {
                Player::R => Player::L,
                Player::L => Player::R,
            };
        }
        g
    }

    fn hash(&self) -> u64 {
        let mut h: u64 = if self.side == Player::R { 1 } else { 2 };
        for i in 0..14 {
            h = h.wrapping_mul(57).wrapping_add(self.pit[i] as u64);
        }
        h
    }

    fn gameover(&self) -> Option<GameResult> {
        let (my_lo, my_bank, opp_lo, opp_bank) = match self.side {
            Player::R => (0usize, RB, RB + 1, LB),
            Player::L => (RB + 1, LB, 0usize, RB),
        };
        let my_stones: u32 = (my_lo..my_lo + 6).map(|i| self.pit[i] as u32).sum();
        if my_stones > 0 {
            return None;
        }
        let opp_stones: u32 = (opp_lo..opp_lo + 6).map(|i| self.pit[i] as u32).sum();
        let my_score = self.pit[my_bank] as u32;
        let opp_score = self.pit[opp_bank] as u32 + opp_stones;
        if my_score > opp_score {
            Some(GameResult::Win)
        } else if my_score < opp_score {
            Some(GameResult::Lose)
        } else {
            Some(GameResult::Draw)
        }
    }

    fn player(&self) -> u32 {
        match self.side {
            Player::R => 1,
            Player::L => 2,
        }
    }
}

fn best(moves: &[Pit]) -> Pit {
    let game = Mancala::load(&moves);
    let t = Duration::new(1, 0);
    let result = MCTS::new().with_time(t).search(game).unwrap();
    println!("{:?}", result);
    result
}

#[test]
fn mancala_free_move_1() {
    let mut game = Mancala::new();
    println!("{:?}", game);

    game = game.make(Pit::R3);
    println!("{:?}", game);

    game = game.make(Pit::R6);
    println!("{:?}", game);

    assert!(game.side == Player::L);
    assert!(game.pit[RB] == 2);
    assert!(game.pit[LB] == 0);
}

#[test]
fn mancala_free_move_2() {
    let mut game = Mancala::new();
    println!("{:?}", game);

    game = game.make(Pit::R3);
    println!("{:?}", game);

    game = game.make(Pit::R6);
    println!("{:?}", game);

    game = game.make(Pit::L2);
    println!("{:?}", game);

    game = game.make(Pit::L6);
    println!("{:?}", game);

    assert!(game.side == Player::R);
    assert!(game.pit[RB] == 2);
    assert!(game.pit[LB] == 2);
}

#[test]
fn mancala_right_capture() {
    let mut game = Mancala::new();
    println!("{:?}", game);

    game = game.make(Pit::R6);
    println!("{:?}", game);

    game = game.make(Pit::L6);
    println!("{:?}", game);

    game = game.make(Pit::R1);
    println!("{:?}", game);

    assert!(game.side == Player::L);
    assert!(game.pit[RB] == 1 + 1 + 5);
    assert!(game.pit[LB] == 1);
    assert!(game.pit[Pit::R6 as usize] == 0);
    assert!(game.pit[Pit::L1 as usize] == 0);
}

#[test]
fn mancala_left_capture() {
    let mut game = Mancala::new();
    println!("{:?}", game);

    game = game.make(Pit::R6);
    println!("{:?}", game);

    game = game.make(Pit::L2);
    println!("{:?}", game);

    game = game.make(Pit::L6);
    println!("{:?}", game);

    game = game.make(Pit::R5);
    println!("{:?}", game);

    game = game.make(Pit::L5);
    println!("{:?}", game);

    game = game.make(Pit::R2);
    println!("{:?}", game);

    game = game.make(Pit::L3);
    println!("{:?}", game);

    game = game.make(Pit::R1);
    println!("{:?}", game);

    game = game.make(Pit::L2);
    println!("{:?}", game);

    assert!(game.side == Player::R);
    assert!(game.pit[RB] == 4);
    assert!(game.pit[LB] == 12);
    assert!(game.pit[Pit::R4 as usize] == 0);
    assert!(game.pit[Pit::L3 as usize] == 0);
}

#[test]
fn mancala_best_move_split() {
    let m = best(&[Pit::R6, Pit::L6]);
    assert!((m == Pit::R1) || (m == Pit::R2));
}

#[test]
fn mancala_best_move_free_turn() {
    let m = best(&[Pit::R6, Pit::L6, Pit::R2]);
    assert!(m == Pit::R6);
}
