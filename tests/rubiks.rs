use rubiks_cube::algorithms::{basic_move, one_of_everything, one_of_everything_prime, one_of_everything_really, r_u};
use rubiks_cube::rubiks::{Move, RubiksCell, RubiksCube, RubiksCube3x3};

fn all_moves() -> Vec<Move> {
    vec![
        Move::R, Move::U, Move::F, Move::D, Move::L, Move::B, Move::M, Move::E, Move::S,
        Move::RPrime, Move::UPrime, Move::FPrime, Move::DPrime, Move::LPrime, Move::BPrime,
        Move::MPrime, Move::EPrime, Move::SPrime,
    ]
}

fn inverse(m: Move) -> Move {
    match m {
        Move::R => Move::RPrime,
        Move::U => Move::UPrime,
        Move::F => Move::FPrime,
        Move::D => Move::DPrime,
        Move::L => Move::LPrime,
        Move::B => Move::BPrime,
        Move::M => Move::MPrime,
        Move::E => Move::EPrime,
        Move::S => Move::SPrime,
        Move::RPrime => Move::R,
        Move::UPrime => Move::U,
        Move::FPrime => Move::F,
        Move::DPrime => Move::D,
        Move::LPrime => Move::L,
        Move::BPrime => Move::B,
        Move::MPrime => Move::M,
        Move::EPrime => Move::E,
        Move::SPrime => Move::S,
    }
}

#[test]
fn rubiks_cube_solved_when_created() {
    let rc = RubiksCube3x3::new();
    assert_eq!(true, rc.solved());
}

#[test]
fn single_u_prime_undoes_single_u() {
    let mut rc = RubiksCube3x3::new();
    rc.single_u();
    assert_eq!(false, rc.solved());
    rc.single_u_prime();
    assert_eq!(true, rc.solved());
}

#[test]
fn single_u_solves_if_repeated_four_times() {
    let mut rc = RubiksCube3x3::new();
    for _ in 0..4 {
        rc.single_u();
    }
    assert_eq!(true, rc.solved());
}

#[test]
fn single_r_prime_undoes_single_r() {
    let mut rc = RubiksCube3x3::new();
    rc.single_r();
    assert_eq!(false, rc.solved());
    rc.single_r_prime();
    assert_eq!(true, rc.solved());
}

#[test]
fn single_r_solves_if_repeated_four_times() {
    let mut rc = RubiksCube3x3::new();
    for _ in 0..4 {
        rc.single_r();
    }
    assert_eq!(true, rc.solved());
}

#[test]
fn single_f_prime_undoes_single_f() {
    let mut rc = RubiksCube3x3::new();
    rc.single_f();
    assert_eq!(false, rc.solved());
    rc.single_f_prime();
    assert_eq!(true, rc.solved());
}

#[test]
fn single_f_solves_if_repeated_four_times() {
    let mut rc = RubiksCube3x3::new();
    for _ in 0..4 {
        rc.single_f();
    }
    assert_eq!(true, rc.solved());
}

#[test]
fn single_d_prime_undoes_single_d() {
    let mut rc = RubiksCube3x3::new();
    rc.single_d();
    assert_eq!(false, rc.solved());
    rc.single_d_prime();
    assert_eq!(true, rc.solved());
}

#[test]
fn single_d_solves_if_repeated_four_times() {
    let mut rc = RubiksCube3x3::new();
    for _ in 0..4 {
        rc.single_d();
    }
    assert_eq!(true, rc.solved());
}

#[test]
fn single_l_prime_undoes_single_l() {
    let mut rc = RubiksCube3x3::new();
    rc.single_l();
    assert_eq!(false, rc.solved());
    rc.single_l_prime();
    assert_eq!(true, rc.solved());
}

#[test]
fn single_l_solves_if_repeated_four_times() {
    let mut rc = RubiksCube3x3::new();
    for _ in 0..4 {
        rc.single_l();
    }
    assert_eq!(true, rc.solved());
}

#[test]
fn single_b_prime_undoes_single_b() {
    let mut rc = RubiksCube3x3::new();
    rc.single_b();
    assert_eq!(false, rc.solved());
    rc.single_b_prime();
    assert_eq!(true, rc.solved());
}

#[test]
fn single_b_solves_if_repeated_four_times() {
    let mut rc = RubiksCube3x3::new();
    for _ in 0..4 {
        rc.single_b();
    }
    assert_eq!(true, rc.solved());
}

#[test]
fn collect_gives_home_positions() {
    let home = RubiksCell::collect();
    assert_eq!(home[0][0][0], RubiksCell::RYB);
    assert_eq!(home[1][1][1], RubiksCell::C);
    assert_eq!(home[2][2][2], RubiksCell::GWO);
    assert_eq!(home[0][2][1], RubiksCell::RW);
    let rc = RubiksCube3x3::new();
    let cube = rc.get_cube();
    for a in 0..3 {
        for b in 0..3 {
            for d in 0..3 {
                assert_eq!(cube[a][b][d], home[a][b][d]);
            }
        }
    }
}

#[test]
fn every_move_unsolves_and_is_undone_by_its_inverse() {
    for m in all_moves() {
        let mut rc = RubiksCube3x3::new();
        rc.apply(m);
        assert_eq!(false, rc.solved());
        rc.apply(inverse(m));
        assert_eq!(true, rc.solved());
        let mut rc = RubiksCube3x3::new();
        rc.apply(inverse(m));
        rc.apply(m);
        assert_eq!(true, rc.solved());
    }
}

#[test]
fn every_move_has_order_four() {
    for m in all_moves() {
        let mut rc = RubiksCube3x3::new();
        for k in 1..4 {
            rc.apply(m);
            assert_eq!(false, rc.solved(), "solved after {} turns", k);
        }
        rc.apply(m);
        assert_eq!(true, rc.solved());
    }
}

#[test]
fn move_then_inverse_keeps_every_cell_of_a_scrambled_cube() {
    let mut rc = RubiksCube3x3::new();
    one_of_everything(&mut rc);
    let before = rc.get_cube().clone();
    for m in all_moves() {
        rc.apply(m);
        rc.apply(inverse(m));
        assert_eq!(rc.get_cube(), &before);
    }
}

#[test]
fn single_r_moves_the_right_column() {
    let mut rc = RubiksCube3x3::new();
    rc.single_r();
    let cube = rc.get_cube();
    // the column at offset 2 of every layer turns; the rest stays home
    assert_eq!(cube[0][0][2], RubiksCell::YGO);
    assert_eq!(cube[0][0][0], RubiksCell::RYB);
    assert_eq!(cube[1][1][2], RubiksCell::G);
    assert_eq!(cube[1][1][1], RubiksCell::C);
}

#[test]
fn single_u_moves_the_top_row() {
    let mut rc = RubiksCube3x3::new();
    rc.single_u();
    let cube = rc.get_cube();
    assert_eq!(cube[0][0][0], RubiksCell::YBO);
    assert_eq!(cube[0][1][0], RubiksCell::RB);
    assert_eq!(cube[1][0][1], RubiksCell::Y);
}

#[test]
fn middle_slices_turn_and_return() {
    for m in [Move::M, Move::E, Move::S] {
        let mut rc = RubiksCube3x3::new();
        rc.apply(m);
        assert_eq!(false, rc.solved());
        assert_eq!(rc.get_cube()[1][1][1], RubiksCell::C);
        for _ in 0..3 {
            rc.apply(m);
        }
        assert_eq!(true, rc.solved());
    }
}

#[test]
fn apply_all_matches_single_moves() {
    let mut a = RubiksCube3x3::new();
    let mut b = RubiksCube3x3::new();
    a.apply_all(&vec![Move::R, Move::U, Move::RPrime, Move::UPrime]);
    basic_move(&mut b);
    assert_eq!(a.get_cube(), b.get_cube());
    assert_eq!(false, a.solved());
}

#[test]
fn fixed_sequences() {
    let mut rc = RubiksCube3x3::new();
    r_u(&mut rc);
    assert_eq!(false, rc.solved());
    let mut rc = RubiksCube3x3::new();
    one_of_everything(&mut rc);
    assert_eq!(false, rc.solved());
    one_of_everything_prime(&mut rc);
    assert_eq!(false, rc.solved());
    let mut rc2 = RubiksCube3x3::new();
    one_of_everything_really(&mut rc2);
    assert_eq!(rc.get_cube(), rc2.get_cube());
}
