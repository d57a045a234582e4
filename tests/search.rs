use rubiks_cube::rubiks::Move;
use rubiks_cube::search::{generate_and_run_tests, run_ops_until_solved, SearchRecord};

fn all_moves() -> Vec<Move> {
    vec![
        Move::R, Move::U, Move::F, Move::D, Move::L, Move::B, Move::M, Move::E, Move::S,
        Move::RPrime, Move::UPrime, Move::FPrime, Move::DPrime, Move::LPrime, Move::BPrime,
        Move::MPrime, Move::EPrime, Move::SPrime,
    ]
}

fn has_triple_run(ms: &Vec<Move>) -> bool {
    (2..ms.len()).any(|i| ms[i] == ms[i - 1] && ms[i - 1] == ms[i - 2])
}

fn summary(records: &Vec<SearchRecord>) -> Vec<(Vec<Move>, Option<u32>)> {
    records.iter().map(|r| (r.moves.clone(), r.count)).collect()
}

#[test]
fn single_r_has_order_four() {
    assert_eq!(run_ops_until_solved(&vec![Move::R], 100), Some(4));
    assert_eq!(run_ops_until_solved(&vec![Move::R], 4), Some(4));
    assert_eq!(run_ops_until_solved(&vec![Move::R], 3), None);
}

#[test]
fn r_then_u_has_a_fixed_order() {
    assert_eq!(run_ops_until_solved(&vec![Move::R, Move::U], 1000), Some(35));
    assert_eq!(run_ops_until_solved(&vec![Move::R, Move::U], 1000), Some(35));
    assert_eq!(run_ops_until_solved(&vec![Move::R, Move::U], 34), None);
}

#[test]
fn orders_of_known_sequences() {
    assert_eq!(run_ops_until_solved(&vec![Move::R, Move::U, Move::RPrime, Move::UPrime], 100), Some(6));
    assert_eq!(run_ops_until_solved(&vec![Move::R, Move::R], 100), Some(2));
    assert_eq!(run_ops_until_solved(&vec![Move::U, Move::UPrime], 100), Some(1));
    assert_eq!(run_ops_until_solved(&vec![Move::R, Move::U, Move::F], 100), Some(60));
    assert_eq!(run_ops_until_solved(&vec![Move::M, Move::E, Move::S], 100), Some(4));
}

#[test]
fn empty_sequence_has_order_one_and_zero_bound_gives_none() {
    assert_eq!(run_ops_until_solved(&vec![], 10), Some(1));
    assert_eq!(run_ops_until_solved(&vec![Move::R], 0), None);
}

#[test]
fn search_depth_two_over_two_moves() {
    let records = generate_and_run_tests(2, &vec![Move::R, Move::U], 100);
    assert_eq!(
        summary(&records),
        vec![
            (vec![Move::R, Move::R], Some(2)),
            (vec![Move::R, Move::U], Some(35)),
            (vec![Move::U, Move::R], Some(35)),
            (vec![Move::U, Move::U], Some(2)),
        ]
    );
    assert!(records.iter().all(|r| r.depth == 2));
}

#[test]
fn search_prunes_triple_runs() {
    let records = generate_and_run_tests(3, &vec![Move::R, Move::U], 100);
    assert_eq!(
        summary(&records),
        vec![
            (vec![Move::R, Move::R, Move::U], Some(30)),
            (vec![Move::R, Move::U, Move::R], Some(30)),
            (vec![Move::R, Move::U, Move::U], Some(30)),
            (vec![Move::U, Move::R, Move::R], Some(30)),
            (vec![Move::U, Move::R, Move::U], Some(30)),
            (vec![Move::U, Move::U, Move::R], Some(30)),
        ]
    );
}

#[test]
fn search_depth_four_count() {
    let records = generate_and_run_tests(4, &vec![Move::R, Move::U], 100);
    assert_eq!(records.len(), 10);
    assert!(records.iter().all(|r| r.moves.len() == 4 && !has_triple_run(&r.moves)));
    assert_eq!(records[0].moves, vec![Move::R, Move::R, Move::U, Move::R]);
    assert_eq!(records[0].count, Some(21));
}

#[test]
fn search_full_pool_counts() {
    let pool = all_moves();
    assert_eq!(generate_and_run_tests(1, &pool, 10).len(), 18);
    let records = generate_and_run_tests(2, &pool, 1000);
    assert_eq!(records.len(), 18 * 18);
    assert!(records.iter().all(|r| r.count.is_some()));
}

#[test]
fn search_depth_three_six_moves() {
    let pool = vec![Move::R, Move::U, Move::F, Move::D, Move::L, Move::B];
    let records = generate_and_run_tests(3, &pool, 2000);
    assert_eq!(records.len(), 6 * 6 * 6 - 6);
    assert!(records.iter().all(|r| !has_triple_run(&r.moves)));
    let mut distinct: Vec<Vec<Move>> = records.iter().map(|r| r.moves.clone()).collect();
    distinct.dedup();
    assert_eq!(distinct.len(), 210);
}

#[test]
fn search_depth_zero_and_empty_pool() {
    let records = generate_and_run_tests(0, &vec![Move::R], 10);
    assert_eq!(records.len(), 1);
    assert_eq!(records[0].moves, vec![]);
    assert_eq!(records[0].count, Some(1));
    assert_eq!(generate_and_run_tests(2, &vec![], 10).len(), 0);
}

#[test]
fn search_reports_none_past_the_bound() {
    let records = generate_and_run_tests(1, &vec![Move::R], 3);
    assert_eq!(records.len(), 1);
    assert_eq!(records[0].count, None);
}
