//! Fixed move sequences.
use vstd::prelude::*;
use crate::rubiks::{Move, RubiksCube3x3, apply_moves, lemma_apply_moves_push, lemma_apply_moves_concat};

verus! {

/// One clockwise turn of each face: R, U, F, D, L, B.
pub fn one_of_everything(rc: &mut RubiksCube3x3)
    requires
        old(rc).inv(),
    ensures
        final(rc).inv(),
        final(rc)@ == apply_moves(old(rc)@, seq![Move::R, Move::U, Move::F, Move::D, Move::L, Move::B]),
{
    let ghost c = rc@;
    rc.single_r();
    rc.single_u();
    rc.single_f();
    rc.single_d();
    rc.single_l();
    rc.single_b();
    proof {
        lemma_apply_moves_push(c, seq![], Move::R);
        assert(seq![].push(Move::R) =~= seq![Move::R]);
        lemma_apply_moves_push(c, seq![Move::R], Move::U);
        assert(seq![Move::R].push(Move::U) =~= seq![Move::R, Move::U]);
        lemma_apply_moves_push(c, seq![Move::R, Move::U], Move::F);
        assert(seq![Move::R, Move::U].push(Move::F) =~= seq![Move::R, Move::U, Move::F]);
        lemma_apply_moves_push(c, seq![Move::R, Move::U, Move::F], Move::D);
        assert(seq![Move::R, Move::U, Move::F].push(Move::D) =~= seq![Move::R, Move::U, Move::F, Move::D]);
        lemma_apply_moves_push(c, seq![Move::R, Move::U, Move::F, Move::D], Move::L);
        assert(seq![Move::R, Move::U, Move::F, Move::D].push(Move::L) =~= seq![Move::R, Move::U, Move::F, Move::D, Move::L]);
        lemma_apply_moves_push(c, seq![Move::R, Move::U, Move::F, Move::D, Move::L], Move::B);
        assert(seq![Move::R, Move::U, Move::F, Move::D, Move::L].push(Move::B) =~= seq![Move::R, Move::U, Move::F, Move::D, Move::L, Move::B]);
    }
}

/// One counter-clockwise turn of each face: R', U', F', D', L', B'.
pub fn one_of_everything_prime(rc: &mut RubiksCube3x3)
    requires
        old(rc).inv(),
    ensures
        final(rc).inv(),
        final(rc)@ == apply_moves(old(rc)@, seq![Move::RPrime, Move::UPrime, Move::FPrime, Move::DPrime, Move::LPrime, Move::BPrime]),
{
    let ghost c = rc@;
    rc.single_r_prime();
    rc.single_u_prime();
    rc.single_f_prime();
    rc.single_d_prime();
    rc.single_l_prime();
    rc.single_b_prime();
    proof {
        lemma_apply_moves_push(c, seq![], Move::RPrime);
        assert(seq![].push(Move::RPrime) =~= seq![Move::RPrime]);
        lemma_apply_moves_push(c, seq![Move::RPrime], Move::UPrime);
        assert(seq![Move::RPrime].push(Move::UPrime) =~= seq![Move::RPrime, Move::UPrime]);
        lemma_apply_moves_push(c, seq![Move::RPrime, Move::UPrime], Move::FPrime);
        assert(seq![Move::RPrime, Move::UPrime].push(Move::FPrime) =~= seq![Move::RPrime, Move::UPrime, Move::FPrime]);
        lemma_apply_moves_push(c, seq![Move::RPrime, Move::UPrime, Move::FPrime], Move::DPrime);
        assert(seq![Move::RPrime, Move::UPrime, Move::FPrime].push(Move::DPrime) =~= seq![Move::RPrime, Move::UPrime, Move::FPrime, Move::DPrime]);
        lemma_apply_moves_push(c, seq![Move::RPrime, Move::UPrime, Move::FPrime, Move::DPrime], Move::LPrime);
        assert(seq![Move::RPrime, Move::UPrime, Move::FPrime, Move::DPrime].push(Move::LPrime) =~= seq![Move::RPrime, Move::UPrime, Move::FPrime, Move::DPrime, Move::LPrime]);
        lemma_apply_moves_push(c, seq![Move::RPrime, Move::UPrime, Move::FPrime, Move::DPrime, Move::LPrime], Move::BPrime);
        assert(seq![Move::RPrime, Move::UPrime, Move::FPrime, Move::DPrime, Move::LPrime].push(Move::BPrime) =~= seq![Move::RPrime, Move::UPrime, Move::FPrime, Move::DPrime, Move::LPrime, Move::BPrime]);
    }
}

/// R then U.
pub fn r_u(rc: &mut RubiksCube3x3)
    requires
        old(rc).inv(),
    ensures
        final(rc).inv(),
        final(rc)@ == apply_moves(old(rc)@, seq![Move::R, Move::U]),
{
    let ghost c = rc@;
    rc.single_r();
    rc.single_u();
    proof {
        lemma_apply_moves_push(c, seq![], Move::R);
        assert(seq![].push(Move::R) =~= seq![Move::R]);
        lemma_apply_moves_push(c, seq![Move::R], Move::U);
        assert(seq![Move::R].push(Move::U) =~= seq![Move::R, Move::U]);
    }
}

/// Every face clockwise, then every face counter-clockwise.
pub fn one_of_everything_really(rc: &mut RubiksCube3x3)
    requires
        old(rc).inv(),
    ensures
        final(rc).inv(),
        final(rc)@ == apply_moves(old(rc)@, seq![Move::R, Move::U, Move::F, Move::D, Move::L, Move::B, Move::RPrime, Move::UPrime, Move::FPrime, Move::DPrime, Move::LPrime, Move::BPrime]),
{
    let ghost c = rc@;
    one_of_everything(rc);
    one_of_everything_prime(rc);
    proof {
        lemma_apply_moves_concat(c, seq![Move::R, Move::U, Move::F, Move::D, Move::L, Move::B], seq![Move::RPrime, Move::UPrime, Move::FPrime, Move::DPrime, Move::LPrime, Move::BPrime]);
        assert(seq![Move::R, Move::U, Move::F, Move::D, Move::L, Move::B] + seq![Move::RPrime, Move::UPrime, Move::FPrime, Move::DPrime, Move::LPrime, Move::BPrime] =~= seq![Move::R, Move::U, Move::F, Move::D, Move::L, Move::B, Move::RPrime, Move::UPrime, Move::FPrime, Move::DPrime, Move::LPrime, Move::BPrime]);
    }
}

/// R, U, R', U'.
pub fn basic_move(rc: &mut RubiksCube3x3)
    requires
        old(rc).inv(),
    ensures
        final(rc).inv(),
        final(rc)@ == apply_moves(old(rc)@, seq![Move::R, Move::U, Move::RPrime, Move::UPrime]),
{
    let ghost c = rc@;
    rc.single_r();
    rc.single_u();
    rc.single_r_prime();
    rc.single_u_prime();
    proof {
        lemma_apply_moves_push(c, seq![], Move::R);
        assert(seq![].push(Move::R) =~= seq![Move::R]);
        lemma_apply_moves_push(c, seq![Move::R], Move::U);
        assert(seq![Move::R].push(Move::U) =~= seq![Move::R, Move::U]);
        lemma_apply_moves_push(c, seq![Move::R, Move::U], Move::RPrime);
        assert(seq![Move::R, Move::U].push(Move::RPrime) =~= seq![Move::R, Move::U, Move::RPrime]);
        lemma_apply_moves_push(c, seq![Move::R, Move::U, Move::RPrime], Move::UPrime);
        assert(seq![Move::R, Move::U, Move::RPrime].push(Move::UPrime) =~= seq![Move::R, Move::U, Move::RPrime, Move::UPrime]);
    }
}

} // verus!
