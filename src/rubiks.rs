//! The 3x3x3 puzzle: its 27 labelled cells, the solved arrangement and the quarter turns.
use vstd::prelude::*;
use crate::transforms::{
    Axis, grid2, grid3, is_cube, is_square, plane_of, with_plane, rotated_cw, rotated_ccw,
    get_x_y_plane, set_x_y_plane, get_y_z_plane, set_y_z_plane, get_x_z_plane, set_x_z_plane,
    rotate90, rotate_minus90, lemma_plane_is_square, lemma_rotated_cw_entries,
    lemma_rotated_ccw_entries, lemma_get_after_set, lemma_set_twice, lemma_set_of_get,
    lemma_rotations_restore,
};

verus! {

/// The label of one cell, named by the colours of the faces it touches in the solved state
/// (`C` is the hidden core).
#[derive(PartialEq, Eq, Structural, Clone, Copy, Debug)]
pub enum RubiksCell {
    RYB, RY, RYG, RB, R, RG, RBW, RW, RGW,
    YB, Y, YG, B, C, G, BW, W, GW,
    YBO, YO, YGO, BO, O, GO, BWO, WO, GWO,
}

/// The solved arrangement: each label at its home position (layer, row, column).
pub open spec fn solved_grid() -> Seq<Seq<Seq<RubiksCell>>> {
    seq![
        seq![
            seq![RubiksCell::RYB, RubiksCell::RY, RubiksCell::RYG],
            seq![RubiksCell::RB, RubiksCell::R, RubiksCell::RG],
            seq![RubiksCell::RBW, RubiksCell::RW, RubiksCell::RGW],
        ],
        seq![
            seq![RubiksCell::YB, RubiksCell::Y, RubiksCell::YG],
            seq![RubiksCell::B, RubiksCell::C, RubiksCell::G],
            seq![RubiksCell::BW, RubiksCell::W, RubiksCell::GW],
        ],
        seq![
            seq![RubiksCell::YBO, RubiksCell::YO, RubiksCell::YGO],
            seq![RubiksCell::BO, RubiksCell::O, RubiksCell::GO],
            seq![RubiksCell::BWO, RubiksCell::WO, RubiksCell::GWO],
        ],
    ]
}

/// The mathematical value of a grid held as nested arrays.
pub open spec fn array_grid(a: [[[RubiksCell; 3]; 3]; 3]) -> Seq<Seq<Seq<RubiksCell>>> {
    a@.map_values(|s: [[RubiksCell; 3]; 3]| s@.map_values(|r: [RubiksCell; 3]| r@))
}

/// The grid after a quarter turn of the slice of `ax` at index `l`, clockwise or not.
pub open spec fn turned<T>(c: Seq<Seq<Seq<T>>>, ax: Axis, l: int, clockwise: bool) -> Seq<
    Seq<Seq<T>>,
> {
    with_plane(c, ax, quarter(plane_of(c, ax, l), clockwise), l)
}

/// The primitive quarter turns: a face or middle slice, clockwise, or counter-clockwise
/// (`Prime`). `M`, `E` and `S` are the middle slices of the left-right, top-bottom and
/// front-back axes.
#[derive(PartialEq, Eq, Structural, Clone, Copy, Debug)]
pub enum Move {
    R, U, F, D, L, B, M, E, S,
    RPrime, UPrime, FPrime, DPrime, LPrime, BPrime, MPrime, EPrime, SPrime,
}

/// The grid after the move `m`.
pub open spec fn apply_move<T>(c: Seq<Seq<Seq<T>>>, m: Move) -> Seq<Seq<Seq<T>>> {
    match m {
        Move::R => turned(c, Axis::YZ, 2, true),
        Move::U => turned(c, Axis::XZ, 0, true),
        Move::F => turned(c, Axis::XY, 0, true),
        Move::D => turned(c, Axis::XZ, 2, true),
        Move::L => turned(c, Axis::YZ, 0, true),
        Move::B => turned(c, Axis::XY, 2, true),
        Move::M => turned(c, Axis::YZ, 1, true),
        Move::E => turned(c, Axis::XZ, 1, true),
        Move::S => turned(c, Axis::XY, 1, true),
        Move::RPrime => turned(c, Axis::YZ, 2, false),
        Move::UPrime => turned(c, Axis::XZ, 0, false),
        Move::FPrime => turned(c, Axis::XY, 0, false),
        Move::DPrime => turned(c, Axis::XZ, 2, false),
        Move::LPrime => turned(c, Axis::YZ, 0, false),
        Move::BPrime => turned(c, Axis::XY, 2, false),
        Move::MPrime => turned(c, Axis::YZ, 1, false),
        Move::EPrime => turned(c, Axis::XZ, 1, false),
        Move::SPrime => turned(c, Axis::XY, 1, false),
    }
}

/// The grid after the moves of `ms`, first to last.
pub open spec fn apply_moves<T>(c: Seq<Seq<Seq<T>>>, ms: Seq<Move>) -> Seq<Seq<Seq<T>>>
    decreases ms.len(),
{
    if ms.len() == 0 {
        c
    } else {
        apply_move(apply_moves(c, ms.drop_last()), ms.last())
    }
}

/// The grid after the whole sequence `ms` has been carried out `k` times.
pub open spec fn repeated<T>(c: Seq<Seq<Seq<T>>>, ms: Seq<Move>, k: nat) -> Seq<Seq<Seq<T>>>
    decreases k,
{
    if k == 0 {
        c
    } else {
        apply_moves(repeated(c, ms, (k - 1) as nat), ms)
    }
}

/// Appending a move to a sequence applies it after the others.
pub proof fn lemma_apply_moves_push<T>(c: Seq<Seq<Seq<T>>>, ms: Seq<Move>, m: Move)
    ensures
        apply_moves(c, ms.push(m)) == apply_move(apply_moves(c, ms), m),
{
    assert(ms.push(m).drop_last() =~= ms);
}

/// Carrying out `a + b` is carrying out `a`, then `b`.
pub proof fn lemma_apply_moves_concat<T>(c: Seq<Seq<Seq<T>>>, a: Seq<Move>, b: Seq<Move>)
    ensures
        apply_moves(c, a + b) == apply_moves(apply_moves(c, a), b),
    decreases b.len(),
{
    if b.len() == 0 {
        assert(a + b =~= a);
    } else {
        lemma_apply_moves_concat(c, a, b.drop_last());
        assert((a + b).drop_last() =~= a + b.drop_last());
        assert((a + b).last() == b.last());
    }
}

/// A quarter turn of a square matrix, clockwise or not.
pub open spec fn quarter<T>(p: Seq<Seq<T>>, clockwise: bool) -> Seq<Seq<T>> {
    if clockwise {
        rotated_cw(p)
    } else {
        rotated_ccw(p)
    }
}

proof fn lemma_quarter_square(p: Seq<Seq<RubiksCell>>, clockwise: bool)
    requires
        is_square(p),
    ensures
        is_square(quarter(p, clockwise)),
        quarter(p, clockwise).len() == p.len(),
{
    lemma_rotated_cw_entries(p);
    lemma_rotated_ccw_entries(p);
}

/// Turning a slice that was just overwritten by `q` is the same as writing the turned `q`.
proof fn lemma_turn_after_set(
    c: Seq<Seq<Seq<RubiksCell>>>,
    ax: Axis,
    l: int,
    q: Seq<Seq<RubiksCell>>,
    clockwise: bool,
)
    requires
        is_cube(c),
        0 <= l < c.len(),
        q.len() == c.len(),
        is_square(q),
    ensures
        is_cube(with_plane(c, ax, q, l)),
        turned(with_plane(c, ax, q, l), ax, l, clockwise) == with_plane(c, ax, quarter(q, clockwise), l),
{
    lemma_get_after_set(c, ax, q, l);
    lemma_quarter_square(q, clockwise);
    lemma_set_twice(c, ax, q, quarter(q, clockwise), l);
}

/// Four equal quarter turns of one slice, or a turn and the opposite turn, restore the grid.
proof fn lemma_turn_order_four(c: Seq<Seq<Seq<RubiksCell>>>, ax: Axis, l: int, clockwise: bool)
    requires
        is_cube(c),
        0 <= l < c.len(),
    ensures
        turned(turned(turned(turned(c, ax, l, clockwise), ax, l, clockwise), ax, l, clockwise), ax, l, clockwise) == c,
        turned(turned(c, ax, l, clockwise), ax, l, !clockwise) == c,
{
    let p = plane_of(c, ax, l);
    lemma_plane_is_square(c, ax, l);
    lemma_rotations_restore(p);
    let q1 = quarter(p, clockwise);
    lemma_quarter_square(p, clockwise);
    let q2 = quarter(q1, clockwise);
    lemma_quarter_square(q1, clockwise);
    let q3 = quarter(q2, clockwise);
    lemma_quarter_square(q2, clockwise);
    let c1 = turned(c, ax, l, clockwise);
    assert(c1 == with_plane(c, ax, q1, l));
    lemma_turn_after_set(c, ax, l, q1, clockwise);
    lemma_turn_after_set(c, ax, l, q2, clockwise);
    lemma_turn_after_set(c, ax, l, q3, clockwise);
    assert(quarter(q3, clockwise) == p);
    lemma_set_of_get(c, ax, l);
    lemma_turn_after_set(c, ax, l, q1, !clockwise);
    assert(quarter(q1, !clockwise) == p);
}

/// A quarter turn moves the corner label at entry (0, 0) of its slice, so the solved
/// arrangement is left.
proof fn lemma_single_turn_unsolves(ax: Axis, l: int, clockwise: bool)
    requires
        0 <= l < 3,
    ensures
        turned(solved_grid(), ax, l, clockwise) != solved_grid(),
{
    let g = solved_grid();
    let p = plane_of(g, ax, l);
    let t = turned(g, ax, l, clockwise);
    lemma_rotated_cw_entries(p);
    lemma_rotated_ccw_entries(p);
    let (a, b, d) = match ax {
        Axis::XY => (l, 0int, 0int),
        Axis::YZ => (0int, 0int, l),
        Axis::XZ => (0int, l, 0int),
    };
    if l == 0 {
        assert(t[a][b][d] != g[a][b][d]);
    } else if l == 1 {
        assert(t[a][b][d] != g[a][b][d]);
    } else {
        assert(t[a][b][d] != g[a][b][d]);
    }
}

/// The move that undoes `m`: the same slice turned the other way.
pub open spec fn inverse_move(m: Move) -> Move {
    match m {
        Move::R => Move::RPrime,
        Move::RPrime => Move::R,
        Move::U => Move::UPrime,
        Move::UPrime => Move::U,
        Move::F => Move::FPrime,
        Move::FPrime => Move::F,
        Move::D => Move::DPrime,
        Move::DPrime => Move::D,
        Move::L => Move::LPrime,
        Move::LPrime => Move::L,
        Move::B => Move::BPrime,
        Move::BPrime => Move::B,
        Move::M => Move::MPrime,
        Move::MPrime => Move::M,
        Move::E => Move::EPrime,
        Move::EPrime => Move::E,
        Move::S => Move::SPrime,
        Move::SPrime => Move::S,
    }
}

/// No label stands at two positions of the grid.
pub open spec fn all_distinct<T>(c: Seq<Seq<Seq<T>>>) -> bool {
    forall|a1: int, b1: int, d1: int, a2: int, b2: int, d2: int|
        0 <= a1 < c.len() && 0 <= b1 < c.len() && 0 <= d1 < c.len() && 0 <= a2 < c.len() && 0
            <= b2 < c.len() && 0 <= d2 < c.len() && #[trigger] c[a1][b1][d1] == #[trigger] c[a2][b2][d2]
            ==> a1 == a2 && b1 == b2 && d1 == d2
}

/// A quarter turn of a slice moves labels without copying any: distinct labels stay distinct.
pub proof fn lemma_turn_keeps_distinct(c: Seq<Seq<Seq<RubiksCell>>>, ax: Axis, l: int, clockwise: bool)
    requires
        is_cube(c),
        0 <= l < c.len(),
        all_distinct(c),
    ensures
        all_distinct(turned(c, ax, l, clockwise)),
{
    let n = c.len() as int;
    let p = plane_of(c, ax, l);
    let t = turned(c, ax, l, clockwise);
    lemma_plane_is_square(c, ax, l);
    lemma_rotated_cw_entries(p);
    lemma_rotated_ccw_entries(p);
    assert forall|a1: int, b1: int, d1: int, a2: int, b2: int, d2: int|
        0 <= a1 < n && 0 <= b1 < n && 0 <= d1 < n && 0 <= a2 < n && 0 <= b2 < n && 0 <= d2 < n
            && #[trigger] t[a1][b1][d1] == #[trigger] t[a2][b2][d2] implies a1 == a2 && b1 == b2
        && d1 == d2 by {
        assert(c[a1][b1][d1] == c[a1][b1][d1]);
    }
}

/// The position of a label in the solved arrangement, counted layer by layer, row by row.
pub open spec fn home_index(x: RubiksCell) -> int {
    match x {
        RubiksCell::RYB => 0,
        RubiksCell::RY => 1,
        RubiksCell::RYG => 2,
        RubiksCell::RB => 3,
        RubiksCell::R => 4,
        RubiksCell::RG => 5,
        RubiksCell::RBW => 6,
        RubiksCell::RW => 7,
        RubiksCell::RGW => 8,
        RubiksCell::YB => 9,
        RubiksCell::Y => 10,
        RubiksCell::YG => 11,
        RubiksCell::B => 12,
        RubiksCell::C => 13,
        RubiksCell::G => 14,
        RubiksCell::BW => 15,
        RubiksCell::W => 16,
        RubiksCell::GW => 17,
        RubiksCell::YBO => 18,
        RubiksCell::YO => 19,
        RubiksCell::YGO => 20,
        RubiksCell::BO => 21,
        RubiksCell::O => 22,
        RubiksCell::GO => 23,
        RubiksCell::BWO => 24,
        RubiksCell::WO => 25,
        RubiksCell::GWO => 26,
    }
}

/// In the solved arrangement every label stands at its own home, so no two positions share one.
pub proof fn lemma_solved_distinct()
    ensures
        all_distinct(solved_grid()),
{
    let g = solved_grid();
    assert forall|a: int, b: int, d: int| 0 <= a < 3 && 0 <= b < 3 && 0 <= d < 3 implies home_index(
        #[trigger] g[a][b][d],
    ) == 9 * a + 3 * b + d by {
        if a == 0 {
            assert(g[0][b][d] == g[a][b][d]);
        } else if a == 1 {
            assert(g[1][b][d] == g[a][b][d]);
        } else {
            assert(g[2][b][d] == g[a][b][d]);
        }
    }
}

/// The slice, index and direction that the move `m` turns.
proof fn lemma_move_is_turn(m: Move) -> (r: (Axis, int, bool))
    ensures
        0 <= r.1 < 3,
        forall|c: Seq<Seq<Seq<RubiksCell>>>| #[trigger] apply_move(c, m) == turned(c, r.0, r.1, r.2),
        forall|c: Seq<Seq<Seq<RubiksCell>>>|
            #[trigger] apply_move(c, inverse_move(m)) == turned(c, r.0, r.1, !r.2),
{
    match m {
        Move::R | Move::RPrime => (Axis::YZ, 2, m == Move::R),
        Move::U | Move::UPrime => (Axis::XZ, 0, m == Move::U),
        Move::F | Move::FPrime => (Axis::XY, 0, m == Move::F),
        Move::D | Move::DPrime => (Axis::XZ, 2, m == Move::D),
        Move::L | Move::LPrime => (Axis::YZ, 0, m == Move::L),
        Move::B | Move::BPrime => (Axis::XY, 2, m == Move::B),
        Move::M | Move::MPrime => (Axis::YZ, 1, m == Move::M),
        Move::E | Move::EPrime => (Axis::XZ, 1, m == Move::E),
        Move::S | Move::SPrime => (Axis::XY, 1, m == Move::S),
    }
}

/// Each of the primitive moves gives any 3x3x3 grid back after four repetitions, and is undone
/// by its inverse, cell for cell.
pub proof fn lemma_move_order_four(c: Seq<Seq<Seq<RubiksCell>>>, m: Move)
    requires
        c.len() == 3,
        is_cube(c),
    ensures
        apply_move(apply_move(apply_move(apply_move(c, m), m), m), m) == c,
        apply_move(apply_move(c, m), inverse_move(m)) == c,
{
    let (ax, l, cw) = lemma_move_is_turn(m);
    lemma_turn_order_four(c, ax, l, cw);
}

/// Each of the primitive moves, carried out once on the solved arrangement, leaves it unsolved.
pub proof fn lemma_move_unsolves(m: Move)
    ensures
        apply_move(solved_grid(), m) != solved_grid(),
{
    let (ax, l, cw) = lemma_move_is_turn(m);
    lemma_single_turn_unsolves(ax, l, cw);
}

impl RubiksCell {
    /// The solved arrangement as a fixed-size array.
    pub fn collect() -> (r: [[[RubiksCell; 3]; 3]; 3])
        ensures
            array_grid(r) == solved_grid(),
    {
        let r = [
        [
            [RubiksCell::RYB, RubiksCell::RY, RubiksCell::RYG],
            [RubiksCell::RB, RubiksCell::R, RubiksCell::RG],
            [RubiksCell::RBW, RubiksCell::RW, RubiksCell::RGW],
        ],
        [
            [RubiksCell::YB, RubiksCell::Y, RubiksCell::YG],
            [RubiksCell::B, RubiksCell::C, RubiksCell::G],
            [RubiksCell::BW, RubiksCell::W, RubiksCell::GW],
        ],
        [
            [RubiksCell::YBO, RubiksCell::YO, RubiksCell::YGO],
            [RubiksCell::BO, RubiksCell::O, RubiksCell::GO],
            [RubiksCell::BWO, RubiksCell::WO, RubiksCell::GWO],
        ],
    ];
        assert(array_grid(r) =~~= solved_grid());
        r
    }
}

/// A 3x3x3 puzzle: one cell label at each (layer, row, column).
pub struct RubiksCube3x3 {
    cube: Vec<Vec<Vec<RubiksCell>>>,
}

impl View for RubiksCube3x3 {
    type V = Seq<Seq<Seq<RubiksCell>>>;

    closed spec fn view(&self) -> Seq<Seq<Seq<RubiksCell>>> {
        grid3(&self.cube)
    }
}

impl RubiksCube3x3 {
    /// The grid is 3 by 3 by 3 and no label stands at two positions, so each of the 27 labels
    /// stands at exactly one.
    pub open spec fn inv(&self) -> bool {
        &&& self@.len() == 3
        &&& is_cube(self@)
        &&& all_distinct(self@)
    }

    /// A puzzle in the solved arrangement.
    pub fn new() -> (r: Self)
        ensures
            r.inv(),
            r@ == solved_grid(),
    {
        let home = RubiksCell::collect();
        let mut cube: Vec<Vec<Vec<RubiksCell>>> = Vec::new();
        let mut a: usize = 0;
        while a < 3
            invariant
                array_grid(home) == solved_grid(),
                a <= 3,
                cube.len() == a,
                forall|k: int| 0 <= k < a ==> #[trigger] grid2(&cube@[k]) == solved_grid()[k],
            decreases 3 - a,
        {
            let mut layer: Vec<Vec<RubiksCell>> = Vec::new();
            let mut b: usize = 0;
            while b < 3
                invariant
                    array_grid(home) == solved_grid(),
                    a < 3,
                    b <= 3,
                    layer.len() == b,
                    forall|k: int| 0 <= k < b ==> #[trigger] layer@[k]@ == solved_grid()[a as int][k],
                decreases 3 - b,
            {
                let mut row: Vec<RubiksCell> = Vec::new();
                let mut d: usize = 0;
                while d < 3
                    invariant
                        array_grid(home) == solved_grid(),
                        a < 3,
                        b < 3,
                        d <= 3,
                        row.len() == d,
                        forall|k: int| 0 <= k < d ==> #[trigger] row@[k] == solved_grid()[a as int][b as int][k],
                    decreases 3 - d,
                {
                    assert(array_grid(home)[a as int][b as int][d as int] == home[a as int][b as int][d as int]);
                    row.push(home[a][b][d]);
                    d += 1;
                }
                assert(row@ =~= solved_grid()[a as int][b as int]);
                layer.push(row);
                b += 1;
            }
            assert(grid2(&layer) =~= solved_grid()[a as int]);
            cube.push(layer);
            a += 1;
        }
        assert(grid3(&cube) =~= solved_grid());
        proof {
            lemma_solved_distinct();
        }
        RubiksCube3x3 { cube }
    }

    /// Carries out the move `m`.
    pub fn apply(&mut self, m: Move)
        requires
            old(self).inv(),
        ensures
            final(self).inv(),
            final(self)@ == apply_move(old(self)@, m),
    {
        match m {
            Move::R => self.single_r(),
            Move::U => self.single_u(),
            Move::F => self.single_f(),
            Move::D => self.single_d(),
            Move::L => self.single_l(),
            Move::B => self.single_b(),
            Move::M => self.single_m(),
            Move::E => self.single_e(),
            Move::S => self.single_s(),
            Move::RPrime => self.single_r_prime(),
            Move::UPrime => self.single_u_prime(),
            Move::FPrime => self.single_f_prime(),
            Move::DPrime => self.single_d_prime(),
            Move::LPrime => self.single_l_prime(),
            Move::BPrime => self.single_b_prime(),
            Move::MPrime => self.single_m_prime(),
            Move::EPrime => self.single_e_prime(),
            Move::SPrime => self.single_s_prime(),
        }
    }

    /// Carries out the moves of `ms`, first to last.
    pub fn apply_all(&mut self, ms: &Vec<Move>)
        requires
            old(self).inv(),
        ensures
            final(self).inv(),
            final(self)@ == apply_moves(old(self)@, ms@),
    {
        let ghost start = self@;
        let mut i: usize = 0;
        while i < ms.len()
            invariant
                self.inv(),
                i <= ms.len(),
                self@ == apply_moves(start, ms@.subrange(0, i as int)),
            decreases ms.len() - i,
        {
            assert(ms@.subrange(0, i as int + 1).drop_last() =~= ms@.subrange(0, i as int));
            self.apply(ms[i]);
            i += 1;
        }
        assert(ms@.subrange(0, ms.len() as int) =~= ms@);
    }

    fn turn_plane(&mut self, ax: Axis, idx: usize, clockwise: bool)
        requires
            old(self).inv(),
            idx < 3,
        ensures
            final(self).inv(),
            final(self)@ == turned(old(self)@, ax, idx as int, clockwise),
    {
        let ghost c = self@;
        let mut plane = match ax {
            Axis::XY => get_x_y_plane(&mut self.cube, idx),
            Axis::YZ => get_y_z_plane(&mut self.cube, idx),
            Axis::XZ => get_x_z_plane(&mut self.cube, idx),
        };
        let ghost p = plane_of(c, ax, idx as int);
        proof {
            lemma_plane_is_square(c, ax, idx as int);
        }
        if clockwise {
            rotate90(&mut plane);
            proof {
                lemma_rotated_cw_entries(p);
            }
        } else {
            rotate_minus90(&mut plane);
            proof {
                lemma_rotated_ccw_entries(p);
            }
        }
        match ax {
            Axis::XY => set_x_y_plane(&mut self.cube, &plane, idx),
            Axis::YZ => set_y_z_plane(&mut self.cube, &plane, idx),
            Axis::XZ => set_x_z_plane(&mut self.cube, &plane, idx),
        }
        proof {
            lemma_get_after_set(c, ax, grid2(&plane), idx as int);
            lemma_turn_keeps_distinct(c, ax, idx as int, clockwise);
        }
    }

    /// Turns the top slice a quarter clockwise.
    pub fn single_u(&mut self)
        requires
            old(self).inv(),
        ensures
            final(self).inv(),
            final(self)@ == turned(old(self)@, Axis::XZ, 0, true),
    {
        self.turn_plane(Axis::XZ, 0, true);
    }

    /// Turns the right slice a quarter clockwise.
    pub fn single_r(&mut self)
        requires
            old(self).inv(),
        ensures
            final(self).inv(),
            final(self)@ == turned(old(self)@, Axis::YZ, 2, true),
    {
        self.turn_plane(Axis::YZ, 2, true);
    }

    /// Turns the front slice a quarter clockwise.
    pub fn single_f(&mut self)
        requires
            old(self).inv(),
        ensures
            final(self).inv(),
            final(self)@ == turned(old(self)@, Axis::XY, 0, true),
    {
        self.turn_plane(Axis::XY, 0, true);
    }

    /// Turns the bottom slice a quarter clockwise.
    pub fn single_d(&mut self)
        requires
            old(self).inv(),
        ensures
            final(self).inv(),
            final(self)@ == turned(old(self)@, Axis::XZ, 2, true),
    {
        self.turn_plane(Axis::XZ, 2, true);
    }

    /// Turns the left slice a quarter clockwise.
    pub fn single_l(&mut self)
        requires
            old(self).inv(),
        ensures
            final(self).inv(),
            final(self)@ == turned(old(self)@, Axis::YZ, 0, true),
    {
        self.turn_plane(Axis::YZ, 0, true);
    }

    /// Turns the back slice a quarter clockwise.
    pub fn single_b(&mut self)
        requires
            old(self).inv(),
        ensures
            final(self).inv(),
            final(self)@ == turned(old(self)@, Axis::XY, 2, true),
    {
        self.turn_plane(Axis::XY, 2, true);
    }

    /// Turns the middle (between left and right) slice a quarter clockwise.
    pub fn single_m(&mut self)
        requires
            old(self).inv(),
        ensures
            final(self).inv(),
            final(self)@ == turned(old(self)@, Axis::YZ, 1, true),
    {
        self.turn_plane(Axis::YZ, 1, true);
    }

    /// Turns the equator (between top and bottom) slice a quarter clockwise.
    pub fn single_e(&mut self)
        requires
            old(self).inv(),
        ensures
            final(self).inv(),
            final(self)@ == turned(old(self)@, Axis::XZ, 1, true),
    {
        self.turn_plane(Axis::XZ, 1, true);
    }

    /// Turns the standing (between front and back) slice a quarter clockwise.
    pub fn single_s(&mut self)
        requires
            old(self).inv(),
        ensures
            final(self).inv(),
            final(self)@ == turned(old(self)@, Axis::XY, 1, true),
    {
        self.turn_plane(Axis::XY, 1, true);
    }

    /// Turns the top slice a quarter counter-clockwise.
    pub fn single_u_prime(&mut self)
        requires
            old(self).inv(),
        ensures
            final(self).inv(),
            final(self)@ == turned(old(self)@, Axis::XZ, 0, false),
    {
        self.turn_plane(Axis::XZ, 0, false);
    }

    /// Turns the right slice a quarter counter-clockwise.
    pub fn single_r_prime(&mut self)
        requires
            old(self).inv(),
        ensures
            final(self).inv(),
            final(self)@ == turned(old(self)@, Axis::YZ, 2, false),
    {
        self.turn_plane(Axis::YZ, 2, false);
    }

    /// Turns the front slice a quarter counter-clockwise.
    pub fn single_f_prime(&mut self)
        requires
            old(self).inv(),
        ensures
            final(self).inv(),
            final(self)@ == turned(old(self)@, Axis::XY, 0, false),
    {
        self.turn_plane(Axis::XY, 0, false);
    }

    /// Turns the bottom slice a quarter counter-clockwise.
    pub fn single_d_prime(&mut self)
        requires
            old(self).inv(),
        ensures
            final(self).inv(),
            final(self)@ == turned(old(self)@, Axis::XZ, 2, false),
    {
        self.turn_plane(Axis::XZ, 2, false);
    }

    /// Turns the left slice a quarter counter-clockwise.
    pub fn single_l_prime(&mut self)
        requires
            old(self).inv(),
        ensures
            final(self).inv(),
            final(self)@ == turned(old(self)@, Axis::YZ, 0, false),
    {
        self.turn_plane(Axis::YZ, 0, false);
    }

    /// Turns the back slice a quarter counter-clockwise.
    pub fn single_b_prime(&mut self)
        requires
            old(self).inv(),
        ensures
            final(self).inv(),
            final(self)@ == turned(old(self)@, Axis::XY, 2, false),
    {
        self.turn_plane(Axis::XY, 2, false);
    }

    /// Turns the middle (between left and right) slice a quarter counter-clockwise.
    pub fn single_m_prime(&mut self)
        requires
            old(self).inv(),
        ensures
            final(self).inv(),
            final(self)@ == turned(old(self)@, Axis::YZ, 1, false),
    {
        self.turn_plane(Axis::YZ, 1, false);
    }

    /// Turns the equator (between top and bottom) slice a quarter counter-clockwise.
    pub fn single_e_prime(&mut self)
        requires
            old(self).inv(),
        ensures
            final(self).inv(),
            final(self)@ == turned(old(self)@, Axis::XZ, 1, false),
    {
        self.turn_plane(Axis::XZ, 1, false);
    }

    /// Turns the standing (between front and back) slice a quarter counter-clockwise.
    pub fn single_s_prime(&mut self)
        requires
            old(self).inv(),
        ensures
            final(self).inv(),
            final(self)@ == turned(old(self)@, Axis::XY, 1, false),
    {
        self.turn_plane(Axis::XY, 1, false);
    }
}

/// What any puzzle model offers: the solved test and read access to its cells.
pub trait RubiksCube: View<V = Seq<Seq<Seq<RubiksCell>>>> {
    /// Whether every cell holds its home label.
    fn solved(&self) -> (r: bool)
        ensures
            r == (self@ == solved_grid()),
    ;

    /// The cells, indexed by (layer, row, column).
    fn get_cube(&self) -> (r: &Vec<Vec<Vec<RubiksCell>>>)
        ensures
            grid3(r) == self@,
    ;
}

impl RubiksCube for RubiksCube3x3 {
    fn solved(&self) -> (r: bool) {
        let home = RubiksCell::collect();
        let ghost g = solved_grid();
        if self.cube.len() != 3 {
            assert(self@.len() != g.len());
            return false;
        }
        let mut a: usize = 0;
        while a < 3
            invariant
                array_grid(home) == g,
                g == solved_grid(),
                self.cube.len() == 3,
                a <= 3,
                forall|k: int| 0 <= k < a ==> #[trigger] self@[k] == g[k],
            decreases 3 - a,
        {
            assert(self@[a as int] == grid2(&self.cube@[a as int]));
            if self.cube[a].len() != 3 {
                assert(self@[a as int].len() != g[a as int].len());
                return false;
            }
            let mut b: usize = 0;
            while b < 3
                invariant
                    array_grid(home) == g,
                    g == solved_grid(),
                    self.cube.len() == 3,
                    a < 3,
                    b <= 3,
                    self@[a as int] == grid2(&self.cube@[a as int]),
                    self.cube@[a as int].len() == 3,
                    forall|k: int| 0 <= k < a ==> #[trigger] self@[k] == g[k],
                    forall|k: int| 0 <= k < b ==> #[trigger] self@[a as int][k] == g[a as int][k],
                decreases 3 - b,
            {
                assert(self@[a as int][b as int] == self.cube@[a as int]@[b as int]@);
                if self.cube[a][b].len() != 3 {
                    assert(self@[a as int][b as int].len() != g[a as int][b as int].len());
                    return false;
                }
                let mut d: usize = 0;
                while d < 3
                    invariant
                        array_grid(home) == g,
                        g == solved_grid(),
                        self.cube.len() == 3,
                        a < 3,
                        b < 3,
                        d <= 3,
                        self@[a as int] == grid2(&self.cube@[a as int]),
                        self.cube@[a as int].len() == 3,
                        self@[a as int][b as int] == self.cube@[a as int]@[b as int]@,
                        self.cube@[a as int]@[b as int].len() == 3,
                        forall|k: int| 0 <= k < a ==> #[trigger] self@[k] == g[k],
                        forall|k: int| 0 <= k < b ==> #[trigger] self@[a as int][k] == g[a as int][k],
                        forall|k: int| 0 <= k < d ==> #[trigger] self@[a as int][b as int][k] == g[a as int][b as int][k],
                    decreases 3 - d,
                {
                    assert(array_grid(home)[a as int][b as int][d as int] == home[a as int][b as int][d as int]);
                    if self.cube[a][b][d] != home[a][b][d] {
                        assert(self@[a as int][b as int][d as int] != g[a as int][b as int][d as int]);
                        return false;
                    }
                    d += 1;
                }
                assert(self@[a as int][b as int] =~= g[a as int][b as int]);
                b += 1;
            }
            assert(self@[a as int] =~= g[a as int]);
            a += 1;
        }
        assert(self@ =~= g);
        true
    }

    fn get_cube(&self) -> (r: &Vec<Vec<Vec<RubiksCell>>>) {
        &self.cube
    }
}

} // verus!
