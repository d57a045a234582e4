//! Bounded-depth enumeration of move sequences, and the measurement of their order.
use vstd::prelude::*;
use crate::rubiks::{Move, RubiksCube, RubiksCube3x3, repeated, solved_grid};
use vstd::seq_lib::lemma_no_dup_in_concat;

verus! {

/// Carrying out `ms` `k` times from the solved arrangement gives it back.
pub open spec fn returns_after(ms: Seq<Move>, k: nat) -> bool {
    repeated(solved_grid(), ms, k) == solved_grid()
}

/// `r` is `Some` of the order of `ms` (the least k >= 1 after which the solved arrangement
/// comes back) when that order is at most `cap`, and `None` when it is greater.
pub open spec fn is_order_within(ms: Seq<Move>, cap: nat, r: Option<u32>) -> bool {
    match r {
        Some(k) => {
            &&& 1 <= k <= cap
            &&& returns_after(ms, k as nat)
            &&& forall|j: nat| 1 <= j < k ==> !#[trigger] returns_after(ms, j)
        },
        None => forall|j: nat| 1 <= j <= cap ==> !#[trigger] returns_after(ms, j),
    }
}

/// Carries out `ops` over and over on a fresh puzzle and counts the rounds until it is solved
/// again, giving up (`None`) after `max_reps` rounds.
pub fn run_ops_until_solved(ops: &Vec<Move>, max_reps: u32) -> (r: Option<u32>)
    ensures
        is_order_within(ops@, max_reps as nat, r),
{
    let mut rc = RubiksCube3x3::new();
    let mut count: u32 = 0;
    while count < max_reps
        invariant
            rc.inv(),
            count <= max_reps,
            rc@ == repeated(solved_grid(), ops@, count as nat),
            forall|j: nat| 1 <= j <= count ==> !#[trigger] returns_after(ops@, j),
        decreases max_reps - count,
    {
        rc.apply_all(ops);
        count += 1;
        if rc.solved() {
            return Some(count);
        }
    }
    None
}

/// Appending `m` to `prefix` would end it with three equal moves in a row.
pub open spec fn completes_triple(prefix: Seq<Move>, m: Move) -> bool {
    &&& prefix.len() >= 2
    &&& prefix[prefix.len() - 1] == m
    &&& prefix[prefix.len() - 2] == m
}

/// The sequences that extend `prefix` by `k` moves of `pool`, never completing a run of three
/// equal moves, in depth-first order with the pool's order at each step.
pub open spec fn extensions(pool: Seq<Move>, prefix: Seq<Move>, k: nat) -> Seq<Seq<Move>>
    decreases k, pool.len() + 1,
{
    if k == 0 {
        seq![prefix]
    } else {
        branches(pool, prefix, k, pool.len())
    }
}

/// The part of `extensions(pool, prefix, k)` whose next move is one of the first `i` of `pool`.
pub open spec fn branches(pool: Seq<Move>, prefix: Seq<Move>, k: nat, i: nat) -> Seq<Seq<Move>>
    decreases k, i,
{
    if k == 0 || i == 0 || i > pool.len() {
        Seq::empty()
    } else {
        branches(pool, prefix, k, (i - 1) as nat) + (if completes_triple(prefix, pool[i - 1]) {
            Seq::empty()
        } else {
            extensions(pool, prefix.push(pool[i - 1]), (k - 1) as nat)
        })
    }
}

/// One examined sequence: the search depth, its order within the repetition bound, and its moves.
pub struct SearchRecord {
    pub depth: u32,
    pub count: Option<u32>,
    pub moves: Vec<Move>,
}

/// `r` reports the sequence `ms` found at search depth `depth`, measured with bound `cap`.
pub open spec fn reports(r: SearchRecord, depth: u32, ms: Seq<Move>, cap: u32) -> bool {
    &&& r.depth == depth
    &&& r.moves@ == ms
    &&& is_order_within(ms, cap as nat, r.count)
}

fn copy_moves(v: &Vec<Move>) -> (r: Vec<Move>)
    ensures
        r@ == v@,
{
    let mut r: Vec<Move> = Vec::new();
    let mut i: usize = 0;
    while i < v.len()
        invariant
            i <= v.len(),
            r@ == v@.subrange(0, i as int),
        decreases v.len() - i,
    {
        r.push(v[i]);
        i += 1;
        assert(r@ =~= v@.subrange(0, i as int));
    }
    assert(r@ =~= v@);
    r
}

fn search_for_and_run_tests(
    start_depth: u32,
    depth: u32,
    operation_pool: &Vec<Move>,
    ops: &mut Vec<Move>,
    max_reps: u32,
    out: &mut Vec<SearchRecord>,
)
    requires
        start_depth <= depth,
    ensures
        final(ops)@ == old(ops)@,
        final(out)@.len() == old(out)@.len() + extensions(
            operation_pool@,
            old(ops)@,
            (depth - start_depth) as nat,
        ).len(),
        forall|j: int| 0 <= j < old(out)@.len() ==> #[trigger] final(out)@[j] == old(out)@[j],
        forall|j: int|
            0 <= j < extensions(operation_pool@, old(ops)@, (depth - start_depth) as nat).len()
                ==> reports(
                #[trigger] final(out)@[old(out)@.len() + j],
                depth,
                extensions(operation_pool@, old(ops)@, (depth - start_depth) as nat)[j],
                max_reps,
            ),
    decreases depth - start_depth,
{
    let ghost pool = operation_pool@;
    let ghost ops0 = ops@;
    let ghost out0 = out@;
    let ghost k = (depth - start_depth) as nat;
    if start_depth == depth {
        let count = run_ops_until_solved(ops, max_reps);
        let moves = copy_moves(ops);
        out.push(SearchRecord { depth, count, moves });
        assert(extensions(pool, ops0, k) == seq![ops0]);
        return ;
    }
    let mut i: usize = 0;
    while i < operation_pool.len()
        invariant
            pool == operation_pool@,
            start_depth < depth,
            k == depth - start_depth,
            i <= pool.len(),
            ops@ == ops0,
            out@.len() == out0.len() + branches(pool, ops0, k, i as nat).len(),
            forall|j: int| 0 <= j < out0.len() ==> #[trigger] out@[j] == out0[j],
            forall|j: int|
                0 <= j < branches(pool, ops0, k, i as nat).len() ==> reports(
                    #[trigger] out@[out0.len() + j],
                    depth,
                    branches(pool, ops0, k, i as nat)[j],
                    max_reps,
                ),
        decreases pool.len() - i,
    {
        let m = operation_pool[i];
        let n = ops.len();
        let blocked = n >= 2 && ops[n - 1] == m && ops[n - 2] == m;
        let ghost before = branches(pool, ops0, k, i as nat);
        let ghost out1 = out@;
        assert(branches(pool, ops0, k, (i + 1) as nat) == before + (if completes_triple(ops0, m) {
            Seq::<Seq<Move>>::empty()
        } else {
            extensions(pool, ops0.push(m), (k - 1) as nat)
        }));
        if !blocked {
            ops.push(m);
            search_for_and_run_tests(start_depth + 1, depth, operation_pool, ops, max_reps, out);
            ops.pop();
            assert(ops@ =~= ops0);
            let ghost ext = extensions(pool, ops0.push(m), (k - 1) as nat);
            assert forall|j: int|
                0 <= j < branches(pool, ops0, k, (i + 1) as nat).len() implies reports(
                #[trigger] out@[out0.len() + j],
                depth,
                branches(pool, ops0, k, (i + 1) as nat)[j],
                max_reps,
            ) by {
                if j < before.len() {
                    assert(out@[out0.len() + j] == out1[out0.len() + j]);
                } else {
                    assert(out@[out1.len() + (j - before.len())] == out@[out0.len() + j]);
                }
            }
        }
        i += 1;
    }
    assert(extensions(pool, ops0, k) == branches(pool, ops0, k, pool.len()));
}

/// Examines every sequence of `depth` moves drawn from `operation_pool` that has no three
/// equal moves in a row, in depth-first order, and reports each one's order within `max_reps`
/// repetitions.
pub fn generate_and_run_tests(depth: u32, operation_pool: &Vec<Move>, max_reps: u32) -> (r: Vec<
    SearchRecord,
>)
    ensures
        r@.len() == extensions(operation_pool@, Seq::empty(), depth as nat).len(),
        forall|j: int|
            0 <= j < r@.len() ==> reports(
                #[trigger] r@[j],
                depth,
                extensions(operation_pool@, Seq::empty(), depth as nat)[j],
                max_reps,
            ),
{
    let mut ops: Vec<Move> = Vec::new();
    let mut out: Vec<SearchRecord> = Vec::new();
    search_for_and_run_tests(0, depth, operation_pool, &mut ops, max_reps, &mut out);
    assert(ops@ =~= Seq::<Move>::empty());
    assert forall|j: int| 0 <= j < out@.len() implies reports(
        #[trigger] out@[j],
        depth,
        extensions(operation_pool@, Seq::empty(), depth as nat)[j],
        max_reps,
    ) by {
        assert(out@[0 + j] == out@[j]);
    }
    out
}

/// No three equal moves stand in a row.
pub open spec fn no_triple_run(s: Seq<Move>) -> bool {
    forall|i: int| 2 <= i < s.len() ==> !(#[trigger] s[i] == s[i - 1] && s[i - 1] == s[i - 2])
}

/// `s` has `d` moves, all of `pool`, with no three equal moves in a row.
pub open spec fn admissible(pool: Seq<Move>, s: Seq<Move>, d: nat) -> bool {
    &&& s.len() == d
    &&& forall|i: int| 0 <= i < s.len() ==> pool.contains(#[trigger] s[i])
    &&& no_triple_run(s)
}

/// `s` is `p` followed by `k` moves of `pool`, with no three equal moves in a row.
pub open spec fn extends_by(pool: Seq<Move>, p: Seq<Move>, k: nat, s: Seq<Move>) -> bool {
    &&& s.len() == p.len() + k
    &&& s.subrange(0, p.len() as int) == p
    &&& forall|i: int| p.len() <= i < s.len() ==> pool.contains(#[trigger] s[i])
    &&& no_triple_run(s)
}

proof fn lemma_push_keeps_no_triple_run(p: Seq<Move>, m: Move)
    requires
        no_triple_run(p),
        !completes_triple(p, m),
    ensures
        no_triple_run(p.push(m)),
{
    let q = p.push(m);
    assert forall|i: int| 2 <= i < q.len() implies !(#[trigger] q[i] == q[i - 1] && q[i - 1] == q[
        i - 2]) by {
        if i < p.len() {
            assert(q[i] == p[i] && q[i - 1] == p[i - 1] && q[i - 2] == p[i - 2]);
        }
    }
}

/// A sequence that extends `p.push(m)` by `k` moves extends `p` by `k + 1` moves and has `m`
/// right after `p`.
proof fn lemma_extends_push(pool: Seq<Move>, p: Seq<Move>, m: Move, k: nat, s: Seq<Move>)
    requires
        extends_by(pool, p.push(m), k, s),
        pool.contains(m),
    ensures
        extends_by(pool, p, k + 1, s),
        s[p.len() as int] == m,
{
    let q = p.push(m);
    assert(s.subrange(0, q.len() as int)[p.len() as int] == s[p.len() as int]);
    assert(s.subrange(0, p.len() as int) =~= q.subrange(0, p.len() as int));
    assert(q.subrange(0, p.len() as int) =~= p);
}

proof fn lemma_extensions_sound(pool: Seq<Move>, p: Seq<Move>, k: nat)
    requires
        no_triple_run(p),
    ensures
        forall|j: int|
            0 <= j < extensions(pool, p, k).len() ==> extends_by(
                pool,
                p,
                k,
                #[trigger] extensions(pool, p, k)[j],
            ),
    decreases k, pool.len() + 1,
{
    if k == 0 {
        assert(p.subrange(0, p.len() as int) =~= p);
        assert(extensions(pool, p, k) == seq![p]);
        assert(extends_by(pool, p, k, seq![p][0]));
    } else {
        lemma_branches_sound(pool, p, k, pool.len());
        assert(extensions(pool, p, k) == branches(pool, p, k, pool.len()));
    }
}

proof fn lemma_branches_sound(pool: Seq<Move>, p: Seq<Move>, k: nat, i: nat)
    requires
        no_triple_run(p),
    ensures
        forall|j: int|
            0 <= j < branches(pool, p, k, i).len() ==> extends_by(
                pool,
                p,
                k,
                #[trigger] branches(pool, p, k, i)[j],
            ) && exists|idx: int|
                0 <= idx < i && pool[idx] == branches(pool, p, k, i)[j][p.len() as int],
    decreases k, i,
{
    if k == 0 || i == 0 || i > pool.len() {
    } else {
        let a = branches(pool, p, k, (i - 1) as nat);
        lemma_branches_sound(pool, p, k, (i - 1) as nat);
        let m = pool[i - 1];
        assert(pool.contains(m));
        if completes_triple(p, m) {
            assert(branches(pool, p, k, i) =~= a);
        } else {
            let q = p.push(m);
            lemma_push_keeps_no_triple_run(p, m);
            lemma_extensions_sound(pool, q, (k - 1) as nat);
            let x = extensions(pool, q, (k - 1) as nat);
            let b = branches(pool, p, k, i);
            assert(b == a + x);
            assert forall|j: int| 0 <= j < b.len() implies extends_by(pool, p, k, #[trigger] b[j])
                && exists|idx: int| 0 <= idx < i && pool[idx] == b[j][p.len() as int] by {
                if j < a.len() {
                    assert(b[j] == a[j]);
                } else {
                    assert(b[j] == x[j - a.len()]);
                    lemma_extends_push(pool, p, m, (k - 1) as nat, x[j - a.len()]);
                    assert(pool[i - 1] == b[j][p.len() as int]);
                }
            }
        }
    }
}

proof fn lemma_extensions_complete(pool: Seq<Move>, p: Seq<Move>, k: nat, s: Seq<Move>)
    requires
        extends_by(pool, p, k, s),
    ensures
        extensions(pool, p, k).contains(s),
    decreases k, pool.len() + 1,
{
    if k == 0 {
        assert(s =~= s.subrange(0, p.len() as int));
        assert(extensions(pool, p, k)[0] == s);
    } else {
        let m = s[p.len() as int];
        assert(pool.contains(m));
        let idx = choose|idx: int| 0 <= idx < pool.len() && pool[idx] == m;
        lemma_branches_complete(pool, p, k, pool.len(), s, idx);
    }
}

proof fn lemma_branches_complete(
    pool: Seq<Move>,
    p: Seq<Move>,
    k: nat,
    i: nat,
    s: Seq<Move>,
    idx: int,
)
    requires
        extends_by(pool, p, k, s),
        k > 0,
        0 <= idx < i <= pool.len(),
        pool[idx] == s[p.len() as int],
    ensures
        branches(pool, p, k, i).contains(s),
    decreases k, i,
{
    let a = branches(pool, p, k, (i - 1) as nat);
    let m = pool[i - 1];
    if idx < i - 1 {
        lemma_branches_complete(pool, p, k, (i - 1) as nat, s, idx);
        let j = choose|j: int| 0 <= j < a.len() && a[j] == s;
        if completes_triple(p, m) {
            assert(branches(pool, p, k, i) =~= a);
        } else {
            let x = extensions(pool, p.push(m), (k - 1) as nat);
            assert((a + x)[j] == s);
        }
    } else {
        let n = p.len() as int;
        if n >= 2 {
            assert(s.subrange(0, n)[n - 1] == s[n - 1] && s.subrange(0, n)[n - 2] == s[n - 2]);
            assert(!(s[n] == s[n - 1] && s[n - 1] == s[n - 2]));
        }
        assert(!completes_triple(p, m));
        let q = p.push(m);
        assert(s.subrange(0, q.len() as int) =~= q) by {
            assert forall|t: int| 0 <= t < q.len() implies s.subrange(0, q.len() as int)[t] == q[t] by {
                if t < n {
                    assert(s.subrange(0, n)[t] == s[t]);
                }
            }
        }
        lemma_extensions_complete(pool, q, (k - 1) as nat, s);
        let x = extensions(pool, q, (k - 1) as nat);
        let j = choose|j: int| 0 <= j < x.len() && x[j] == s;
        assert((a + x)[a.len() + j] == s);
    }
}

proof fn lemma_extensions_distinct(pool: Seq<Move>, p: Seq<Move>, k: nat)
    requires
        pool.no_duplicates(),
        no_triple_run(p),
    ensures
        extensions(pool, p, k).no_duplicates(),
    decreases k, pool.len() + 1,
{
    if k > 0 {
        lemma_branches_distinct(pool, p, k, pool.len());
    }
}

proof fn lemma_branches_distinct(pool: Seq<Move>, p: Seq<Move>, k: nat, i: nat)
    requires
        pool.no_duplicates(),
        no_triple_run(p),
    ensures
        branches(pool, p, k, i).no_duplicates(),
    decreases k, i,
{
    if k == 0 || i == 0 || i > pool.len() {
    } else {
        let a = branches(pool, p, k, (i - 1) as nat);
        lemma_branches_distinct(pool, p, k, (i - 1) as nat);
        let m = pool[i - 1];
        assert(pool.contains(m));
        if completes_triple(p, m) {
            assert(branches(pool, p, k, i) =~= a);
        } else {
            let q = p.push(m);
            lemma_push_keeps_no_triple_run(p, m);
            lemma_extensions_distinct(pool, q, (k - 1) as nat);
            lemma_extensions_sound(pool, q, (k - 1) as nat);
            lemma_branches_sound(pool, p, k, (i - 1) as nat);
            let x = extensions(pool, q, (k - 1) as nat);
            assert forall|u: int, v: int| 0 <= u < a.len() && 0 <= v < x.len() implies a[u]
                != x[v] by {
                lemma_extends_push(pool, p, m, (k - 1) as nat, x[v]);
                let idx = choose|idx: int|
                    0 <= idx < i - 1 && pool[idx] == a[u][p.len() as int];
                assert(pool[idx] != pool[i - 1]);
            }
            lemma_no_dup_in_concat(a, x);
        }
    }
}

/// Every sequence that the search examines at depth `d` has `d` moves, all drawn from the
/// pool, and never three equal moves in a row.
pub proof fn lemma_search_emits_admissible(pool: Seq<Move>, d: nat)
    ensures
        forall|j: int|
            0 <= j < extensions(pool, Seq::empty(), d).len() ==> admissible(
                pool,
                #[trigger] extensions(pool, Seq::empty(), d)[j],
                d,
            ),
{
    lemma_extensions_sound(pool, Seq::empty(), d);
}

/// Over a pool of distinct moves, the search at depth `d` examines exactly as many sequences
/// as there are sequences of `d` pool moves with no three equal moves in a row, each of them
/// once.
pub proof fn lemma_search_count(pool: Seq<Move>, d: nat)
    requires
        pool.no_duplicates(),
    ensures
        extensions(pool, Seq::empty(), d).no_duplicates(),
        Set::new(|s: Seq<Move>| admissible(pool, s, d)).finite(),
        extensions(pool, Seq::empty(), d).len() == Set::new(
            |s: Seq<Move>| admissible(pool, s, d),
        ).len(),
{
    let e = extensions(pool, Seq::empty(), d);
    let adm = Set::new(|s: Seq<Move>| admissible(pool, s, d));
    lemma_extensions_sound(pool, Seq::empty(), d);
    lemma_extensions_distinct(pool, Seq::empty(), d);
    assert forall|s: Seq<Move>| #[trigger] adm.contains(s) <==> e.to_set().contains(s) by {
        if adm.contains(s) {
            assert(s.subrange(0, 0) =~= Seq::<Move>::empty());
            lemma_extensions_complete(pool, Seq::empty(), d, s);
        }
        if e.to_set().contains(s) {
            let j = choose|j: int| 0 <= j < e.len() && e[j] == s;
            assert(extends_by(pool, Seq::empty(), d, e[j]));
        }
    }
    assert(adm =~= e.to_set());
    e.unique_seq_to_set();
}

} // verus!
