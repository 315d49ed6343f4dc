//! The matchmaking formulation: team balancing posed as a mixed-integer
//! program over exact integer data.
//!
//! The problem built here is handed to an outside solver. Coefficients
//! and bounds are integers throughout: the one constraint that spec-wise
//! divides by the team size (the fairness band on the slack variable) is
//! stated multiplied through by the team size, which is equivalent for a
//! positive team size.

use vstd::prelude::*;

use crate::slam::CLOSENESS_BOUND;

verus! {

/// The kind of a decision variable.
#[derive(Clone, Copy, PartialEq, Eq, Structural, Debug)]
pub enum VarKind {
    /// 0-or-1 variable.
    Binary,
    /// Continuous variable bounded below by zero.
    NonNegContinuous,
}

/// A decision variable: its kind and its coefficient in the minimized
/// objective.
#[derive(Clone, Copy, PartialEq, Eq, Structural, Debug)]
pub struct FVar {
    pub kind: VarKind,
    pub obj_coeff: i128,
}

/// Comparison of a linear expression against its right-hand side.
#[derive(Clone, Copy, PartialEq, Eq, Structural, Debug)]
pub enum ConstraintOp {
    Le,
    Eq,
    Ge,
}

/// One summand of a linear expression: a coefficient on a variable.
#[derive(Clone, Copy, PartialEq, Eq, Structural, Debug)]
pub struct LinTerm {
    pub var: usize,
    pub coeff: i128,
}

/// A linear constraint: `terms (op) rhs`.
#[derive(Clone, Debug)]
pub struct Constraint {
    pub terms: Vec<LinTerm>,
    pub op: ConstraintOp,
    pub rhs: i128,
}

/// The whole problem: variables, constraints, and the dimensions it was
/// built from.
#[derive(Clone, Debug)]
pub struct Formulation {
    pub num_players: usize,
    pub group_size: u8,
    pub vars: Vec<FVar>,
    pub constraints: Vec<Constraint>,
}

/// The mathematical shape of one constraint: term list over `int`, the
/// comparison, and the right-hand side.
pub struct ConstraintModel {
    pub terms: Seq<(int, int)>,
    pub op: ConstraintOp,
    pub rhs: int,
}

/// The model of an executable constraint.
pub open spec fn con_model(c: Constraint) -> ConstraintModel {
    ConstraintModel {
        terms: c.terms@.map_values(|t: LinTerm| (t.var as int, t.coeff as int)),
        op: c.op,
        rhs: c.rhs as int,
    }
}

/// Largest queue length the formulation accepts per poll: the pairwise
/// indicator set grows quadratically, and this bound keeps every index
/// computation inside `usize` on any machine.
pub const MAX_POLL_POOL: usize = 16384;

// Variable layout, for `i` queued players: assignment variables
// `x[p, t]` at `t * i + p` for the two teams, the team averages, the
// same-team pair indicators, and last the fairness slack `z`.
pub open spec fn x_var(i: int, t: int, p: int) -> int {
    t * i + p
}

pub open spec fn avg_var(i: int, t: int) -> int {
    2 * i + t
}

pub open spec fn y_base(i: int) -> int {
    2 * i + 2
}

pub open spec fn z_var(i: int) -> int {
    2 * i + 2 + i * (i - 1)
}

pub open spec fn num_vars(i: int) -> int {
    2 * i + 3 + i * (i - 1)
}

/// The variable table for `i` players: binary assignment variables, two
/// nonnegative averages, binary pair indicators, and the slack `z`,
/// which alone carries objective weight, so minimizing the objective
/// minimizes `z`.
pub open spec fn formulation_vars(i: int) -> Seq<FVar>
    recommends
        i >= 1,
{
    Seq::new(
        num_vars(i) as nat,
        |v: int|
            FVar {
                kind: if v < 2 * i {
                    VarKind::Binary
                } else if v < 2 * i + 2 {
                    VarKind::NonNegContinuous
                } else if v < z_var(i) {
                    VarKind::Binary
                } else {
                    VarKind::NonNegContinuous
                },
                obj_coeff: if v == z_var(i) {
                    1
                } else {
                    0
                },
            },
    )
}

/// Player `p` stands on at most one team: `x[p,0] + x[p,1] <= 1`.
pub open spec fn assign_cap_con(i: int, p: int) -> ConstraintModel {
    ConstraintModel {
        terms: seq![(x_var(i, 0, p), 1int), (x_var(i, 1, p), 1int)],
        op: ConstraintOp::Le,
        rhs: 1,
    }
}

pub open spec fn assign_cap_block(i: int) -> Seq<ConstraintModel> {
    Seq::new(i as nat, |p: int| assign_cap_con(i, p))
}

/// Team `t` is filled exactly: `sum_p x[p,t] == n`.
pub open spec fn team_size_con(i: int, n: int, t: int) -> ConstraintModel {
    ConstraintModel {
        terms: Seq::new(i as nat, |p: int| (x_var(i, t, p), 1int)),
        op: ConstraintOp::Eq,
        rhs: n,
    }
}

pub open spec fn team_size_block(i: int, n: int) -> Seq<ConstraintModel> {
    seq![team_size_con(i, n, 0), team_size_con(i, n, 1)]
}

/// The average of team `t` is its members' rating sum over `n`:
/// `n * avg[t] - sum_p rating[p] * x[p,t] == 0`.
pub open spec fn avg_def_con(ratings: Seq<u64>, n: int, t: int) -> ConstraintModel {
    let i = ratings.len() as int;
    ConstraintModel {
        terms: seq![(avg_var(i, t), n)] + Seq::new(
            i as nat,
            |p: int| (x_var(i, t, p), -(ratings[p] as int)),
        ),
        op: ConstraintOp::Eq,
        rhs: 0,
    }
}

pub open spec fn avg_def_block(ratings: Seq<u64>, n: int) -> Seq<ConstraintModel> {
    seq![avg_def_con(ratings, n, 0), avg_def_con(ratings, n, 1)]
}

/// The absolute rating gap between two players.
pub open spec fn abs_gap(a: u64, b: u64) -> int {
    if a >= b {
        a - b
    } else {
        b - a
    }
}

/// The four constraints for the pair `(p1, p2)` on team `t`, whose
/// indicator is the `acc`-th pair variable: the standard linearization
/// of `y = x[p1,t] * x[p2,t]`, then the closeness bound
/// `y * |rating(p1) - rating(p2)| <= bound`.
pub open spec fn pair_cons(ratings: Seq<u64>, t: int, p1: int, p2: int, acc: int) -> Seq<
    ConstraintModel,
> {
    let i = ratings.len() as int;
    let y = y_base(i) + acc;
    seq![
        ConstraintModel {
            terms: seq![(y, 1int), (x_var(i, t, p1), -1int)],
            op: ConstraintOp::Le,
            rhs: 0,
        },
        ConstraintModel {
            terms: seq![(y, 1int), (x_var(i, t, p2), -1int)],
            op: ConstraintOp::Le,
            rhs: 0,
        },
        ConstraintModel {
            terms: seq![(y, 1int), (x_var(i, t, p1), -1int), (x_var(i, t, p2), -1int)],
            op: ConstraintOp::Ge,
            rhs: -1,
        },
        ConstraintModel {
            terms: seq![(y, abs_gap(ratings[p1], ratings[p2]))],
            op: ConstraintOp::Le,
            rhs: CLOSENESS_BOUND as int,
        },
    ]
}

/// The pair constraints still to be produced from loop state
/// `(t, p1, p2)`, with `acc` pair indicators already used; the whole
/// block is read off at `(0, 0, 1)` with no indicators used.
pub open spec fn pair_block_from(ratings: Seq<u64>, t: nat, p1: nat, p2: nat, acc: nat) -> Seq<
    ConstraintModel,
>
    decreases 2 - t, ratings.len() - p1, ratings.len() + 1 - p2,
{
    let i = ratings.len();
    if t >= 2 {
        Seq::empty()
    } else if p1 + 1 >= i {
        pair_block_from(ratings, (t + 1) as nat, 0, 1, acc)
    } else if p2 >= i || p2 < p1 + 1 {
        pair_block_from(ratings, t, (p1 + 1) as nat, (p1 + 2) as nat, acc)
    } else {
        pair_cons(ratings, t as int, p1 as int, p2 as int, acc as int) + pair_block_from(
            ratings,
            t,
            p1,
            (p2 + 1) as nat,
            (acc + 1) as nat,
        )
    }
}

pub open spec fn pair_block(ratings: Seq<u64>) -> Seq<ConstraintModel> {
    pair_block_from(ratings, 0, 0, 1, 0)
}

/// The fairness band: the slack `z` caps the gap of the team averages
/// (`-z <= avg[1] - avg[0] <= z`), `z` itself is capped at
/// `bound / (2n)` — stated multiplied through by `n` as
/// `n * z <= bound / 2` — and slack and averages are nonnegative.
pub open spec fn band_block(i: int, n: int) -> Seq<ConstraintModel> {
    seq![
        ConstraintModel {
            terms: seq![(z_var(i), n)],
            op: ConstraintOp::Le,
            rhs: (CLOSENESS_BOUND / 2) as int,
        },
        ConstraintModel {
            terms: seq![(avg_var(i, 1), 1int), (avg_var(i, 0), -1int), (z_var(i), 1int)],
            op: ConstraintOp::Ge,
            rhs: 0,
        },
        ConstraintModel {
            terms: seq![(avg_var(i, 1), 1int), (avg_var(i, 0), -1int), (z_var(i), -1int)],
            op: ConstraintOp::Le,
            rhs: 0,
        },
        ConstraintModel { terms: seq![(z_var(i), 1int)], op: ConstraintOp::Ge, rhs: 0 },
        ConstraintModel { terms: seq![(avg_var(i, 0), 1int)], op: ConstraintOp::Ge, rhs: 0 },
        ConstraintModel { terms: seq![(avg_var(i, 1), 1int)], op: ConstraintOp::Ge, rhs: 0 },
    ]
}

/// Every constraint of the formulation, in the order built: assignment
/// caps, team sizes, average definitions, pair closeness, and the
/// fairness band.
pub open spec fn formulation_cons(ratings: Seq<u64>, n: int) -> Seq<ConstraintModel> {
    let i = ratings.len() as int;
    assign_cap_block(i) + team_size_block(i, n) + avg_def_block(ratings, n) + pair_block(ratings)
        + band_block(i, n)
}


/// The models of a built constraint list.
pub open spec fn cons_models(cs: Seq<Constraint>) -> Seq<ConstraintModel> {
    cs.map_values(|c: Constraint| con_model(c))
}

/// The model of a built term list.
pub open spec fn terms_model(ts: Seq<LinTerm>) -> Seq<(int, int)> {
    ts.map_values(|t: LinTerm| (t.var as int, t.coeff as int))
}

/// The pair-indicator count `i * (i - 1)` stays small for any accepted
/// queue length.
proof fn lemma_pool_bounds(i: int)
    requires
        1 <= i <= MAX_POLL_POOL,
    ensures
        0 <= i * (i - 1) <= 0x10000000,
{
    assert(0 <= i * (i - 1) <= 0x10000000) by (nonlinear_arith)
        requires
            1 <= i <= 16384,
    ;
}

/// The variable table, built to match `formulation_vars`.
#[verifier::loop_isolation(false)]
fn build_vars(i: usize) -> (r: Vec<FVar>)
    requires
        1 <= i <= MAX_POLL_POOL,
    ensures
        r@ == formulation_vars(i as int),
{
    let ghost ii = i as int;
    proof {
        lemma_pool_bounds(ii);
    }
    let n_y = i * (i - 1);
    let mut vars: Vec<FVar> = Vec::new();
    let mut k: usize = 0;
    while k < 2 * i
        invariant
            1 <= i <= MAX_POLL_POOL,
            0 <= k <= 2 * i,
            0 <= ii * (ii - 1) <= 0x10000000,
            vars@ =~= formulation_vars(ii).take(k as int),
        decreases 2 * i - k,
    {
        vars.push(FVar { kind: VarKind::Binary, obj_coeff: 0 });
        proof {
            assert(formulation_vars(ii).take(k + 1) =~= formulation_vars(ii).take(k as int).push(
                FVar { kind: VarKind::Binary, obj_coeff: 0 },
            ));
        }
        k = k + 1;
    }
    vars.push(FVar { kind: VarKind::NonNegContinuous, obj_coeff: 0 });
    vars.push(FVar { kind: VarKind::NonNegContinuous, obj_coeff: 0 });
    proof {
        assert(vars@ =~= formulation_vars(ii).take(2 * ii + 2));
    }
    let mut k2: usize = 0;
    while k2 < n_y
        invariant
            1 <= i <= MAX_POLL_POOL,
            0 <= k2 <= n_y,
            n_y == ii * (ii - 1),
            0 <= ii * (ii - 1) <= 0x10000000,
            vars@ =~= formulation_vars(ii).take(2 * ii + 2 + k2),
        decreases n_y - k2,
    {
        vars.push(FVar { kind: VarKind::Binary, obj_coeff: 0 });
        proof {
            assert(formulation_vars(ii).take(2 * ii + 2 + k2 + 1) =~= formulation_vars(ii).take(
                2 * ii + 2 + k2,
            ).push(FVar { kind: VarKind::Binary, obj_coeff: 0 }));
        }
        k2 = k2 + 1;
    }
    vars.push(FVar { kind: VarKind::NonNegContinuous, obj_coeff: 1 });
    proof {
        assert(vars@ =~= formulation_vars(ii));
    }
    vars
}

/// Appends the assignment-cap constraints: each player on at most one
/// team.
#[verifier::loop_isolation(false)]
fn push_assign_caps(cons: &mut Vec<Constraint>, i: usize)
    requires
        1 <= i <= MAX_POLL_POOL,
    ensures
        cons_models(final(cons)@) == cons_models(old(cons)@) + assign_cap_block(i as int),
{
    let ghost ii = i as int;
    let ghost base = cons_models(old(cons)@);
    let mut p: usize = 0;
    while p < i
        invariant
            1 <= i <= MAX_POLL_POOL,
            0 <= p <= i,
            cons_models(cons@) =~= base + assign_cap_block(ii).take(p as int),
        decreases i - p,
    {
        let mut tv: Vec<LinTerm> = Vec::new();
        tv.push(LinTerm { var: p, coeff: 1 });
        tv.push(LinTerm { var: i + p, coeff: 1 });
        let c = Constraint { terms: tv, op: ConstraintOp::Le, rhs: 1 };
        proof {
            assert(x_var(ii, 0, p as int) == p as int);
            assert(x_var(ii, 1, p as int) == ii + p as int);
            assert(terms_model(c.terms@) =~= assign_cap_con(ii, p as int).terms);
            assert(con_model(c) == assign_cap_con(ii, p as int));
        }
        let ghost prev = cons@;
        cons.push(c);
        proof {
            assert(assign_cap_block(ii).take(p + 1) =~= assign_cap_block(ii).take(p as int).push(
                assign_cap_con(ii, p as int),
            ));
            assert(cons_models(prev.push(c)) =~= cons_models(prev).push(con_model(c)));
            assert(cons_models(cons@) =~= base + assign_cap_block(ii).take(p + 1));
        }
        p = p + 1;
    }
    proof {
        assert(assign_cap_block(ii).take(ii) =~= assign_cap_block(ii));
    }
}

/// Appends the two team-size constraints: each team filled exactly.
#[verifier::loop_isolation(false)]
fn push_team_sizes(cons: &mut Vec<Constraint>, i: usize, n: u8)
    requires
        1 <= i <= MAX_POLL_POOL,
    ensures
        cons_models(final(cons)@) == cons_models(old(cons)@) + team_size_block(i as int, n as int),
{
    let ghost ii = i as int;
    let ghost base = cons_models(old(cons)@);
    let mut t: usize = 0;
    while t < 2
        invariant
            1 <= i <= MAX_POLL_POOL,
            0 <= t <= 2,
            cons_models(cons@) =~= base + team_size_block(ii, n as int).take(t as int),
        decreases 2 - t,
    {
        let xbase = if t == 0 {
            0
        } else {
            i
        };
        proof {
            if t == 0 {
                assert((t as int) * ii == 0) by (nonlinear_arith)
                    requires
                        t as int == 0,
                ;
            } else {
                assert((t as int) * ii == ii) by (nonlinear_arith)
                    requires
                        t as int == 1,
                ;
            }
        }
        let mut tv: Vec<LinTerm> = Vec::new();
        let mut p: usize = 0;
        while p < i
            invariant
                1 <= i <= MAX_POLL_POOL,
                0 <= p <= i,
                t < 2,
                xbase == t * i,
                terms_model(tv@) =~= team_size_con(ii, n as int, t as int).terms.take(p as int),
            decreases i - p,
        {
            tv.push(LinTerm { var: xbase + p, coeff: 1 });
            proof {
                assert(x_var(ii, t as int, p as int) == xbase + p);
                assert(team_size_con(ii, n as int, t as int).terms.take(p + 1) =~= team_size_con(
                    ii,
                    n as int,
                    t as int,
                ).terms.take(p as int).push((x_var(ii, t as int, p as int), 1int)));
                assert(terms_model(tv@) =~= team_size_con(ii, n as int, t as int).terms.take(
                    p + 1,
                ));
            }
            p = p + 1;
        }
        let c = Constraint { terms: tv, op: ConstraintOp::Eq, rhs: n as i128 };
        proof {
            assert(team_size_con(ii, n as int, t as int).terms.take(ii) =~= team_size_con(
                ii,
                n as int,
                t as int,
            ).terms);
            assert(con_model(c) == team_size_con(ii, n as int, t as int));
        }
        let ghost prev = cons@;
        cons.push(c);
        proof {
            assert(team_size_block(ii, n as int).take(t + 1) =~= team_size_block(
                ii,
                n as int,
            ).take(t as int).push(team_size_con(ii, n as int, t as int)));
            assert(cons_models(prev.push(c)) =~= cons_models(prev).push(con_model(c)));
            assert(cons_models(cons@) =~= base + team_size_block(ii, n as int).take(t + 1));
        }
        t = t + 1;
    }
    proof {
        assert(team_size_block(ii, n as int).take(2) =~= team_size_block(ii, n as int));
    }
}

/// Appends the two average-definition constraints.
#[verifier::loop_isolation(false)]
fn push_avg_defs(cons: &mut Vec<Constraint>, ratings: &Vec<u64>, n: u8)
    requires
        1 <= ratings@.len() <= MAX_POLL_POOL,
    ensures
        cons_models(final(cons)@) == cons_models(old(cons)@) + avg_def_block(ratings@, n as int),
{
    let i = ratings.len();
    let ghost ii = i as int;
    let ghost base = cons_models(old(cons)@);
    let mut t: usize = 0;
    while t < 2
        invariant
            1 <= i <= MAX_POLL_POOL,
            i == ratings@.len(),
            0 <= t <= 2,
            cons_models(cons@) =~= base + avg_def_block(ratings@, n as int).take(t as int),
        decreases 2 - t,
    {
        let xbase = if t == 0 {
            0
        } else {
            i
        };
        proof {
            if t == 0 {
                assert((t as int) * ii == 0) by (nonlinear_arith)
                    requires
                        t as int == 0,
                ;
            } else {
                assert((t as int) * ii == ii) by (nonlinear_arith)
                    requires
                        t as int == 1,
                ;
            }
        }
        let ghost spec_terms = avg_def_con(ratings@, n as int, t as int).terms;
        let mut tv: Vec<LinTerm> = Vec::new();
        tv.push(LinTerm { var: 2 * i + t, coeff: n as i128 });
        proof {
            assert(avg_var(ii, t as int) == 2 * ii + t as int);
            assert(terms_model(tv@) =~= spec_terms.take(1));
        }
        let mut p: usize = 0;
        while p < i
            invariant
                1 <= i <= MAX_POLL_POOL,
                i == ratings@.len(),
                0 <= p <= i,
                t < 2,
                xbase == t * i,
                spec_terms == avg_def_con(ratings@, n as int, t as int).terms,
                terms_model(tv@) =~= spec_terms.take(1 + p as int),
            decreases i - p,
        {
            let rat = ratings[p];
            tv.push(LinTerm { var: xbase + p, coeff: -(rat as i128) });
            proof {
                assert(x_var(ii, t as int, p as int) == xbase + p);
                assert(spec_terms[1 + p as int] == (x_var(ii, t as int, p as int), -(
                ratings@[p as int] as int)));
                assert(spec_terms.take(1 + p + 1) =~= spec_terms.take(1 + p as int).push(
                    spec_terms[1 + p as int],
                ));
                assert(terms_model(tv@) =~= spec_terms.take(1 + p + 1));
            }
            p = p + 1;
        }
        let c = Constraint { terms: tv, op: ConstraintOp::Eq, rhs: 0 };
        proof {
            assert(spec_terms.take(1 + ii) =~= spec_terms);
            assert(con_model(c) == avg_def_con(ratings@, n as int, t as int));
        }
        let ghost prev = cons@;
        cons.push(c);
        proof {
            assert(avg_def_block(ratings@, n as int).take(t + 1) =~= avg_def_block(
                ratings@,
                n as int,
            ).take(t as int).push(avg_def_con(ratings@, n as int, t as int)));
            assert(cons_models(prev.push(c)) =~= cons_models(prev).push(con_model(c)));
            assert(cons_models(cons@) =~= base + avg_def_block(ratings@, n as int).take(t + 1));
        }
        t = t + 1;
    }
    proof {
        assert(avg_def_block(ratings@, n as int).take(2) =~= avg_def_block(ratings@, n as int));
    }
}

/// Appends the pair-closeness constraints, mirroring the loop order the
/// block specification is defined by.
#[verifier::loop_isolation(false)]
fn push_pair_cons(cons: &mut Vec<Constraint>, ratings: &Vec<u64>)
    requires
        1 <= ratings@.len() <= MAX_POLL_POOL,
    ensures
        cons_models(final(cons)@) == cons_models(old(cons)@) + pair_block(ratings@),
{
    let i = ratings.len();
    let ghost ii = i as int;
    let ghost base = cons_models(old(cons)@);
    let ghost base_len = old(cons)@.len() as int;
    let ghost full = pair_block(ratings@);
    let ybase = 2 * i + 2;
    let mut acc: usize = 0;
    let mut t: usize = 0;
    while t < 2
        invariant
            0 <= t <= 2,
            cons@.len() == base_len + 4 * acc,
            cons_models(cons@) + pair_block_from(ratings@, t as nat, 0, 1, acc as nat) =~= base
                + full,
        decreases 2 - t,
    {
        let xbase = if t == 0 {
            0
        } else {
            i
        };
        proof {
            if t == 0 {
                assert((t as int) * ii == 0) by (nonlinear_arith)
                    requires
                        t as int == 0,
                ;
            } else {
                assert((t as int) * ii == ii) by (nonlinear_arith)
                    requires
                        t as int == 1,
                ;
            }
        }
        let mut p1: usize = 0;
        while p1 + 1 < i
            invariant
                t < 2,
                0 <= p1 <= i,
                xbase == t * i,
                cons@.len() == base_len + 4 * acc,
                cons_models(cons@) + pair_block_from(
                    ratings@,
                    t as nat,
                    p1 as nat,
                    (p1 + 1) as nat,
                    acc as nat,
                ) =~= base + full,
            decreases i - p1,
        {
            let mut p2: usize = p1 + 1;
            while p2 < i
                invariant
                    t < 2,
                    p1 + 1 < i,
                    p1 + 1 <= p2 <= i,
                    xbase == t * i,
                    cons@.len() == base_len + 4 * acc,
                    cons_models(cons@) + pair_block_from(
                        ratings@,
                        t as nat,
                        p1 as nat,
                        p2 as nat,
                        acc as nat,
                    ) =~= base + full,
                decreases i - p2,
            {
                // The running pair count is bounded through the built
                // vector's length, which fits in `usize`.
                let cur_len: usize = cons.len();
                proof {
                    assert(4 * acc <= cur_len);
                }
                let y = ybase + acc;
                let r1 = ratings[p1];
                let r2 = ratings[p2];
                let gap = if r1 >= r2 {
                    r1 - r2
                } else {
                    r2 - r1
                };
                let ghost pc = pair_cons(ratings@, t as int, p1 as int, p2 as int, acc as int);
                let mut tv1: Vec<LinTerm> = Vec::new();
                tv1.push(LinTerm { var: y, coeff: 1 });
                tv1.push(LinTerm { var: xbase + p1, coeff: -1 });
                let c1 = Constraint { terms: tv1, op: ConstraintOp::Le, rhs: 0 };
                let mut tv2: Vec<LinTerm> = Vec::new();
                tv2.push(LinTerm { var: y, coeff: 1 });
                tv2.push(LinTerm { var: xbase + p2, coeff: -1 });
                let c2 = Constraint { terms: tv2, op: ConstraintOp::Le, rhs: 0 };
                let mut tv3: Vec<LinTerm> = Vec::new();
                tv3.push(LinTerm { var: y, coeff: 1 });
                tv3.push(LinTerm { var: xbase + p1, coeff: -1 });
                tv3.push(LinTerm { var: xbase + p2, coeff: -1 });
                let c3 = Constraint { terms: tv3, op: ConstraintOp::Ge, rhs: -1 };
                let mut tv4: Vec<LinTerm> = Vec::new();
                tv4.push(LinTerm { var: y, coeff: gap as i128 });
                let c4 = Constraint {
                    terms: tv4,
                    op: ConstraintOp::Le,
                    rhs: CLOSENESS_BOUND as i128,
                };
                proof {
                    assert(x_var(ii, t as int, p1 as int) == xbase + p1);
                    assert(x_var(ii, t as int, p2 as int) == xbase + p2);
                    assert(y_base(ii) + acc as int == y as int);
                    assert(gap as int == abs_gap(ratings@[p1 as int], ratings@[p2 as int]));
                    assert(terms_model(c1.terms@) =~= pc[0].terms);
                    assert(terms_model(c2.terms@) =~= pc[1].terms);
                    assert(terms_model(c3.terms@) =~= pc[2].terms);
                    assert(terms_model(c4.terms@) =~= pc[3].terms);
                    assert(con_model(c1) == pc[0]);
                    assert(con_model(c2) == pc[1]);
                    assert(con_model(c3) == pc[2]);
                    assert(con_model(c4) == pc[3]);
                }
                let ghost s0 = cons@;
                cons.push(c1);
                let ghost s1 = cons@;
                cons.push(c2);
                let ghost s2 = cons@;
                cons.push(c3);
                let ghost s3 = cons@;
                cons.push(c4);
                proof {
                    assert(cons_models(s1) =~= cons_models(s0).push(con_model(c1)));
                    assert(cons_models(s2) =~= cons_models(s1).push(con_model(c2)));
                    assert(cons_models(s3) =~= cons_models(s2).push(con_model(c3)));
                    assert(cons_models(cons@) =~= cons_models(s3).push(con_model(c4)));
                    assert(cons_models(cons@) =~= cons_models(s0) + pc);
                    assert(pair_block_from(
                        ratings@,
                        t as nat,
                        p1 as nat,
                        p2 as nat,
                        acc as nat,
                    ) == pc + pair_block_from(
                        ratings@,
                        t as nat,
                        p1 as nat,
                        (p2 + 1) as nat,
                        (acc + 1) as nat,
                    ));
                    assert(cons_models(cons@) + pair_block_from(
                        ratings@,
                        t as nat,
                        p1 as nat,
                        (p2 + 1) as nat,
                        (acc + 1) as nat,
                    ) =~= base + full);
                }
                acc = acc + 1;
                p2 = p2 + 1;
            }
            proof {
                assert(pair_block_from(ratings@, t as nat, p1 as nat, i as nat, acc as nat)
                    == pair_block_from(
                    ratings@,
                    t as nat,
                    (p1 + 1) as nat,
                    (p1 + 2) as nat,
                    acc as nat,
                ));
            }
            p1 = p1 + 1;
        }
        proof {
            assert(pair_block_from(
                ratings@,
                t as nat,
                p1 as nat,
                (p1 + 1) as nat,
                acc as nat,
            ) == pair_block_from(ratings@, (t + 1) as nat, 0, 1, acc as nat));
        }
        t = t + 1;
    }
    proof {
        assert(pair_block_from(ratings@, 2, 0, 1, acc as nat) =~= Seq::<ConstraintModel>::empty());
        assert(cons_models(cons@) =~= base + full);
    }
}

/// Appends the fairness band: the slack cap, the two band inequalities
/// around the average gap, and the nonnegativity constraints.
fn push_band(cons: &mut Vec<Constraint>, i: usize, n: u8)
    requires
        1 <= i <= MAX_POLL_POOL,
    ensures
        cons_models(final(cons)@) == cons_models(old(cons)@) + band_block(i as int, n as int),
{
    let ghost ii = i as int;
    let ghost base = cons_models(old(cons)@);
    proof {
        lemma_pool_bounds(ii);
    }
    let n_y = i * (i - 1);
    let z = 2 * i + 2 + n_y;
    let a0 = 2 * i;
    let a1 = 2 * i + 1;
    let ghost bb = band_block(ii, n as int);

    let mut tv1: Vec<LinTerm> = Vec::new();
    tv1.push(LinTerm { var: z, coeff: n as i128 });
    let c1 = Constraint { terms: tv1, op: ConstraintOp::Le, rhs: (CLOSENESS_BOUND / 2) as i128 };
    let mut tv2: Vec<LinTerm> = Vec::new();
    tv2.push(LinTerm { var: a1, coeff: 1 });
    tv2.push(LinTerm { var: a0, coeff: -1 });
    tv2.push(LinTerm { var: z, coeff: 1 });
    let c2 = Constraint { terms: tv2, op: ConstraintOp::Ge, rhs: 0 };
    let mut tv3: Vec<LinTerm> = Vec::new();
    tv3.push(LinTerm { var: a1, coeff: 1 });
    tv3.push(LinTerm { var: a0, coeff: -1 });
    tv3.push(LinTerm { var: z, coeff: -1 });
    let c3 = Constraint { terms: tv3, op: ConstraintOp::Le, rhs: 0 };
    let mut tv4: Vec<LinTerm> = Vec::new();
    tv4.push(LinTerm { var: z, coeff: 1 });
    let c4 = Constraint { terms: tv4, op: ConstraintOp::Ge, rhs: 0 };
    let mut tv5: Vec<LinTerm> = Vec::new();
    tv5.push(LinTerm { var: a0, coeff: 1 });
    let c5 = Constraint { terms: tv5, op: ConstraintOp::Ge, rhs: 0 };
    let mut tv6: Vec<LinTerm> = Vec::new();
    tv6.push(LinTerm { var: a1, coeff: 1 });
    let c6 = Constraint { terms: tv6, op: ConstraintOp::Ge, rhs: 0 };
    proof {
        assert(z as int == z_var(ii));
        assert(a0 as int == avg_var(ii, 0));
        assert(a1 as int == avg_var(ii, 1));
        assert(terms_model(c1.terms@) =~= bb[0].terms);
        assert(terms_model(c2.terms@) =~= bb[1].terms);
        assert(terms_model(c3.terms@) =~= bb[2].terms);
        assert(terms_model(c4.terms@) =~= bb[3].terms);
        assert(terms_model(c5.terms@) =~= bb[4].terms);
        assert(terms_model(c6.terms@) =~= bb[5].terms);
        assert(con_model(c1) == bb[0]);
        assert(con_model(c2) == bb[1]);
        assert(con_model(c3) == bb[2]);
        assert(con_model(c4) == bb[3]);
        assert(con_model(c5) == bb[4]);
        assert(con_model(c6) == bb[5]);
    }
    let ghost before = cons@;
    cons.push(c1);
    cons.push(c2);
    cons.push(c3);
    cons.push(c4);
    cons.push(c5);
    cons.push(c6);
    proof {
        assert(cons_models(cons@) =~= cons_models(before) + bb);
    }
}

/// Builds the whole formulation for the given ratings, in queue order,
/// and team size.
pub fn build_formulation(ratings: &Vec<u64>, group_size: u8) -> (r: Formulation)
    requires
        1 <= ratings@.len() <= MAX_POLL_POOL,
        group_size >= 1,
    ensures
        r.num_players == ratings@.len(),
        r.group_size == group_size,
        r.vars@ == formulation_vars(ratings@.len() as int),
        cons_models(r.constraints@) == formulation_cons(ratings@, group_size as int),
{
    let i = ratings.len();
    let ghost ii = i as int;
    let vars = build_vars(i);
    let mut cons: Vec<Constraint> = Vec::new();
    proof {
        assert(cons_models(cons@) =~= Seq::<ConstraintModel>::empty());
    }
    push_assign_caps(&mut cons, i);
    push_team_sizes(&mut cons, i, group_size);
    push_avg_defs(&mut cons, ratings, group_size);
    push_pair_cons(&mut cons, ratings);
    push_band(&mut cons, i, group_size);
    proof {
        assert(cons_models(cons@) =~= formulation_cons(ratings@, group_size as int));
    }
    Formulation { num_players: i, group_size, vars, constraints: cons }
}

} // verus!

// ---------------------------------------------------------------------
