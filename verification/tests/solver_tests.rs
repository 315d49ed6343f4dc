use microlp::{ComparisonOp, OptimizationDirection, Problem, Variable};

use slam::config::SlamConfig;
use slam::formulation::{ConstraintOp, Formulation, VarKind};
use slam::slam::Slam;

/// Hands the integer formulation to the outside solver's problem type.
fn to_problem(f: &Formulation) -> (Problem, Vec<Variable>) {
    let mut p = Problem::new(OptimizationDirection::Minimize);
    let mut vars: Vec<Variable> = Vec::new();
    for v in &f.vars {
        let var = match v.kind {
            VarKind::Binary => p.add_binary_var(v.obj_coeff as f64),
            VarKind::NonNegContinuous => p.add_var(v.obj_coeff as f64, (0.0, f64::INFINITY)),
        };
        vars.push(var);
    }
    for c in &f.constraints {
        let expr: Vec<(Variable, f64)> =
            c.terms.iter().map(|t| (vars[t.var], t.coeff as f64)).collect();
        let op = match c.op {
            ConstraintOp::Le => ComparisonOp::Le,
            ConstraintOp::Eq => ComparisonOp::Eq,
            ConstraintOp::Ge => ComparisonOp::Ge,
        };
        p.add_constraint(expr, op, c.rhs as f64);
    }
    (p, vars)
}

/// Solves the formulation and reads the per-player team assignment
/// back as plain values: 0 for team A, 1 for team B, 2 for unassigned.
fn solve_assignment(f: &Formulation) -> Result<Vec<u8>, microlp::Error> {
    let (p, vars) = to_problem(f);
    let outcome = p.solve()?;
    let sol = outcome.solution().expect("solve without limits yields a solution");
    let i = f.num_players;
    let mut assignment = vec![2u8; i];
    for idx in 0..i {
        if sol.var_value(vars[idx]) > 0.5 {
            assignment[idx] = 0;
        } else if sol.var_value(vars[idx + i]) > 0.5 {
            assignment[idx] = 1;
        }
    }
    Ok(assignment)
}

fn slam_with(ratings: &[(u64, u64)]) -> Slam {
    let mut s = Slam::new(SlamConfig::new(2, 2));
    for (id, elo) in ratings {
        let p = s.insert_player(*id, *elo);
        s.queue_player(p);
    }
    s
}

#[test]
fn spread_ratings_are_infeasible_and_leave_queue_alone() {
    // No pairing of [100, 120, 900, 910] keeps every same-team pair
    // within 200, nor can a fair partition exist.
    let mut s = slam_with(&[(1, 100), (2, 120), (3, 900), (4, 910)]);
    let f = s.formulate();
    let r = solve_assignment(&f);
    assert!(matches!(r, Err(microlp::Error::Infeasible)));
    assert_eq!(s.queue.len(), 4);
}

#[test]
fn close_ratings_form_balanced_match_and_empty_the_queue() {
    let mut s = slam_with(&[(1, 100), (2, 110), (3, 105), (4, 115)]);
    let f = s.formulate();
    let assignment = solve_assignment(&f).expect("feasible pool must solve");
    let m = s.apply_assignment(&assignment).expect("solver assignment must be accepted");
    assert_eq!(s.queue.len(), 0);

    let g1: Vec<u64> = m.g1().players().iter().map(|p| p.id).collect();
    let g2: Vec<u64> = m.g2().players().iter().map(|p| p.id).collect();
    assert_eq!(g1.len(), 2);
    assert_eq!(g2.len(), 2);
    // The four queued players are exactly the matched players.
    let mut all: Vec<u64> = g1.iter().chain(g2.iter()).copied().collect();
    all.sort();
    assert_eq!(all, vec![1, 2, 3, 4]);
    // Fairness: team sums within half the closeness bound; here the
    // optimum is two perfectly balanced pairs.
    let diff = m.g1().total_elo().abs_diff(m.g2().total_elo());
    assert!(diff <= 100);
    assert_eq!(m.g1().total_elo(), 215);
    assert_eq!(m.g2().total_elo(), 215);
}

#[test]
fn matched_teams_respect_closeness_and_fairness_bounds() {
    let ratings = [(1u64, 300u64), (2, 340), (3, 420), (4, 260), (5, 310), (6, 395)];
    let mut s = slam_with(&ratings);
    let f = s.formulate();
    let assignment = solve_assignment(&f).expect("feasible pool must solve");
    let m = s.apply_assignment(&assignment).expect("solver assignment must be accepted");
    let elo_of = |id: u64| ratings.iter().find(|(i, _)| *i == id).unwrap().1;
    for g in [m.g1(), m.g2()] {
        let elos: Vec<u64> = g.players().iter().map(|p| elo_of(p.id)).collect();
        assert_eq!(elos.len(), 2);
        for a in 0..elos.len() {
            for b in (a + 1)..elos.len() {
                assert!(elos[a].abs_diff(elos[b]) <= 200);
            }
        }
    }
    assert!(m.g1().total_elo().abs_diff(m.g2().total_elo()) <= 100);
    assert_eq!(s.queue.len(), 2);
}

#[test]
fn three_queued_players_cannot_fill_two_teams() {
    let mut s = slam_with(&[(1, 100), (2, 105), (3, 110)]);
    let f = s.formulate();
    let r = solve_assignment(&f);
    assert!(matches!(r, Err(microlp::Error::Infeasible)));
    assert_eq!(s.queue.len(), 3);
}
