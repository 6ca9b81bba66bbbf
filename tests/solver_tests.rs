use conjure_core::{
    classify, CNFError, DecisionVariable, Domain, Expression, Metadata, Model, Name, Range,
    SatOutcome, SearchComplete, SearchStatus, SolveSuccess, SolverError, SolverFamily, SAT,
};

fn user(s: &str) -> Name {
    Name::UserName(String::from(s))
}

fn r(n: &Name) -> Expression {
    Expression::Reference(Metadata::new(), n.clone())
}

fn not(e: Expression) -> Expression {
    Expression::Not(Metadata::new(), Box::new(e))
}

fn bool_model(names: &[Name], root: Expression) -> Model {
    let variables = names
        .iter()
        .map(|n| (n.clone(), DecisionVariable { domain: Domain::BoolDomain }))
        .collect();
    Model::new(variables, root)
}

fn equivalence_model() -> Model {
    let a = user("a");
    let b = user("b");
    let root = Expression::And(
        Metadata::new(),
        vec![
            Expression::Or(Metadata::new(), vec![r(&a), not(r(&b))]),
            Expression::Or(Metadata::new(), vec![not(r(&a)), r(&b)]),
        ],
    );
    bool_model(&[a, b], root)
}

#[test]
fn classify_keeps_interruption_apart_from_unsat() {
    assert_eq!(
        classify(SatOutcome::Sat),
        Ok(SolveSuccess { status: SearchStatus::Complete(SearchComplete::HasSolutions) })
    );
    assert_eq!(
        classify(SatOutcome::Unsat),
        Ok(SolveSuccess { status: SearchStatus::Complete(SearchComplete::NoSolutions) })
    );
    assert_eq!(classify(SatOutcome::Interrupted), Err(SolverError::Runtime));
}

#[test]
fn satisfiable_scenario_through_the_adaptor() {
    let mut sat = SAT::new(equivalence_model()).unwrap();
    assert_eq!(sat.get_family(), SolverFamily::SAT);
    let clauses = sat.begin_solve().unwrap();
    assert_eq!(clauses, vec![vec![1, -2], vec![-1, 2]]);
    assert_eq!(
        sat.finish_solve(SatOutcome::Sat),
        Ok(SolveSuccess { status: SearchStatus::Complete(SearchComplete::HasSolutions) })
    );
}

#[test]
fn contradiction_scenario_through_the_adaptor() {
    let a = user("a");
    let root = Expression::And(Metadata::new(), vec![r(&a), not(r(&a))]);
    let mut sat = SAT::new(bool_model(&[a], root)).unwrap();
    assert_eq!(sat.begin_solve().unwrap(), vec![vec![1], vec![-1]]);
    assert_eq!(
        sat.finish_solve(SatOutcome::Unsat),
        Ok(SolveSuccess { status: SearchStatus::Complete(SearchComplete::NoSolutions) })
    );
}

#[test]
fn adaptor_life_cycle_conflicts() {
    let mut sat = SAT::unloaded();
    assert_eq!(sat.begin_solve(), Err(SolverError::StateConflict));
    assert_eq!(sat.finish_solve(SatOutcome::Sat), Err(SolverError::StateConflict));
    assert_eq!(sat.add_clause_to_mod(vec![1]), Err(SolverError::StateConflict));
    sat.load_model(equivalence_model()).unwrap();
    sat.begin_solve().unwrap();
    assert_eq!(sat.begin_solve(), Err(SolverError::StateConflict));
    assert_eq!(sat.load_model(equivalence_model()), Err(SolverError::StateConflict));
    assert_eq!(sat.finish_solve(SatOutcome::Interrupted), Err(SolverError::Runtime));
    assert_eq!(sat.begin_solve().unwrap().len(), 2);
}

#[test]
fn solve_mut_is_not_supported() {
    let mut sat = SAT::new(equivalence_model()).unwrap();
    assert_eq!(sat.solve_mut(), Err(SolverError::OpNotSupported));
}

#[test]
fn adaptor_adds_clauses_to_the_loaded_model() {
    let mut sat = SAT::new(equivalence_model()).unwrap();
    sat.add_clause_to_mod(vec![2]).unwrap();
    assert_eq!(
        sat.add_clause_to_mod(vec![3]),
        Err(SolverError::ModelFeatureNotSupported(CNFError::ClauseIndexNotFound(3)))
    );
    assert_eq!(sat.begin_solve().unwrap(), vec![vec![1, -2], vec![-1, 2], vec![2]]);
}

#[test]
fn loading_an_integer_model_fails_and_keeps_state() {
    let x = user("x");
    let variables =
        vec![(x.clone(), DecisionVariable { domain: Domain::IntDomain(vec![Range::Bounded(0, 1)]) })];
    let m = Model::new(variables, Expression::And(Metadata::new(), vec![]));
    let mut sat = SAT::unloaded();
    assert_eq!(
        sat.load_model(m),
        Err(SolverError::ModelFeatureNotSupported(CNFError::BadVariableType(x)))
    );
    assert_eq!(sat.begin_solve(), Err(SolverError::StateConflict));
}

#[test]
fn default_adaptor_is_unloaded() {
    let mut sat = SAT::default();
    assert_eq!(sat.begin_solve(), Err(SolverError::StateConflict));
    let cnf = conjure_core::CNFModel::default();
    assert!(cnf.get_clauses().is_empty());
    assert!(cnf.get_variables().is_empty());
}
