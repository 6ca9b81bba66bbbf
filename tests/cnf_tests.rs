use conjure_core::{
    CNFError, CNFModel, DecisionVariable, Domain, Expression, Metadata, Model, Name, Range,
    SolverError,
};

fn user(s: &str) -> Name {
    Name::UserName(String::from(s))
}

fn r(n: &Name) -> Expression {
    Expression::Reference(Metadata::new(), n.clone())
}

fn not(e: Expression) -> Expression {
    Expression::Not(Metadata::new(), Box::new(e))
}

fn or(v: Vec<Expression>) -> Expression {
    Expression::Or(Metadata::new(), v)
}

fn and(v: Vec<Expression>) -> Expression {
    Expression::And(Metadata::new(), v)
}

fn bool_model(names: &[Name], root: Expression) -> Model {
    let variables = names
        .iter()
        .map(|n| (n.clone(), DecisionVariable { domain: Domain::BoolDomain }))
        .collect();
    Model::new(variables, root)
}

#[test]
fn equivalence_scenario_encodes_two_clauses() {
    let a = user("a");
    let b = user("b");
    let root = and(vec![or(vec![r(&a), not(r(&b))]), or(vec![not(r(&a)), r(&b)])]);
    let cnf = CNFModel::from_conjure(bool_model(&[a.clone(), b.clone()], root)).unwrap();
    assert_eq!(cnf.get_index(&a), Some(1));
    assert_eq!(cnf.get_index(&b), Some(2));
    assert_eq!(cnf.get_clauses(), &vec![vec![1, -2], vec![-1, 2]]);
}

#[test]
fn contradiction_scenario_encodes_unit_clauses() {
    let a = user("a");
    let root = and(vec![r(&a), not(r(&a))]);
    let cnf = CNFModel::from_conjure(bool_model(&[a.clone()], root)).unwrap();
    assert_eq!(cnf.get_clauses(), &vec![vec![1], vec![-1]]);
}

#[test]
fn integer_domain_is_not_supported() {
    let a = user("a");
    let x = user("x");
    let variables = vec![
        (a.clone(), DecisionVariable { domain: Domain::BoolDomain }),
        (x.clone(), DecisionVariable { domain: Domain::IntDomain(vec![Range::Bounded(1, 3)]) }),
    ];
    let m = Model::new(variables, and(vec![r(&a)]));
    assert_eq!(
        CNFModel::from_conjure(m).unwrap_err(),
        SolverError::ModelFeatureNotSupported(CNFError::BadVariableType(x))
    );
}

#[test]
fn unknown_reference_makes_model_invalid() {
    let a = user("a");
    let ghost_name = user("z");
    let m = bool_model(&[a.clone()], and(vec![or(vec![r(&a), r(&ghost_name)])]));
    assert_eq!(
        CNFModel::from_conjure(m).unwrap_err(),
        SolverError::ModelInvalid(ghost_name)
    );
}

#[test]
fn nested_and_is_rejected() {
    let a = user("a");
    let mut cnf = CNFModel::new();
    cnf.add_variable(&a);
    let e = and(vec![and(vec![r(&a)])]);
    assert!(matches!(cnf.add_expression(&e), Err(CNFError::NestedAnd(_))));
    assert!(cnf.get_clauses().is_empty());
}

#[test]
fn negation_of_non_reference_is_rejected() {
    let a = user("a");
    let mut cnf = CNFModel::new();
    cnf.add_variable(&a);
    let e = not(not(r(&a)));
    assert!(matches!(cnf.add_expression(&e), Err(CNFError::UnexpectedExpressionInsideNot(_))));
}

#[test]
fn other_shapes_are_rejected() {
    let mut cnf = CNFModel::new();
    let e = Expression::Sum(Metadata::new(), vec![]);
    assert!(matches!(cnf.add_expression(&e), Err(CNFError::UnexpectedExpression(_))));
}

#[test]
fn nested_or_flattens_into_one_clause() {
    let a = user("a");
    let b = user("b");
    let c = user("c");
    let mut cnf = CNFModel::new();
    cnf.add_variable(&a);
    cnf.add_variable(&b);
    cnf.add_variable(&c);
    let e = or(vec![r(&a), or(vec![not(r(&b)), r(&c)])]);
    cnf.add_expression(&e).unwrap();
    assert_eq!(cnf.get_clauses(), &vec![vec![1, -2, 3]]);
}

#[test]
fn clause_with_unregistered_index_is_rejected() {
    let a = user("a");
    let mut cnf = CNFModel::new();
    cnf.add_variable(&a);
    cnf.add_clause(&vec![1]).unwrap();
    assert_eq!(cnf.add_clause(&vec![-1, 2]), Err(CNFError::ClauseIndexNotFound(2)));
    assert_eq!(cnf.add_clause(&vec![0]), Err(CNFError::ClauseIndexNotFound(0)));
    assert_eq!(cnf.add_clause(&vec![i32::MIN]), Err(CNFError::ClauseIndexNotFound(i32::MIN)));
    assert_eq!(cnf.get_clauses(), &vec![vec![1]]);
}

#[test]
fn literals_resolve_to_names_and_back() {
    let a = user("a");
    let b = Name::MachineName(5);
    let mut cnf = CNFModel::new();
    cnf.add_variable(&a);
    cnf.add_variable(&b);
    cnf.add_clause(&vec![-2, 1]).unwrap();
    for clause in cnf.get_clauses() {
        for lit in clause {
            let name = cnf.get_name(lit.abs()).unwrap();
            assert_eq!(cnf.get_index(name), Some(lit.abs()));
        }
    }
    assert_eq!(cnf.get_name(2), Some(&b));
    assert_eq!(cnf.get_name(3), None);
    assert_eq!(cnf.get_name(0), None);
    assert_eq!(cnf.get_name(-1), None);
}

#[test]
fn registering_twice_keeps_the_index() {
    let a = user("a");
    let b = user("b");
    let mut cnf = CNFModel::new();
    cnf.add_variable(&a);
    cnf.add_variable(&b);
    cnf.add_variable(&a);
    assert_eq!(cnf.get_index(&a), Some(1));
    assert_eq!(cnf.get_index(&b), Some(2));
    assert_eq!(cnf.get_variables(), vec![&a, &b]);
    assert!(cnf.has_variable(&b));
    assert!(cnf.has_variable(2));
    assert!(!cnf.has_variable(3));
    assert!(!cnf.has_variable(&user("c")));
}

#[test]
fn decoding_rebuilds_conjunction_of_disjunctions() {
    let a = user("a");
    let b = user("b");
    let root = and(vec![or(vec![r(&a), not(r(&b))]), not(r(&a))]);
    let cnf = CNFModel::from_conjure(bool_model(&[a.clone(), b.clone()], root)).unwrap();
    let expected = and(vec![or(vec![r(&a), not(r(&b))]), or(vec![not(r(&a))])]);
    assert_eq!(cnf.as_expression().unwrap(), expected);
}

#[test]
fn decoding_a_single_clause() {
    let a = user("a");
    let mut cnf = CNFModel::new();
    cnf.add_variable(&a);
    assert_eq!(cnf.clause_to_expression(&vec![-1]).unwrap(), or(vec![not(r(&a))]));
    assert_eq!(cnf.clause_to_expression(&vec![1, 4]), Err(CNFError::ClauseIndexNotFound(4)));
}

#[test]
fn empty_model_encodes_to_nothing() {
    let cnf = CNFModel::from_conjure(bool_model(&[], and(vec![]))).unwrap();
    assert!(cnf.get_clauses().is_empty());
    assert_eq!(cnf.as_expression().unwrap(), and(vec![]));
}

#[test]
fn solution_literals_decode_to_named_values() {
    let a = user("a");
    let b = user("b");
    let mut cnf = CNFModel::new();
    cnf.add_variable(&a);
    cnf.add_variable(&b);
    assert_eq!(
        cnf.decode_assignment(&vec![1, -2]).unwrap(),
        vec![(a.clone(), true), (b.clone(), false)]
    );
    assert_eq!(cnf.decode_assignment(&vec![-1, 5]), Err(CNFError::ClauseIndexNotFound(5)));
}

#[test]
fn reference_to_unregistered_name_is_reported() {
    let a = user("a");
    let mut cnf = CNFModel::new();
    let e = or(vec![not(r(&a))]);
    assert_eq!(cnf.add_expression(&e), Err(CNFError::VariableNameNotFound(a)));
    assert!(cnf.get_clauses().is_empty());
}

#[test]
fn disallowed_child_of_a_disjunction_is_reported_inside_or() {
    let a = user("a");
    let mut cnf = CNFModel::new();
    cnf.add_variable(&a);
    let child = and(vec![]);
    let e = or(vec![r(&a), child.clone()]);
    assert_eq!(cnf.add_expression(&e), Err(CNFError::UnexpectedExpressionInsideOr(child)));
    let sum = Expression::Sum(Metadata::new(), vec![r(&a)]);
    let e2 = and(vec![or(vec![not(r(&a)), sum.clone()])]);
    assert_eq!(cnf.add_expression(&e2), Err(CNFError::UnexpectedExpressionInsideOr(sum)));
    assert!(cnf.get_clauses().is_empty());
}

#[test]
fn errors_carry_the_offending_node() {
    let a = user("a");
    let mut cnf = CNFModel::new();
    cnf.add_variable(&a);
    let nested = and(vec![r(&a)]);
    assert_eq!(
        cnf.add_expression(&and(vec![or(vec![r(&a)]), nested.clone()])),
        Err(CNFError::NestedAnd(nested))
    );
    assert_eq!(
        cnf.add_expression(&not(not(r(&a)))),
        Err(CNFError::UnexpectedExpressionInsideNot(not(r(&a))))
    );
    let sum = Expression::Sum(Metadata::new(), vec![]);
    assert_eq!(cnf.add_expression(&sum), Err(CNFError::UnexpectedExpression(sum.clone())));
}
