use conjure_core::{
    get_namevar_as_int, handle_and, handle_lit, handle_or, CNFError, Expression, Metadata, Name,
    ReturnType,
};

fn md() -> Metadata {
    Metadata { clean: true, etype: Some(ReturnType::Bool) }
}

fn machine(i: i32) -> Expression {
    Expression::Reference(md(), Name::MachineName(i))
}

fn not(e: Expression) -> Expression {
    Expression::Not(md(), Box::new(e))
}

#[test]
fn test_handle_and() {
    let clause_1 = Expression::Or(md(), vec![machine(1), not(machine(0))]);
    let clause_2 = Expression::Or(md(), vec![machine(3)]);
    let e = Expression::And(md(), vec![clause_1, clause_2]);
    assert_eq!(handle_and(e).unwrap(), vec![vec![1, 1], vec![3]]);
}

#[test]
fn test_handle_or() {
    let lit_1 = machine(1);
    let not_lit = not(machine(1));
    let expr_or = Expression::Or(md(), vec![lit_1, not_lit]);
    assert_eq!(handle_or(expr_or).unwrap(), vec![1, 0]);
}

#[test]
fn test_handle_lit() {
    let lit_1 = machine(1);
    let lit_2 = machine(0);
    let not_lit = not(machine(1));
    assert_eq!(handle_lit(lit_1).unwrap(), 1);
    assert_eq!(handle_lit(not_lit).unwrap(), 0);
    assert_eq!(handle_lit(lit_2).unwrap(), 0);
}

#[test]
fn handle_lit_double_negation_cancels() {
    assert_eq!(handle_lit(not(not(machine(7)))).unwrap(), 7);
    assert_eq!(handle_lit(not(machine(0))).unwrap(), 1);
}

#[test]
fn handle_lit_rejects_user_names_and_other_shapes() {
    let user = Expression::Reference(md(), Name::UserName(String::from("x")));
    assert_eq!(
        handle_lit(user),
        Err(CNFError::BadVariableType(Name::UserName(String::from("x"))))
    );
    let or = Expression::Or(md(), vec![machine(1)]);
    assert!(matches!(handle_lit(or), Err(CNFError::UnexpectedLiteralExpression(_))));
    let not_or = not(Expression::Or(md(), vec![machine(1)]));
    assert!(matches!(handle_lit(not_or), Err(CNFError::UnexpectedExpressionInsideNot(_))));
}

#[test]
fn get_namevar_as_int_reads_machine_names() {
    assert_eq!(get_namevar_as_int(Name::MachineName(42)), Ok(42));
    assert_eq!(
        get_namevar_as_int(Name::UserName(String::from("a"))),
        Err(CNFError::BadVariableType(Name::UserName(String::from("a"))))
    );
}

#[test]
fn handle_or_rejects_nested_shapes() {
    let inner = Expression::And(md(), vec![machine(1)]);
    let e = Expression::Or(md(), vec![machine(2), inner]);
    assert!(matches!(handle_or(e), Err(CNFError::UnexpectedExpressionInsideOr(_))));
    assert!(matches!(handle_or(machine(1)), Err(CNFError::UnexpectedExpression(_))));
}

#[test]
fn handle_and_requires_disjunctions() {
    let e = Expression::And(md(), vec![Expression::Or(md(), vec![machine(1)]), machine(2)]);
    assert!(matches!(handle_and(e), Err(CNFError::UnexpectedExpressionInsideOr(_))));
}

#[test]
fn handle_and_on_a_non_conjunction_is_an_error() {
    let e = Expression::Or(md(), vec![machine(1)]);
    assert_eq!(handle_and(e.clone()), Err(CNFError::UnexpectedExpression(e)));
}

#[test]
fn literal_errors_carry_the_node() {
    let or = Expression::Or(md(), vec![machine(1)]);
    assert_eq!(handle_lit(or.clone()), Err(CNFError::UnexpectedLiteralExpression(or.clone())));
    assert_eq!(handle_lit(not(or.clone())), Err(CNFError::UnexpectedExpressionInsideNot(or.clone())));
    assert_eq!(handle_or(machine(2)), Err(CNFError::UnexpectedExpression(machine(2))));
}
