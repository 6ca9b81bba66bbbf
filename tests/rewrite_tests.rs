use conjure_core::{flatten_conjunction, Expression, Metadata, Name};

fn m(i: i32) -> Expression {
    Expression::Reference(Metadata::new(), Name::MachineName(i))
}

fn or(v: Vec<Expression>) -> Expression {
    Expression::Or(Metadata::new(), v)
}

fn and(v: Vec<Expression>) -> Expression {
    Expression::And(Metadata::new(), v)
}

#[test]
fn nested_conjunctions_flatten_to_one() {
    let e = and(vec![and(vec![or(vec![m(1), m(2)]), and(vec![m(3)])]), or(vec![m(4)])]);
    match flatten_conjunction(e) {
        Expression::And(_, v) => {
            assert_eq!(v, vec![or(vec![m(1), m(2)]), m(3), or(vec![m(4)])]);
            assert!(v.iter().all(|c| !matches!(c, Expression::And(_, _))));
        }
        other => panic!("expected a conjunction, got {:?}", other),
    }
}

#[test]
fn a_single_constraint_becomes_a_conjunction_of_one() {
    match flatten_conjunction(or(vec![m(1)])) {
        Expression::And(md, v) => {
            assert_eq!(v, vec![or(vec![m(1)])]);
            assert!(md.clean);
        }
        other => panic!("expected a conjunction, got {:?}", other),
    }
}

#[test]
fn empty_conjunctions_vanish() {
    let e = and(vec![and(vec![]), and(vec![and(vec![])])]);
    match flatten_conjunction(e) {
        Expression::And(_, v) => assert!(v.is_empty()),
        other => panic!("expected a conjunction, got {:?}", other),
    }
}
