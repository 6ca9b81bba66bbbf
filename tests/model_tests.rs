use conjure_core::{
    instantiate_model_from_conjure, CNFError, DecisionVariable, Domain, Expression, Metadata,
    Model, ModelError, Name, Range, SolverError,
};

#[test]
fn modify_domain() {
    let a = Name::UserName(String::from("a"));

    let d1 = Domain::IntDomain(vec![Range::Bounded(1, 3)]);
    let d2 = Domain::IntDomain(vec![Range::Bounded(1, 2)]);

    let variables = vec![(a.clone(), DecisionVariable { domain: d1.clone() })];

    let mut m = Model::new(variables, Expression::And(Metadata::new(), Vec::new()));

    assert_eq!(m.get_domain(&a).unwrap(), &d1);

    m.update_domain(&a, d2.clone()).unwrap();

    assert_eq!(m.get_domain(&a).unwrap(), &d2);
}

#[test]
fn update_domain_leaves_other_variables() {
    let a = Name::UserName(String::from("a"));
    let b = Name::UserName(String::from("b"));
    let variables = vec![
        (a.clone(), DecisionVariable { domain: Domain::BoolDomain }),
        (b.clone(), DecisionVariable { domain: Domain::BoolDomain }),
    ];
    let mut m = Model::new(variables, Expression::And(Metadata::new(), Vec::new()));
    let d = Domain::IntDomain(vec![Range::Bounded(0, 9)]);
    m.update_domain(&b, d.clone()).unwrap();
    assert_eq!(m.get_domain(&a).unwrap(), &Domain::BoolDomain);
    assert_eq!(m.get_domain(&b).unwrap(), &d);
}

#[test]
fn update_domain_of_missing_variable_fails() {
    let a = Name::UserName(String::from("a"));
    let missing = Name::MachineName(3);
    let variables = vec![(a.clone(), DecisionVariable { domain: Domain::BoolDomain })];
    let mut m = Model::new(variables, Expression::And(Metadata::new(), Vec::new()));
    assert_eq!(
        m.update_domain(&missing, Domain::BoolDomain),
        Err(ModelError::VariableNotFound(missing.clone()))
    );
    assert_eq!(m.get_domain(&missing), None);
    assert_eq!(m.get_domain(&a).unwrap(), &Domain::BoolDomain);
}

#[test]
fn constraints_vec_flattens_root_conjunction() {
    let x = Expression::Reference(Metadata::new(), Name::MachineName(1));
    let y = Expression::Reference(Metadata::new(), Name::MachineName(2));
    let m = Model::new(Vec::new(), Expression::And(Metadata::new(), vec![x.clone(), y.clone()]));
    assert_eq!(m.get_constraints_vec(), vec![x.clone(), y]);
    let single = Model::new(Vec::new(), x.clone());
    assert_eq!(single.get_constraints_vec(), vec![x]);
}

#[test]
fn instantiate_model_reads_machine_literals() {
    let v1 = Name::MachineName(1);
    let v0 = Name::MachineName(0);
    let variables = vec![
        (v1.clone(), DecisionVariable { domain: Domain::BoolDomain }),
        (v0.clone(), DecisionVariable { domain: Domain::BoolDomain }),
    ];
    let clause = Expression::Or(
        Metadata::new(),
        vec![
            Expression::Reference(Metadata::new(), v1),
            Expression::Not(Metadata::new(), Box::new(Expression::Reference(Metadata::new(), v0))),
        ],
    );
    let m = Model::new(variables, Expression::And(Metadata::new(), vec![clause]));
    assert_eq!(instantiate_model_from_conjure(m).unwrap(), vec![vec![1, 1]]);
}

#[test]
fn instantiate_model_rejects_integer_domains() {
    let x = Name::UserName(String::from("x"));
    let variables =
        vec![(x.clone(), DecisionVariable { domain: Domain::IntDomain(vec![Range::Bounded(1, 2)]) })];
    let m = Model::new(variables, Expression::And(Metadata::new(), Vec::new()));
    assert_eq!(
        instantiate_model_from_conjure(m),
        Err(SolverError::ModelFeatureNotSupported(CNFError::BadVariableType(x)))
    );
}
