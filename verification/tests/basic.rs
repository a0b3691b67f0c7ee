use query_sat::Formula;
use query_sat::Query;
use query_sat::Variable;
use query_sat::compile::to_formula;

fn var(component: &'static str, index: usize, mutable: bool) -> Variable {
    Variable { component, index, mutable }
}

#[test]
fn two_readers_same_component() {
    let (f, vars) = to_formula(vec![
        Query::ReadComponent("T"),
        Query::ReadComponent("T"),
    ]);
    assert_eq!(vars.len(), 2);
    assert_eq!(vars.get_index(0), Some(&var("T", 0, false)));
    assert_eq!(vars.get_index(1), Some(&var("T", 1, false)));
    let expected = Formula::And(vec![Formula::And(vec![Formula::Var(0), Formula::Var(1)])]);
    assert_eq!(f, expected);
    assert_eq!(f.compute_assignment(&vars), Some(vec![true, true]));
}

#[test]
fn reader_then_writer_same_component() {
    let (f, vars) = to_formula(vec![
        Query::ReadComponent("T"),
        Query::WriteComponent("T"),
    ]);
    assert_eq!(vars.len(), 2);
    assert_eq!(vars.get_index(0), Some(&var("T", 0, false)));
    assert_eq!(vars.get_index(1), Some(&var("T", 0, true)));
    let expected = Formula::And(vec![
        Formula::And(vec![Formula::Var(0), Formula::Var(1)]),
        Formula::Neg(Box::new(Formula::And(vec![
            Formula::Var(1),
            Formula::Or(vec![Formula::Var(0)]),
        ]))),
    ]);
    assert_eq!(f, expected);
    // both query variables are forced true by the top-level conjunction,
    // and the mutual-exclusion constraint forbids exactly that
    assert_eq!(f.compute_assignment(&vars), None);
}

#[test]
fn writer_then_reader_same_component() {
    let (f, vars) = to_formula(vec![
        Query::WriteComponent("T"),
        Query::ReadComponent("T"),
    ]);
    assert_eq!(vars.len(), 2);
    assert_eq!(vars.get_index(0), Some(&var("T", 0, true)));
    assert_eq!(vars.get_index(1), Some(&var("T", 0, false)));
    let expected = Formula::And(vec![
        Formula::And(vec![Formula::Var(0), Formula::Var(1)]),
        Formula::Neg(Box::new(Formula::And(vec![
            Formula::Var(0),
            Formula::Or(vec![Formula::Var(1)]),
        ]))),
    ]);
    assert_eq!(f, expected);
    // structurally different from the reader-first order, same verdict
    let (g, _) = to_formula(vec![
        Query::ReadComponent("T"),
        Query::WriteComponent("T"),
    ]);
    assert_ne!(f, g);
    assert_eq!(f.compute_assignment(&vars), None);
}

#[test]
fn empty_query_sequence() {
    let (f, vars) = to_formula(vec![]);
    assert_eq!(vars.len(), 0);
    assert_eq!(f, Formula::And(vec![Formula::And(vec![])]));
    assert_eq!(f.compute_assignment(&vars), Some(vec![]));
}

#[test]
fn two_writers_same_component() {
    let (f, vars) = to_formula(vec![
        Query::WriteComponent("T"),
        Query::WriteComponent("T"),
    ]);
    assert_eq!(vars.len(), 2);
    assert_eq!(vars.get_index(0), Some(&var("T", 0, true)));
    assert_eq!(vars.get_index(1), Some(&var("T", 1, true)));
    assert_eq!(f.compute_assignment(&vars), None);
}

#[test]
fn three_readers_satisfied_all_true() {
    let (f, vars) = to_formula(vec![
        Query::ReadComponent("T"),
        Query::ReadComponent("T"),
        Query::ReadComponent("T"),
    ]);
    assert_eq!(f.compute_assignment(&vars), Some(vec![true, true, true]));
}

#[test]
fn single_reader_and_single_writer_each_satisfiable() {
    let (f, vars) = to_formula(vec![Query::ReadComponent("T")]);
    assert_eq!(f.compute_assignment(&vars), Some(vec![true]));
    let (g, wars) = to_formula(vec![Query::WriteComponent("T")]);
    assert_eq!(g.compute_assignment(&wars), Some(vec![true]));
}

#[test]
fn without_query_satisfied_by_denial() {
    let (f, vars) = to_formula(vec![Query::Without("A")]);
    assert_eq!(vars.len(), 1);
    assert_eq!(vars.get_index(0), Some(&var("A", 0, false)));
    assert_eq!(
        f,
        Formula::And(vec![Formula::And(vec![Formula::Neg(Box::new(Formula::Var(0)))])])
    );
    // the enumeration starts at all-false, which already satisfies it
    assert_eq!(f.compute_assignment(&vars), Some(vec![false]));
}

#[test]
fn readers_of_distinct_components() {
    let (f, vars) = to_formula(vec![
        Query::ReadComponent("A"),
        Query::ReadComponent("B"),
    ]);
    assert_eq!(vars.get_index(0), Some(&var("A", 0, false)));
    assert_eq!(vars.get_index(1), Some(&var("B", 0, false)));
    assert_eq!(f.compute_assignment(&vars), Some(vec![true, true]));
}

#[test]
fn compilation_is_deterministic() {
    let queries = || {
        vec![
            Query::All(vec![
                Query::Any(vec![Query::ReadComponent("A"), Query::ReadComponent("C")]),
                Query::WriteComponent("B"),
            ]),
            Query::All(vec![Query::WriteComponent("B"), Query::Without("A")]),
        ]
    };
    let (f1, v1) = to_formula(queries());
    let (f2, v2) = to_formula(queries());
    assert_eq!(f1, f2);
    assert_eq!(v1.len(), v2.len());
    for i in 0..v1.len() {
        assert_eq!(v1.get_index(i), v2.get_index(i));
    }
}

#[test]
fn nested_queries_with_conflicting_writers() {
    let (f, vars) = to_formula(vec![
        Query::All(vec![
            Query::Any(vec![Query::ReadComponent("A"), Query::ReadComponent("C")]),
            Query::WriteComponent("B"),
        ]),
        Query::All(vec![Query::WriteComponent("B"), Query::Without("A")]),
    ]);
    assert_eq!(vars.len(), 5);
    assert_eq!(vars.get_index(0), Some(&var("A", 0, false)));
    assert_eq!(vars.get_index(1), Some(&var("C", 0, false)));
    assert_eq!(vars.get_index(2), Some(&var("B", 0, true)));
    assert_eq!(vars.get_index(3), Some(&var("B", 1, true)));
    assert_eq!(vars.get_index(4), Some(&var("A", 1, false)));
    // both conjuncts demand exclusive access to B at distinct slots
    assert_eq!(f.compute_assignment(&vars), None);
}

#[test]
fn holds_evaluates_connectives() {
    assert!(Formula::And(vec![]).holds(&[]));
    assert!(!Formula::Or(vec![]).holds(&[]));
    assert!(Formula::Var(0).holds(&[true]));
    assert!(!Formula::Var(0).holds(&[false]));
    assert!(Formula::Neg(Box::new(Formula::Var(0))).holds(&[false]));
    assert!(
        Formula::And(vec![Formula::Var(0), Formula::Or(vec![Formula::Var(1), Formula::Var(2)])])
            .holds(&[true, false, true])
    );
    assert!(
        !Formula::And(vec![Formula::Var(0), Formula::Or(vec![Formula::Var(1), Formula::Var(2)])])
            .holds(&[true, false, false])
    );
}

#[test]
fn first_witness_in_enumeration_order() {
    // Or picks the lowest-numbered assignment that works: variable 0 set,
    // not variable 1, because counting starts at entry 0
    let (f, vars) = to_formula(vec![Query::Any(vec![
        Query::ReadComponent("A"),
        Query::ReadComponent("B"),
    ])]);
    assert_eq!(f.compute_assignment(&vars), Some(vec![true, false]));
}
