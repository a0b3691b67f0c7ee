use query_sat::Formula;
use query_sat::Query;
use query_sat::to_formula;

#[test]
fn renders_reader_writer_compilation() {
    let (f, vars) = to_formula(vec![
        Query::ReadComponent("T"),
        Query::WriteComponent("T"),
    ]);
    assert_eq!(
        f.display(&vars).to_text(),
        "T(0,false) \u{2227} T(0,true) \u{2227} \u{00ac}(T(0,true) \u{2227} T(0,false))"
    );
}

#[test]
fn renders_nested_connectives() {
    let (f, vars) = to_formula(vec![Query::All(vec![
        Query::Any(vec![Query::ReadComponent("A"), Query::ReadComponent("B")]),
        Query::Without("C"),
    ])]);
    assert_eq!(
        f.display(&vars).to_text(),
        "A(0,false) \u{2228} B(0,false) \u{2227} \u{00ac}C(0,false)"
    );
}

#[test]
fn renders_conjunction_under_negation_with_parentheses() {
    let (f, vars) = to_formula(vec![
        Query::WriteComponent("T"),
        Query::WriteComponent("T"),
    ]);
    assert_eq!(
        f.display(&vars).to_text(),
        "T(0,true) \u{2227} T(1,true) \u{2227} \u{00ac}(T(0,true) \u{2227} T(1,true)) \u{2227} \u{00ac}(T(1,true) \u{2227} T(0,true))"
    );
}

#[test]
fn renders_multi_digit_slot_indices() {
    let mut queries = Vec::new();
    for _ in 0..12 {
        queries.push(Query::ReadComponent("T"));
    }
    let (f, vars) = to_formula(queries);
    let text = f.display(&vars).to_text();
    assert!(text.ends_with("T(11,false)"));
    assert!(text.contains("T(10,false)"));
}
