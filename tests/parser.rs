use cost_lang::{
    condition, condition_with_depth, document, document_prefix, document_with_depth, linear_expression,
    linear_expression_with_depth, statement, statement_with_depth, where_clause, EvalError,
    Int, ParseError, TopLevelQueryItem, Value, Vars,
};

fn no_vars() -> Vars {
    Vars::new()
}

fn int_vars(bindings: &[(&str, i64)]) -> Vars {
    let mut v = Vars::new();
    for (name, value) in bindings {
        v.insert(name, Value::Int(Int::from_i64(*value)));
    }
    v
}

fn assert_expr(s: &str, expect: i64, v: Vars) {
    let (expr, end) = linear_expression(s).unwrap();
    assert_eq!(end, s.chars().count());
    assert_eq!(expr.eval(&v), Ok(Int::from_i64(expect)));
}

fn assert_clause(s: &str, expect: bool, v: Vars) {
    let (clause, end) = where_clause(s).unwrap();
    assert_eq!(end, s.chars().count());
    assert_eq!(clause.condition.eval(&v), Ok(expect));
}

fn eval_expr(s: &str, v: &Vars) -> Result<Int, EvalError> {
    let (expr, end) = linear_expression(s).unwrap();
    assert_eq!(end, s.chars().count());
    expr.eval(v)
}

#[test]
fn binary_expr() {
    assert_expr("1 + 2", 3, no_vars());
}

#[test]
fn operator_precedence() {
    assert_expr("1 + 10 * 2", 21, no_vars());
    assert_expr("10 * 2 + 1", 21, no_vars());
}

#[test]
fn parenthesis() {
    assert_expr("(1 + 10) * 2", 22, no_vars());
}

#[test]
fn where_clauses() {
    assert_clause("where 1 > 2", false, no_vars());
    assert_clause("where $a == $b", true, int_vars(&[("a", 2), ("b", 2)]));
    assert!(where_clause("where .").is_err());
}

#[test]
fn left_to_right_booleans() {
    assert_clause("where true || 1 == 0 && false", false, no_vars());
    let mut v = Vars::new();
    v.insert("a", Value::Bool(true));
    assert_clause("where 1 == 0 && 1 == 0 || $a", true, v);
}

#[test]
fn where_parens() {
    assert_clause("where ($a != $a)", false, int_vars(&[("a", 1)]));
    assert_clause("where (1 == 0 && 1 == 1) || 1 == 1", true, no_vars());
}

#[test]
fn statements() {
    assert!(statement("query { users(skip: $skip) { tokens } } where 5 == 5 => 1;").is_ok())
}

#[test]
fn doc() {
    let file = "
        query { users(skip: $skip) { tokens } } where $skip > 1000 => 100 + $skip * 10;
        query { users(name: \"Bob\") { tokens } } => 999999; # Bob is evil
        ";

    let _ = document(file);
}

#[test]
fn statement_keeps_selection_and_guard() {
    let (st, end) =
        statement("query { users(skip: $skip) { tokens } } where 5 == 5 => 1;").unwrap();
    assert_eq!(end, 58);
    assert!(matches!(st.predicate.graphql, TopLevelQueryItem::Selection(_)));
    let guard = st.predicate.where_clause.unwrap();
    assert_eq!(guard.condition.eval(&no_vars()), Ok(true));
    assert_eq!(st.cost_expr.eval(&no_vars()), Ok(Int::from_i64(1)));
}

#[test]
fn statement_without_guard() {
    let (st, _) = statement("query { a } => 7;").unwrap();
    assert!(st.predicate.where_clause.is_none());
    assert_eq!(st.cost_expr.eval(&no_vars()), Ok(Int::from_i64(7)));
}

#[test]
fn statement_rejects_unsupported_queries() {
    assert!(statement("query Named { a } => 1;").is_err());
    assert!(statement("query ($v: Int) { a } => 1;").is_err());
    assert!(statement("mutation { a } => 1;").is_err());
    assert!(statement("{ a } => 1;").is_err());
    assert!(statement("subscription { a } => 1;").is_err());
    assert!(statement("fragment F on T { a } => 1;").is_err());
    assert!(statement("query @d { a } => 1;").is_err());
    assert!(statement("query { a } => 1").is_err());
    assert!(statement("query { a } =>1;").is_err());
}

#[test]
fn document_reads_statements_in_order() {
    let text = "query { a } => 1;\nquery { b } where $x > 2 => $x * 10;\n";
    let (d, end) = document_prefix(text);
    assert_eq!(d.statements.len(), 2);
    assert_eq!(end, text.chars().count());
    let v = int_vars(&[("x", 3)]);
    assert_eq!(d.statements[1].cost_expr.eval(&v), Ok(Int::from_i64(30)));
    let guard = d.statements[1].predicate.where_clause.as_ref().unwrap();
    assert_eq!(guard.condition.eval(&v), Ok(true));
}

#[test]
fn document_stops_at_unparsable_text() {
    let text = "query { a } => 1; garbage";
    let (d, end) = document_prefix(text);
    assert_eq!(d.statements.len(), 1);
    assert_eq!(end, 18);
    assert_eq!(document(text).unwrap_err(), ParseError { position: 18 });
    assert!(document("query { a } => 1;").is_ok());
}

#[test]
fn empty_document() {
    let (d, end) = document_prefix("");
    assert_eq!(d.statements.len(), 0);
    assert_eq!(end, 0);
    assert!(document("").is_ok());
}

#[test]
fn subtraction_and_division_associate_left() {
    assert_expr("10 - 3 - 2", 5, no_vars());
    assert_expr("16 / 4 / 2", 2, no_vars());
    assert_expr("2 * 3 - 4 / 2", 4, no_vars());
    assert_expr("1-2", -1, no_vars());
}

#[test]
fn mixed_runs_associate_left() {
    assert_expr("10 - 2 + 3", 11, no_vars());
    assert_expr("8 / 2 * 2", 8, no_vars());
    assert_expr("1 + 2 * 6 / 3 - 4 + 1", 2, no_vars());
    assert_expr("20 / 2 / 5 * 3 - 1 - 1 + 2", 6, no_vars());
}

#[test]
fn document_reports_trailing_text() {
    let text = "query { a } => 1;\ngarbage;";
    assert_eq!(document(text).unwrap_err(), ParseError { position: 18 });
    let (d, end) = document_prefix(text);
    assert_eq!(d.statements.len(), 1);
    assert_eq!(end, 18);
    let whole = document("query { a } => 1;\nquery { b } => 2;\n").unwrap();
    assert_eq!(whole.statements.len(), 2);
}

#[test]
fn negative_literals_and_variables() {
    assert_expr("-5 + 2", -3, no_vars());
    assert_expr("$x * -3", -12, int_vars(&[("x", 4)]));
    assert_expr("$_y2 + 1", 8, int_vars(&[("_y2", 7)]));
}

#[test]
fn division_rounds_toward_zero() {
    assert_expr("-7 / 2", -3, no_vars());
    assert_expr("7 / -2", -3, no_vars());
    assert_expr("7 / 2", 3, no_vars());
}

#[test]
fn division_by_zero_is_an_error() {
    assert_eq!(eval_expr("1 / 0", &no_vars()), Err(EvalError::DivisionByZero));
    assert_eq!(eval_expr("1 / ($a - $a)", &int_vars(&[("a", 5)])), Err(EvalError::DivisionByZero));
}

#[test]
fn unknown_variable_and_type_mismatch() {
    assert_eq!(eval_expr("$missing + 1", &no_vars()), Err(EvalError::UnknownVariable));
    let mut v = Vars::new();
    v.insert("flag", Value::Bool(true));
    assert_eq!(eval_expr("$flag + 1", &v), Err(EvalError::TypeMismatch));
    let (c, _) = condition("$n").unwrap();
    assert_eq!(c.eval(&int_vars(&[("n", 1)])), Err(EvalError::TypeMismatch));
    assert_eq!(c.eval(&no_vars()), Err(EvalError::UnknownVariable));
}

#[test]
fn later_binding_shadows_earlier() {
    assert_expr("$a", 9, int_vars(&[("a", 1), ("a", 9)]));
}

#[test]
fn large_integers() {
    let big = "100000000000000000000";
    let (e, _) = linear_expression(&format!("{} * {} - {}", big, big, big)).unwrap();
    let (expected, _) = linear_expression("9999999999999999999900000000000000000000").unwrap();
    assert_eq!(e.eval(&no_vars()), expected.eval(&no_vars()));
    assert_ne!(e.eval(&no_vars()), Ok(Int::from_i64(0)));
    let (c, _) = condition(&format!("{} > 99999999999999999999", big)).unwrap();
    assert_eq!(c.eval(&no_vars()), Ok(true));
}

#[test]
fn comparison_operators() {
    let cases = [
        ("1 == 1", true),
        ("1 != 1", false),
        ("2 >= 2", true),
        ("2 <= 1", false),
        ("3 > 2", true),
        ("3 < 2", false),
        ("1<2", true),
    ];
    for (text, expect) in cases {
        let (c, end) = condition(text).unwrap();
        assert_eq!(end, text.chars().count());
        assert_eq!(c.eval(&no_vars()), Ok(expect), "{}", text);
    }
}

#[test]
fn nesting_depth_is_bounded() {
    let ok = format!("{}1{}", "(".repeat(32), ")".repeat(32));
    let (_, end) = linear_expression(&ok).unwrap();
    assert_eq!(end, ok.chars().count());
    let deep = format!("{}1{}", "(".repeat(33), ")".repeat(33));
    assert!(linear_expression(&deep).is_err());
}

#[test]
fn expression_stops_before_unreadable_text() {
    let (e, end) = linear_expression("1 + 2 ;").unwrap();
    assert_eq!(end, 5);
    assert_eq!(e.eval(&no_vars()), Ok(Int::from_i64(3)));
    let (_, end) = linear_expression("4 + ").unwrap();
    assert_eq!(end, 1);
    assert!(linear_expression("x").is_err());
}

#[test]
fn evaluation_is_repeatable() {
    let (e, _) = linear_expression("$a * 3 + 1").unwrap();
    let v = int_vars(&[("a", 5)]);
    assert_eq!(e.eval(&v), e.eval(&v));
    assert_eq!(e.eval(&v), Ok(Int::from_i64(16)));
}

#[test]
fn parsing_is_repeatable() {
    let text = "query { a } where ($x > 1 || true) && $y => ($x + 1) * 2;";
    let (d1, e1) = document_prefix(text);
    let (d2, e2) = document_prefix(text);
    assert_eq!(e1, e2);
    assert_eq!(format!("{:?}", d1), format!("{:?}", d2));
}

#[test]
fn cost_expression_parses_the_same_alone() {
    let text = "query { users(skip: $skip) { tokens } } where $skip > 1000 => 100 + $skip * 10;";
    let (st, _) = statement(text).unwrap();
    let (alone, end) = linear_expression("100 + $skip * 10").unwrap();
    assert_eq!(end, 16);
    assert_eq!(format!("{:?}", st.cost_expr), format!("{:?}", alone));
    let start = text.find("=> ").unwrap() + 3;
    let (from_start, _) = linear_expression(&text[start..]).unwrap();
    assert_eq!(format!("{:?}", from_start), format!("{:?}", alone));
    let v = int_vars(&[("skip", 5)]);
    assert_eq!(st.cost_expr.eval(&v), Ok(Int::from_i64(150)));
}

#[test]
fn depth_limit_is_configurable() {
    assert!(linear_expression_with_depth("((1))", 2).is_ok());
    assert!(linear_expression_with_depth("((1))", 1).is_err());
    assert!(condition_with_depth("((true))", 1).is_err());
    assert!(condition_with_depth("((true))", 2).is_ok());
    let text = "query { a } where ((1 == 1)) => ((2));";
    assert!(statement_with_depth(text, 2).is_ok());
    assert!(statement_with_depth(text, 1).is_err());
    assert!(document_with_depth(text, 2).is_ok());
    assert_eq!(document_with_depth(text, 1).unwrap_err(), ParseError { position: 0 });
}

#[test]
fn int_equality_compares_values() {
    let negative_zero = Int { negative: true, magnitude: vec![] };
    assert_eq!(negative_zero, Int::from_i64(0));
    assert_eq!(Int { negative: false, magnitude: vec![5, 0, 0] }, Int::from_i64(5));
    assert_ne!(Int::from_i64(5), Int::from_i64(-5));
}

#[test]
fn prefix_parsers_report_position() {
    assert_eq!(linear_expression("x").unwrap_err(), ParseError { position: 0 });
    assert_eq!(condition("?").unwrap_err(), ParseError { position: 0 });
    assert_eq!(where_clause("where .").unwrap_err(), ParseError { position: 0 });
    assert_eq!(statement("nothing").unwrap_err(), ParseError { position: 0 });
}
