use data_dict::join_expr::{JoinExpr, JoinOp};

fn parse(s: &str) -> JoinExpr {
    JoinExpr::parse(s)
        .unwrap_or_else(|e| panic!("parse({s:?}) failed: {} at {}", e.message, e.at))
}

#[test]
fn simple_equality() {
    let j = parse("food.fdc_id = food_nutrient.fdc_id");
    assert_eq!(j.conjuncts.len(), 1);
    assert_eq!(j.conjuncts[0].lhs.table, "food");
    assert_eq!(j.conjuncts[0].lhs.column, "fdc_id");
    assert_eq!(j.conjuncts[0].op, JoinOp::Eq);
    assert_eq!(j.conjuncts[0].rhs.table, "food_nutrient");
    assert_eq!(j.tables(), vec!["food", "food_nutrient"]);
}

#[test]
fn self_join() {
    let j = parse("otters.pup_number = otters.otter_no");
    assert_eq!(j.tables(), vec!["otters"]);
}

#[test]
fn multi_conjunct_with_and() {
    let j = parse("t1.date >= t2.start AND t1.date <= t2.end");
    assert_eq!(j.conjuncts.len(), 2);
    assert_eq!(j.conjuncts[0].op, JoinOp::Ge);
    assert_eq!(j.conjuncts[1].op, JoinOp::Le);
    assert_eq!(j.tables(), vec!["t1", "t2"]);
}

#[test]
fn and_is_case_insensitive() {
    let j = parse("a.x = b.y and a.z = b.w");
    assert_eq!(j.conjuncts.len(), 2);
}

#[test]
fn leading_and_trailing_whitespace() {
    let j = parse("  a.x = b.y  ");
    assert_eq!(j.conjuncts.len(), 1);
}

#[test]
fn accepts_double_equals() {
    // `==` is an alternate spelling of `=`. Useful because most
    // programming languages spell equality that way and the linter
    // shouldn't punish that habit.
    let j = parse("food.fdc_id == food_nutrient.fdc_id");
    assert_eq!(j.conjuncts.len(), 1);
    assert_eq!(j.conjuncts[0].op, JoinOp::Eq);
}

#[test]
fn rejects_missing_dot() {
    let err = JoinExpr::parse("food = food_nutrient.fdc_id").unwrap_err();
    assert!(err.message.contains('.'));
}

#[test]
fn rejects_unknown_operator() {
    let err = JoinExpr::parse("a.x ~ b.y").unwrap_err();
    assert!(err.message.contains('='));
}

#[test]
fn rejects_trailing_and() {
    let err = JoinExpr::parse("a.x = b.y AND").unwrap_err();
    // After consuming `AND`, the parser tries to read a qcol.
    assert!(err.message.contains("identifier"));
}

#[test]
fn rejects_andante_as_and() {
    // The bare keyword check must not greedily match identifier prefixes.
    let err = JoinExpr::parse("a.x = b.y andante c.z = d.w").unwrap_err();
    assert!(err.message.contains("AND"));
}

#[test]
fn qcol_byte_spans_are_correct() {
    let s = "food.fdc_id = food_nutrient.fdc_id";
    let j = JoinExpr::parse(s).unwrap();
    let lhs = &j.conjuncts[0].lhs;
    assert_eq!(&s[lhs.start..lhs.end], "food.fdc_id");
    let rhs = &j.conjuncts[0].rhs;
    assert_eq!(&s[rhs.start..rhs.end], "food_nutrient.fdc_id");
}

#[test]
fn all_operators_parse() {
    let cases = [
        ("a.x = b.y", JoinOp::Eq),
        ("a.x == b.y", JoinOp::Eq),
        ("a.x >= b.y", JoinOp::Ge),
        ("a.x <= b.y", JoinOp::Le),
        ("a.x > b.y", JoinOp::Gt),
        ("a.x < b.y", JoinOp::Lt),
    ];
    for (s, op) in cases {
        let j = parse(s);
        assert_eq!(j.conjuncts[0].op, op, "operator mismatch for {s:?}");
    }
}

#[test]
fn two_char_operators_are_not_split() {
    // `>=` must win over `>`, otherwise the trailing `=` would be left for
    // the rhs qcol parse and the operator would be wrong.
    assert_eq!(parse("a.x >= b.y").conjuncts[0].op, JoinOp::Ge);
    assert_eq!(parse("a.x <= b.y").conjuncts[0].op, JoinOp::Le);
}

#[test]
fn whitespace_around_operator_is_optional() {
    let j = parse("a.x=b.y");
    assert_eq!(j.conjuncts.len(), 1);
    assert_eq!(j.conjuncts[0].lhs.column, "x");
    assert_eq!(j.conjuncts[0].op, JoinOp::Eq);
    assert_eq!(j.conjuncts[0].rhs.column, "y");
}

#[test]
fn three_conjuncts() {
    let j = parse("a.x = b.y AND c.z = d.w AND e.p = f.q");
    assert_eq!(j.conjuncts.len(), 3);
    assert_eq!(j.tables(), vec!["a", "b", "c", "d", "e", "f"]);
}

#[test]
fn tables_dedup_in_first_appearance_order() {
    // `b` and `a` reappear in the second conjunct but must not be repeated.
    let j = parse("a.x = b.y AND b.z = a.w");
    assert_eq!(j.tables(), vec!["a", "b"]);
}

#[test]
fn qcols_yields_all_refs_in_source_order() {
    let j = parse("a.x = b.y AND c.z = d.w");
    let cols: Vec<(&str, &str)> = j
        .qcols()
        .iter()
        .map(|q| (q.table.as_str(), q.column.as_str()))
        .collect();
    assert_eq!(cols, vec![("a", "x"), ("b", "y"), ("c", "z"), ("d", "w")]);
}

#[test]
fn identifiers_may_contain_digits_underscores_and_leading_underscore() {
    let j = parse("_t1.col_2 = T_3.x9");
    assert_eq!(j.conjuncts[0].lhs.table, "_t1");
    assert_eq!(j.conjuncts[0].lhs.column, "col_2");
    assert_eq!(j.conjuncts[0].rhs.table, "T_3");
    assert_eq!(j.conjuncts[0].rhs.column, "x9");
}

#[test]
fn rejects_empty_input() {
    let err = JoinExpr::parse("").unwrap_err();
    assert!(err.message.contains("identifier"));
    assert_eq!(err.at, 0);
}

#[test]
fn rejects_whitespace_only_input() {
    let err = JoinExpr::parse("   ").unwrap_err();
    assert!(err.message.contains("identifier"));
}

#[test]
fn rejects_identifier_starting_with_digit() {
    let err = JoinExpr::parse("1a.x = b.y").unwrap_err();
    assert!(err.message.contains("identifier"));
}

#[test]
fn rejects_missing_column_after_dot() {
    let err = JoinExpr::parse("a. = b.y").unwrap_err();
    assert!(err.message.contains("identifier"));
}

#[test]
fn rejects_missing_operator() {
    // After the lhs qcol the parser expects an operator, not another qcol.
    let err = JoinExpr::parse("a.x b.y").unwrap_err();
    assert!(err.message.contains('='));
}

#[test]
fn rejects_missing_rhs() {
    let err = JoinExpr::parse("a.x =").unwrap_err();
    assert!(err.message.contains("identifier"));
}

#[test]
fn rejects_two_conjuncts_without_and() {
    // A second conjunct must be separated by `AND`; bare juxtaposition is
    // an error pointing at the missing keyword.
    let err = JoinExpr::parse("a.x = b.y c.z = d.w").unwrap_err();
    assert!(err.message.contains("AND"));
}

#[test]
fn error_offset_points_at_failing_token() {
    // The unknown operator sits at byte 4.
    let err = JoinExpr::parse("a.x ~ b.y").unwrap_err();
    assert_eq!(err.at, 4);
}


#[test]
fn qualified_columns_follow_one_another_through_the_text() {
    let j = parse("b.y = a.x AND  c.z >= b.w");
    let qs = j.qcols();
    assert_eq!(qs.len(), 4);
    for pair in qs.windows(2) {
        assert!(pair[0].start < pair[0].end && pair[0].end <= pair[1].start);
    }
    assert_eq!(j.tables(), vec!["b", "a", "c"]);
    let e = JoinExpr::parse("a.x = b.").unwrap_err();
    assert!(e.at <= "a.x = b.".len());
}
