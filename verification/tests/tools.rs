use ezsql::tools::{to_snake_case, Condition, Order, SqlType, SqlTypeExt};

#[test]
fn util_test() {
    assert_eq!(to_snake_case("_abcde"), String::from("abcde"));
    assert_eq!(to_snake_case("_Abcde"), String::from("abcde"));
    assert_eq!(to_snake_case("_A_BcDe"), String::from("a_bc_de"));
    assert_eq!(to_snake_case("A_Bcde"), String::from("a_bcde"));
    assert_eq!(to_snake_case("A_bCde"), String::from("a_b_cde"));
    assert_eq!(to_snake_case("AbCde"), String::from("ab_cde"));
    assert_eq!(to_snake_case("A1bCde"), String::from("a1b_cde"));
    assert_eq!(to_snake_case("Ab2Cde"), String::from("ab2_cde"));
}

#[test]
fn lib_test() {
    assert_eq!(to_snake_case("_abcde"), String::from("abcde"));
    assert_eq!(to_snake_case("_Abcde"), String::from("abcde"));
    assert_eq!(to_snake_case("_A_BcDe"), String::from("a_bc_de"));
    assert_eq!(to_snake_case("A_Bcde"), String::from("a_bcde"));
    assert_eq!(to_snake_case("A_bCde"), String::from("a_b_cde"));
    assert_eq!(to_snake_case("AbCde"), String::from("ab_cde"));
    assert_eq!(to_snake_case("A1bCde"), String::from("a1b_cde"));
    assert_eq!(to_snake_case("Ab2Cde"), String::from("ab2_cde"));
}

#[test]
fn util_test1() {
    let sql_type = SqlType::match_type("UPDATE");
    let x = sql_type.get_value();
    println!("{x}");
    assert_eq!(x, "UPDATE");
}

#[test]
fn lib_test1() {
    let sql_type = SqlType::match_type("UPDATE");
    let x = sql_type.get_value();
    println!("{x}");
    assert_eq!(x, "UPDATE");
}

#[test]
fn snake_case_edges() {
    assert_eq!(to_snake_case(""), "");
    assert_eq!(to_snake_case("_"), "");
    assert_eq!(to_snake_case("ABC"), "a_b_c");
    assert_eq!(to_snake_case("aBC"), "a_b_c");
    assert_eq!(to_snake_case("__a"), "a");
    assert_eq!(to_snake_case("__Ab"), "ab");
    assert_eq!(to_snake_case("déjàVu"), "déjà_vu");
}

#[test]
fn snake_case_no_capital_and_idempotent() {
    for s in ["HelloWorld", "_A_BcDe", "already_snake", "X", "a_B", "_x"] {
        let once = to_snake_case(s);
        assert!(!once.chars().any(|c| c.is_ascii_uppercase()));
        assert!(!once.starts_with('_'));
        assert_eq!(to_snake_case(&once), once);
    }
    assert_eq!(to_snake_case("already_snake"), "already_snake");
}

#[test]
fn condition_symbols() {
    assert_eq!(Condition::match_type("="), Condition::EQ);
    assert_eq!(Condition::match_type("<"), Condition::LT);
    assert_eq!(Condition::match_type(">"), Condition::GT);
    assert_eq!(Condition::match_type("<="), Condition::EqLt);
    assert_eq!(Condition::match_type("=<"), Condition::EqLt);
    assert_eq!(Condition::match_type(">="), Condition::EqGt);
    assert_eq!(Condition::match_type("=>"), Condition::EqGt);
    assert_eq!(Condition::match_type("!="), Condition::NEQ);
    assert_eq!(Condition::EqLt.get_value(), "<=");
    assert_eq!(Condition::EqGt.get_value(), ">=");
    for c in [Condition::EQ, Condition::LT, Condition::GT, Condition::EqLt, Condition::EqGt, Condition::NEQ] {
        assert_eq!(Condition::match_type(c.get_value()), c);
    }
}

#[test]
fn keyword_round_trips_ignore_case() {
    assert_eq!(SqlType::match_type("create"), SqlType::CREATE);
    assert_eq!(SqlType::match_type("ReAd"), SqlType::READ);
    assert_eq!(SqlType::match_type("delete"), SqlType::DELETE);
    for t in [SqlType::CREATE, SqlType::READ, SqlType::UPDATE, SqlType::DELETE] {
        assert_eq!(SqlType::match_type(t.get_value()), t);
    }
    assert_eq!(SqlTypeExt::match_type("batch"), SqlTypeExt::BATCH);
    assert_eq!(SqlTypeExt::match_type("Single").get_value(), "SINGLE");
    assert_eq!(Order::match_type("desc"), Order::DESC);
    assert_eq!(Order::match_type("ASC").get_value(), "ASC");
}
