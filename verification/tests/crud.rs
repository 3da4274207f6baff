use ezsql::attr::{parse_attr, AttrErrorKind, AttrToken, Inner};
use ezsql::sql::{
    build_struct_to_table_field_map, plan_crud, CrudErrorKind, FnKind, FnPlan, StructInfo,
};
use ezsql::tools::{Condition, Order, SqlType, SqlTypeExt};

fn lex(chars: &[char], i: &mut usize, close: Option<char>) -> Vec<AttrToken> {
    let mut out = Vec::new();
    while *i < chars.len() {
        let c = chars[*i];
        if Some(c) == close {
            *i += 1;
            return out;
        }
        if c.is_whitespace() {
            *i += 1;
        } else if c == '"' {
            let start = *i;
            *i += 1;
            while chars[*i] != '"' {
                *i += 1;
            }
            *i += 1;
            out.push(AttrToken::Literal(chars[start..*i].iter().collect()));
        } else if c.is_ascii_digit() {
            let start = *i;
            while *i < chars.len() && chars[*i].is_ascii_digit() {
                *i += 1;
            }
            out.push(AttrToken::Literal(chars[start..*i].iter().collect()));
        } else if c.is_alphabetic() || c == '_' {
            let start = *i;
            while *i < chars.len() && (chars[*i].is_alphanumeric() || chars[*i] == '_') {
                *i += 1;
            }
            out.push(AttrToken::Ident(chars[start..*i].iter().collect()));
        } else if c == '[' || c == '{' || c == '(' {
            let end = match c {
                '[' => ']',
                '{' => '}',
                _ => ')',
            };
            *i += 1;
            out.push(AttrToken::Group(lex(chars, i, Some(end))));
        } else {
            *i += 1;
            out.push(AttrToken::Punct(c));
        }
    }
    out
}

fn tokens(s: &str) -> Vec<AttrToken> {
    let chars: Vec<char> = s.chars().collect();
    let mut i = 0;
    lex(&chars, &mut i, None)
}

fn info(name: &str, fields: &[&str]) -> StructInfo {
    StructInfo::new(name.to_string(), fields.iter().map(|f| f.to_string()).collect())
}

fn sql_of(plan: &FnPlan) -> &str {
    match &plan.kind {
        FnKind::Create(p) => &p.sql,
        FnKind::Read(p) => &p.sql,
        FnKind::Update(p) => &p.sql,
        FnKind::Delete(p) => &p.sql,
    }
}

const GMV_OAUTH_FIELDS: [&str; 7] = ["device_id", "domain_id", "domain", "pwd", "pwd_check", "alias", "status"];

#[test]
fn test12() {
    println!("res_type = {:?}", Inner::default().debug_string());
    assert_eq!(
        Inner::default().debug_string(),
        "Inner { fn_name: , sql_type: (READ:SINGLE), fields: None ,condition: None, page: None, order: None, res_type: Some(true), exist_update: None, pre_where_sql: None}"
    );
}

#[test]
fn test_test() {
    let attr = tokens(
        r#"table_name = "GMV_DEVICE_CHANNEL",
        funs = [
        {fn_name = "insert_batch_gmv_device_channel", sql_type = "create:batch", exist_update = "true"},
        ]"#,
    );
    let state = parse_attr(&attr).unwrap();
    let fields = [
        "device_id", "channel_id", "name", "manufacturer", "model", "owner", "status", "civil_code",
        "address", "parental", "block", "parent_id", "ip_address", "port", "password", "longitude",
        "latitude", "ptz_type", "supply_light_type", "alias_name",
    ];
    let plans = plan_crud(&state, &info("GmvDeviceChannel", &fields)).unwrap();
    assert_eq!(plans.len(), 1);
    assert_eq!(plans[0].fn_name, "insert_batch_gmv_device_channel");
    match &plans[0].kind {
        FnKind::Create(p) => {
            assert!(p.batch);
            let cols = fields.join(",");
            let vals: Vec<String> = fields.iter().map(|f| format!(":{f}")).collect();
            let dups: Vec<String> = fields.iter().map(|f| format!("{f}=VALUES({f})")).collect();
            assert_eq!(
                p.sql,
                format!(
                    "INSERT INTO GMV_DEVICE_CHANNEL ({cols}) VALUES ({}) ON DUPLICATE KEY UPDATE {}",
                    vals.join(","),
                    dups.join(",")
                )
            );
        }
        _ => panic!("a create was planned as something else"),
    }
}

#[test]
fn gmv_oauth_statements() {
    let attr = tokens(
        r#"table_name = "GMV_OAUTH",
        funs = [
        {fn_name = "add_gmv_oauth", sql_type = "create:single", exist_update = "true"},
        {fn_name = "add_gmv_oauth_by_batch", sql_type = "create:batch"},
        {fn_name = "delete_gmv_oauth", sql_type = "delete", condition = "device_id:=,domain_id:="},
        {fn_name = "update_gmv_oauth_pwd", sql_type = "update", fields = "pwd", condition = "device_id:=,domain_id:="},
        {fn_name = "read_gmv_oauth_single_all", sql_type = "read:single", condition = "device_id:=,domain_id:="},
        {fn_name = "read_gmv_oauth_single_pwd", sql_type = "read:single", fields = "pwd", condition = "device_id:=,domain_id:=", res_type = "false"},
        {fn_name = "read_gmv_oauth_batch_status", sql_type = "read:batch", condition = "status:=", order = "device_id:desc" page = "true", res_type = "true"},
        ]"#,
    );
    let state = parse_attr(&attr).unwrap();
    let plans = plan_crud(&state, &info("GmvOauth", &GMV_OAUTH_FIELDS)).unwrap();
    let names: Vec<&str> = plans.iter().map(|p| p.fn_name.as_str()).collect();
    assert_eq!(
        names,
        vec![
            "add_gmv_oauth",
            "add_gmv_oauth_by_batch",
            "delete_gmv_oauth",
            "update_gmv_oauth_pwd",
            "read_gmv_oauth_single_all",
            "read_gmv_oauth_single_pwd",
            "read_gmv_oauth_batch_status",
        ]
    );
    let sqls: Vec<&str> = plans.iter().map(sql_of).collect();
    assert_eq!(sqls[0], "INSERT INTO GMV_OAUTH (device_id,domain_id,domain,pwd,pwd_check,alias,status) VALUES (:device_id,:domain_id,:domain,:pwd,:pwd_check,:alias,:status) ON DUPLICATE KEY UPDATE device_id=VALUES(device_id),domain_id=VALUES(domain_id),domain=VALUES(domain),pwd=VALUES(pwd),pwd_check=VALUES(pwd_check),alias=VALUES(alias),status=VALUES(status)");
    assert_eq!(sqls[1], "INSERT INTO GMV_OAUTH (device_id,domain_id,domain,pwd,pwd_check,alias,status) VALUES (:device_id,:domain_id,:domain,:pwd,:pwd_check,:alias,:status)");
    assert_eq!(sqls[2], "DELETE FROM GMV_OAUTH WHERE device_id=:device_id AND domain_id=:domain_id");
    assert_eq!(sqls[3], "UPDATE GMV_OAUTH SET pwd=:pwd WHERE device_id=:c_device_id AND domain_id=:c_domain_id");
    assert_eq!(sqls[4], "SELECT device_id,domain_id,domain,pwd,pwd_check,alias,status FROM GMV_OAUTH WHERE device_id=:device_id AND domain_id=:domain_id");
    assert_eq!(sqls[5], "SELECT pwd FROM GMV_OAUTH WHERE device_id=:device_id AND domain_id=:domain_id");
    assert_eq!(sqls[6], "SELECT device_id,domain_id,domain,pwd,pwd_check,alias,status FROM GMV_OAUTH WHERE status=:status ORDER BY device_id DESC LIMIT :_limit_start, :_limit_end");
    match &plans[4].kind {
        FnKind::Read(p) => {
            assert!(!p.batch && p.into_struct && !p.fill_default && !p.limit_params);
            assert_eq!(p.params, vec!["device_id".to_string(), "domain_id".to_string()]);
        }
        _ => panic!("expected a read"),
    }
    match &plans[5].kind {
        FnKind::Read(p) => {
            assert!(!p.into_struct);
            assert_eq!(p.columns, Some(vec!["pwd".to_string()]));
        }
        _ => panic!("expected a read"),
    }
    match &plans[6].kind {
        FnKind::Read(p) => assert!(p.batch && p.limit_params && p.into_struct && !p.fill_default),
        _ => panic!("expected a read"),
    }
    match &plans[3].kind {
        FnKind::Update(p) => {
            assert_eq!(p.set_fields, vec!["pwd".to_string()]);
            assert_eq!(p.params, vec!["device_id".to_string(), "domain_id".to_string()]);
        }
        _ => panic!("expected an update"),
    }
}

#[test]
fn parsed_state_shows_its_arguments() {
    let attr = tokens(
        r#"table_name = "T", alias_fields = "userName:user_name, age:AGE", field_name_to_snake = "true",
        funs = [{fn_name = "r", sql_type = "read:batch", condition = "age:>=", order = "age:asc,userName:DESC", page = "true"}]"#,
    );
    let state = parse_attr(&attr).unwrap();
    assert_eq!(state.get_table_name(), "T");
    assert_eq!(*state.get_field_name_to_snake(), Some(true));
    let funs = state.get_funs();
    assert_eq!(funs.len(), 1);
    assert_eq!(*funs[0].get_sql_type(), (SqlType::READ, SqlTypeExt::BATCH));
    assert_eq!(*funs[0].get_condition(), Some(vec![("age".to_string(), Condition::EqGt)]));
    assert_eq!(
        *funs[0].get_order(),
        Some(vec![("age".to_string(), Order::ASC), ("userName".to_string(), Order::DESC)])
    );
    assert_eq!(
        state.debug_string(),
        "State { table_name: T, alias_fields: Some([{userName,user_name}, {age,AGE}]) ,field_name_to_snake: Some(true) ,funs: [Inner { fn_name: r, sql_type: (READ:BATCH), fields: None ,condition: Some([{age:>=}]), page: Some(true), order: Some([{age,ASC}, {userName,DESC}]), res_type: Some(true), exist_update: None, pre_where_sql: None}]}"
    );
}

#[test]
fn field_map_aliases_and_snake_case() {
    let attr = tokens(r#"table_name = "T", alias_fields = "userName:uname", field_name_to_snake = "true""#);
    let state = parse_attr(&attr).unwrap();
    let map = build_struct_to_table_field_map(&state, &info("S", &["userName", "createdAt", "id"]));
    let pairs: Vec<(String, String)> = map.iter().map(|(k, v)| (k.clone(), v.clone())).collect();
    assert_eq!(
        pairs,
        vec![
            ("userName".to_string(), "uname".to_string()),
            ("createdAt".to_string(), "created_at".to_string()),
            ("id".to_string(), "id".to_string()),
        ]
    );
    let attr = tokens(r#"table_name = "T""#);
    let state = parse_attr(&attr).unwrap();
    let map = build_struct_to_table_field_map(&state, &info("S", &["createdAt"]));
    assert_eq!(map.get("createdAt").map(|s| s.as_str()), Some("createdAt"));
}

#[test]
fn read_with_aliases_head_and_defaults() {
    let attr = tokens(
        r#"table_name = "T", alias_fields = "a:col_a",
        funs = [{fn_name = "some", sql_type = "read:single", fields = "a", condition = "b:!=", order = "a:desc"},
                {fn_name = "count", sql_type = "read:batch", pre_where_sql = "SELECT count(*)", condition = "b:=<"}]"#,
    );
    let state = parse_attr(&attr).unwrap();
    let plans = plan_crud(&state, &info("S", &["a", "b"])).unwrap();
    match &plans[0].kind {
        FnKind::Read(p) => {
            assert_eq!(p.sql, "SELECT col_a a FROM T WHERE b!=:b ORDER BY col_a DESC");
            assert!(p.into_struct && p.fill_default && !p.batch);
        }
        _ => panic!("expected a read"),
    }
    match &plans[1].kind {
        FnKind::Read(p) => {
            assert_eq!(p.sql, "SELECT count(*) FROM T WHERE b<=:b");
            assert_eq!(p.columns, None);
            assert!(!p.into_struct && p.batch && !p.limit_params);
        }
        _ => panic!("expected a read"),
    }
}

#[test]
fn later_value_of_a_repeated_key_wins_in_place() {
    let attr = tokens(r#"funs = [{sql_type = "read:single, read:batch", condition = "a:=,b:<,a:>"}]"#);
    let state = parse_attr(&attr).unwrap();
    let f = &state.get_funs()[0];
    assert_eq!(*f.get_sql_type(), (SqlType::READ, SqlTypeExt::BATCH));
    assert_eq!(
        *f.get_condition(),
        Some(vec![("a".to_string(), Condition::GT), ("b".to_string(), Condition::LT)])
    );
}

fn attr_error_of(s: &str) -> (AttrErrorKind, String) {
    let e = parse_attr(&tokens(s)).err().expect("an error");
    (e.kind, e.text)
}

#[test]
fn attribute_errors() {
    assert_eq!(attr_error_of(r#"field_name_to_snake = "yes""#), (AttrErrorKind::InvalidFieldNameToSnake, "yes".to_string()));
    assert_eq!(attr_error_of(r#"funs = [{page = "1"}]"#), (AttrErrorKind::InvalidPage, "1".to_string()));
    assert_eq!(attr_error_of(r#"funs = [{res_type = "no"}]"#), (AttrErrorKind::InvalidResType, "no".to_string()));
    assert_eq!(attr_error_of(r#"funs = [{exist_update = "y"}]"#), (AttrErrorKind::InvalidExistUpdate, "y".to_string()));
    assert_eq!(attr_error_of(r#"tablename = "x""#), (AttrErrorKind::UnknownArg, "TABLENAME".to_string()));
    assert_eq!(attr_error_of(r#"funs = [{name = "x"}]"#), (AttrErrorKind::UnknownFunArg, "NAME".to_string()));
    assert_eq!(attr_error_of(r#"funs = [{sql_type = "read"}]"#), (AttrErrorKind::SqlTypeWithoutSubtype, "READ".to_string()));
    assert_eq!(attr_error_of(r#"funs = [{sql_type = "update:batch"}]"#), (AttrErrorKind::InvalidSqlType, "UPDATE:BATCH".to_string()));
    assert_eq!(attr_error_of(r#"alias_fields = "a""#), (AttrErrorKind::AliasFieldsWithoutColon, "a".to_string()));
    assert_eq!(attr_error_of(r#"funs = [{condition = "a"}]"#), (AttrErrorKind::ConditionWithoutColon, "a".to_string()));
    assert_eq!(attr_error_of(r#"funs = [{order = "a"}]"#), (AttrErrorKind::OrderWithoutColon, "a".to_string()));
    assert_eq!(attr_error_of(r#"funs = [{order = "a:up"}]"#), (AttrErrorKind::InvalidOrderSuffix, "up".to_string()));
    assert_eq!(attr_error_of(r#"funs = [{condition = "a:~"}]"#), (AttrErrorKind::InvalidCondition, "~".to_string()));
}

#[test]
fn crud_errors() {
    let plan = |funs: &str| {
        let state = parse_attr(&tokens(&format!("table_name = \"T\", funs = [{funs}]"))).unwrap();
        let e = plan_crud(&state, &info("S", &["a", "b"])).err().expect("an error");
        (e.kind, e.fn_name, e.field)
    };
    assert_eq!(plan(r#"{fn_name = "f", sql_type = "read:single", fields = "c"}"#), (CrudErrorKind::UnknownField, "f".to_string(), "c".to_string()));
    assert_eq!(plan(r#"{fn_name = "f", sql_type = "read:single", condition = "c:="}"#), (CrudErrorKind::UnknownConditionField, "f".to_string(), "c".to_string()));
    assert_eq!(plan(r#"{fn_name = "f", sql_type = "read:single", order = "c:asc"}"#), (CrudErrorKind::UnknownOrderField, "f".to_string(), "c".to_string()));
    assert_eq!(plan(r#"{fn_name = "g", sql_type = "delete", condition = "a:=,c:="}"#), (CrudErrorKind::UnknownFnConditionField, "g".to_string(), "c".to_string()));
    assert_eq!(plan(r#"{fn_name = "u", sql_type = "update", condition = "z:="}"#), (CrudErrorKind::UnknownFnConditionField, "u".to_string(), "z".to_string()));
    assert_eq!(plan(r#"{fn_name = "c", sql_type = "create:single", fields = "a,q"}"#), (CrudErrorKind::UnknownField, "c".to_string(), "q".to_string()));
}

#[test]
fn no_fields_means_every_field_and_no_condition_means_no_where() {
    let attr = tokens(
        r#"table_name = "T", funs = [
        {fn_name = "c", sql_type = "create:single"},
        {fn_name = "u", sql_type = "update"},
        {fn_name = "d", sql_type = "delete"}]"#,
    );
    let state = parse_attr(&attr).unwrap();
    let plans = plan_crud(&state, &info("S", &["x", "y"])).unwrap();
    match &plans[0].kind {
        FnKind::Create(p) => {
            assert_eq!(p.fields, vec!["x".to_string(), "y".to_string()]);
            assert!(!p.batch);
            assert_eq!(p.sql, "INSERT INTO T (x,y) VALUES (:x,:y)");
        }
        _ => panic!("expected a create"),
    }
    match &plans[1].kind {
        FnKind::Update(p) => {
            assert_eq!(p.sql, "UPDATE T SET x=:x,y=:y");
            assert!(p.params.is_empty());
        }
        _ => panic!("expected an update"),
    }
    match &plans[2].kind {
        FnKind::Delete(p) => {
            assert_eq!(p.sql, "DELETE FROM T");
            assert!(p.params.is_empty());
        }
        _ => panic!("expected a delete"),
    }
}

#[test]
fn paged_single_read_takes_its_limits() {
    let attr = tokens(
        r#"table_name = "T",
        funs = [{fn_name = "first_page", sql_type = "read:single", condition = "a:=", page = "true"},
                {fn_name = "first", sql_type = "read:single", page = "false"}]"#,
    );
    let state = parse_attr(&attr).unwrap();
    let plans = plan_crud(&state, &info("S", &["a", "b"])).unwrap();
    match &plans[0].kind {
        FnKind::Read(p) => {
            assert_eq!(p.sql, "SELECT a,b FROM T WHERE a=:a LIMIT :_limit_start, :_limit_end");
            assert!(!p.batch && p.limit_params);
            assert_eq!(p.params, vec!["a".to_string()]);
        }
        _ => panic!("expected a read"),
    }
    match &plans[1].kind {
        FnKind::Read(p) => {
            assert_eq!(p.sql, "SELECT a,b FROM T");
            assert!(!p.batch && !p.limit_params);
        }
        _ => panic!("expected a read"),
    }
}

#[test]
fn sql_functions_in_read_fields() {
    let attr = tokens(
        r#"table_name = "T", alias_fields = "a:col_a",
        funs = [{fn_name = "count", sql_type = "read:single", fields = "$count(*)", condition = "b:="},
                {fn_name = "stats", sql_type = "read:batch", fields = "a, $max(col_a)$, b"},
                {fn_name = "bad", sql_type = "read:batch", fields = "a, c"}]"#,
    );
    let state = parse_attr(&attr).unwrap();
    let s = info("S", &["a", "b"]);
    let map = build_struct_to_table_field_map(&state, &s);
    let funs = state.get_funs();
    let (cols, ids) = ezsql::sql::build_read_fields_str_vec(&map, funs[0].get_fields()).unwrap();
    assert_eq!(cols, "count(*)");
    assert_eq!(ids, None);
    let (cols, ids) = ezsql::sql::build_read_fields_str_vec(&map, funs[1].get_fields()).unwrap();
    assert_eq!(cols, "col_a a,max(col_a),b");
    assert_eq!(ids, None);
    assert_eq!(ezsql::sql::build_read_fields_str_vec(&map, funs[2].get_fields()), Err("c".to_string()));
    let (cols, ids) = ezsql::sql::build_read_fields_str_vec(&map, &Some(vec!["b".to_string(), "a".to_string()])).unwrap();
    assert_eq!(cols, "b,col_a a");
    assert_eq!(ids, Some(vec!["b".to_string(), "a".to_string()]));
    let err = match plan_crud(&state, &s) {
        Err(e) => e,
        Ok(_) => panic!("expected an error"),
    };
    assert_eq!((err.kind, err.fn_name.as_str(), err.field.as_str()), (CrudErrorKind::UnknownField, "bad", "c"));
    let attr = tokens(
        r#"table_name = "T", funs = [{fn_name = "count", sql_type = "read:single", fields = "$count(*)", condition = "b:="}]"#,
    );
    let state = parse_attr(&attr).unwrap();
    let plans = plan_crud(&state, &s).unwrap();
    match &plans[0].kind {
        FnKind::Read(p) => {
            assert_eq!(p.sql, "SELECT count(*) FROM T WHERE b=:b");
            assert_eq!(p.columns, None);
            assert!(!p.into_struct && !p.fill_default && !p.limit_params);
        }
        _ => panic!("expected a read"),
    }
}
