use vstd::prelude::*;
use crate::attr::{InnerModel, StateModel, state_arg, inner_arg, arg_name, arg_text};
use crate::pairs::{distinct_keys, has_key, keys, lookup, lemma_key_index_unique};
use crate::sql::{
    resolve, resolver, selected, zip_pairs, order_by_of, where_of, limit_of, read_plan_of,
    read_sql_of, update_plan_of, delete_plan_of, create_plan_of, pieces_of, PieceKind,
    cond_pieces, order_pieces, create_fields_of, update_fields_of, UpdatePlanModel,
    DeletePlanModel,
};
use crate::text::join;
use crate::tools::{Condition, Order};

verus! {

/// The struct fields that a statement names: those of `fields`, else every field of `e`.
pub open spec fn named_fields(e: Seq<(Seq<char>, Seq<char>)>, fields: Option<Seq<Seq<char>>>) -> Seq<Seq<char>> {
    match fields {
        None => keys(e),
        Some(names) => names,
    }
}

/// Every name of `names` is a struct field of `e`.
pub open spec fn all_struct_fields(e: Seq<(Seq<char>, Seq<char>)>, names: Seq<Seq<char>>) -> bool {
    forall|i: int| 0 <= i < names.len() ==> has_key(e, #[trigger] names[i])
}

/// The table field of the struct field `f`.
pub open spec fn table_of(e: Seq<(Seq<char>, Seq<char>)>, f: Seq<char>) -> Seq<char> {
    lookup(e, f)->0
}

/// The comparisons of a `WHERE` clause over `c`: for each compared field its table field,
/// the operator of its own condition, `prefix` and the field; none where `c` is `None`.
pub open spec fn where_text(
    e: Seq<(Seq<char>, Seq<char>)>,
    cond: Option<Seq<(Seq<char>, Condition)>>,
    prefix: Seq<char>,
) -> Seq<char> {
    match cond {
        None => Seq::empty(),
        Some(c) => " WHERE "@ + join(
            Seq::new(c.len(), |i: int| table_of(e, c[i].0) + c[i].1.spec_value() + prefix + c[i].0),
            " AND "@,
        ),
    }
}

/// The fields that the conditions compare; none where there are no conditions.
pub open spec fn compared_fields(cond: Option<Seq<(Seq<char>, Condition)>>) -> Seq<Seq<char>> {
    match cond {
        None => Seq::empty(),
        Some(c) => keys(c),
    }
}

/// Each condition writes the SQL operator it stands for.
pub proof fn lemma_condition_sql_operators()
    ensures
        Condition::EQ.spec_value() == "="@,
        Condition::LT.spec_value() == "<"@,
        Condition::GT.spec_value() == ">"@,
        Condition::EqLt.spec_value() == "<="@,
        Condition::EqGt.spec_value() == ">="@,
        Condition::NEQ.spec_value() == "!="@,
{
}

proof fn lemma_resolve_all(e: Seq<(Seq<char>, Seq<char>)>, names: Seq<Seq<char>>)
    requires
        all_struct_fields(e, names),
    ensures
        resolve(e, names) == Ok::<Seq<Seq<char>>, Seq<char>>(
            Seq::new(names.len(), |i: int| table_of(e, names[i])),
        ),
    decreases names.len(),
{
    if names.len() > 0 {
        let prefix = names.drop_last();
        assert(all_struct_fields(e, prefix)) by {
            assert forall|i: int| 0 <= i < prefix.len() implies has_key(e, #[trigger] prefix[i]) by {
                assert(prefix[i] == names[i]);
            }
        }
        lemma_resolve_all(e, prefix);
        assert(has_key(e, names[names.len() - 1]));
        let step = resolver(e);
        let before = Seq::new(prefix.len(), |i: int| table_of(e, prefix[i]));
        assert(step(before, names.last()) == Ok::<Seq<Seq<char>>, Seq<char>>(
            before.push(table_of(e, names.last())),
        ));
        assert(before.push(table_of(e, names.last())) =~= Seq::new(
            names.len(),
            |i: int| table_of(e, names[i]),
        ));
    } else {
        assert(Seq::new(names.len(), |i: int| table_of(e, names[i])) =~= Seq::<Seq<char>>::empty());
    }
}

proof fn lemma_selected_all(e: Seq<(Seq<char>, Seq<char>)>, fields: Option<Seq<Seq<char>>>)
    requires
        distinct_keys(e),
        all_struct_fields(e, named_fields(e, fields)),
    ensures
        ({
            let names = named_fields(e, fields);
            selected(e, fields) == Ok::<Seq<(Seq<char>, Seq<char>)>, Seq<char>>(
                Seq::new(names.len(), |i: int| (names[i], table_of(e, names[i]))),
            )
        }),
{
    let names = named_fields(e, fields);
    match fields {
        None => {
            assert forall|i: int| 0 <= i < e.len() implies #[trigger] e[i] == (
                names[i],
                table_of(e, names[i]),
            ) by {
                lemma_key_index_unique(e, i);
            }
            assert(e =~= Seq::new(names.len(), |i: int| (names[i], table_of(e, names[i]))));
        },
        Some(ns) => {
            lemma_resolve_all(e, ns);
            assert(zip_pairs(ns, Seq::new(ns.len(), |i: int| table_of(e, ns[i]))) =~= Seq::new(
                names.len(),
                |i: int| (names[i], table_of(e, names[i])),
            ));
        },
    }
}

proof fn lemma_where_all(
    e: Seq<(Seq<char>, Seq<char>)>,
    cond: Option<Seq<(Seq<char>, Condition)>>,
    prefix: Seq<char>,
)
    requires
        cond matches Some(c) ==> all_struct_fields(e, keys(c)),
    ensures
        where_of(e, cond, prefix) == Ok::<(Seq<char>, Seq<Seq<char>>), Seq<char>>(
            (where_text(e, cond, prefix), compared_fields(cond)),
        ),
{
    if let Some(c) = cond {
        let ks = keys(c);
        lemma_resolve_all(e, ks);
        let ts = Seq::new(ks.len(), |i: int| table_of(e, ks[i]));
        assert(cond_pieces(c, ts, prefix) =~= Seq::new(
            c.len(),
            |i: int| table_of(e, c[i].0) + c[i].1.spec_value() + prefix + c[i].0,
        ));
    }
}

/// The `ORDER BY` clause of a read names each sort key by its table field followed by the
/// keyword of that key's own direction: `ASC` for a key given as ascending, `DESC` for one
/// given as descending, in the order the keys were given.
pub proof fn lemma_order_by_follows_directions(e: Seq<(Seq<char>, Seq<char>)>, ords: Seq<(Seq<char>, Order)>)
    requires
        all_struct_fields(e, keys(ords)),
    ensures
        order_by_of(e, Some(ords)) == Ok::<Seq<char>, Seq<char>>(
            " ORDER BY "@ + join(
                Seq::new(
                    ords.len(),
                    |i: int|
                        table_of(e, ords[i].0) + " "@ + match ords[i].1 {
                            Order::ASC => "ASC"@,
                            Order::DESC => "DESC"@,
                        },
                ),
                ","@,
            ),
        ),
{
    let ks = keys(ords);
    lemma_resolve_all(e, ks);
    let ts = Seq::new(ks.len(), |i: int| table_of(e, ks[i]));
    assert(order_pieces(ords, ts) =~= Seq::new(
        ords.len(),
        |i: int|
            table_of(e, ords[i].0) + " "@ + match ords[i].1 {
                Order::ASC => "ASC"@,
                Order::DESC => "DESC"@,
            },
    ));
}

/// A read that is no page ends with its `ORDER BY` clause, in which each sort key is
/// followed by the keyword of its own direction.
pub proof fn lemma_read_ends_with_its_order(
    inner: InnerModel,
    table: Seq<char>,
    e: Seq<(Seq<char>, Seq<char>)>,
    ords: Seq<(Seq<char>, Order)>,
)
    requires
        inner.order == Some(ords),
        all_struct_fields(e, keys(ords)),
        inner.page != Some(true),
        read_plan_of(inner, table, e) is Ok,
    ensures
        ({
            let sql = read_plan_of(inner, table, e)->Ok_0.sql;
            let o = " ORDER BY "@ + join(
                Seq::new(
                    ords.len(),
                    |i: int|
                        table_of(e, ords[i].0) + " "@ + match ords[i].1 {
                            Order::ASC => "ASC"@,
                            Order::DESC => "DESC"@,
                        },
                ),
                ","@,
            );
            sql.len() >= o.len() && sql.skip(sql.len() - o.len()) == o
        }),
{
    lemma_order_by_follows_directions(e, ords);
    let o = order_by_of(e, Some(ords))->Ok_0;
    let sql = read_sql_of(inner, table, e)->Ok_0.0;
    assert(limit_of(inner.page) =~= Seq::<char>::empty());
    assert(sql.skip(sql.len() - o.len()) =~= o);
}

/// The `ORDER BY` clause over `ord`: each sort key's table field and the keyword of its own
/// direction; none where `ord` is `None`.
pub open spec fn order_text(e: Seq<(Seq<char>, Seq<char>)>, ord: Option<Seq<(Seq<char>, Order)>>) -> Seq<char> {
    match ord {
        None => Seq::empty(),
        Some(o) => " ORDER BY "@ + join(
            Seq::new(
                o.len(),
                |i: int|
                    table_of(e, o[i].0) + " "@ + match o[i].1 {
                        Order::ASC => "ASC"@,
                        Order::DESC => "DESC"@,
                    },
            ),
            ","@,
        ),
    }
}

/// A read of struct fields (no SQL function, no head of its own) selects each field it
/// names by its table field, followed by the struct field where the two differ; then come
/// `FROM` the table, a `WHERE` clause comparing each condition's table field with that
/// condition's own operator against the parameter named after the field, the `ORDER BY`
/// clause with each key's own direction, and the `LIMIT` of a page. Each row holds the
/// fields it names, and the function takes the compared fields as parameters.
pub proof fn lemma_read_statement(inner: InnerModel, table: Seq<char>, e: Seq<(Seq<char>, Seq<char>)>)
    requires
        distinct_keys(e),
        inner.pre_where_sql is None,
        all_struct_fields(e, named_fields(e, inner.fields)),
        inner.fields matches Some(ns) ==> !crate::sql::has_sql_function(ns),
        inner.condition matches Some(c) ==> all_struct_fields(e, keys(c)),
        inner.order matches Some(o) ==> all_struct_fields(e, keys(o)),
    ensures
        ({
            let names = named_fields(e, inner.fields);
            let cols = join(
                Seq::new(
                    names.len(),
                    |i: int|
                        if table_of(e, names[i]) == names[i] {
                            names[i]
                        } else {
                            table_of(e, names[i]) + " "@ + names[i]
                        },
                ),
                ","@,
            );
            let p = read_plan_of(inner, table, e);
            &&& p is Ok
            &&& p->Ok_0.sql == "SELECT "@ + cols + " FROM "@ + table + where_text(e, inner.condition, ":"@)
                + order_text(e, inner.order) + if inner.page == Some(true) {
                " LIMIT :_limit_start, :_limit_end"@
            } else {
                Seq::empty()
            }
            &&& p->Ok_0.columns == Some(names)
            &&& p->Ok_0.params == compared_fields(inner.condition)
        }),
{
    let names = named_fields(e, inner.fields);
    let colv = Seq::new(
        names.len(),
        |i: int|
            if table_of(e, names[i]) == names[i] {
                names[i]
            } else {
                table_of(e, names[i]) + " "@ + names[i]
            },
    );
    match inner.fields {
        None => {
            lemma_selected_all(e, inner.fields);
            let sel = Seq::new(names.len(), |i: int| (names[i], table_of(e, names[i])));
            assert(pieces_of(PieceKind::Column, sel) =~= colv);
        },
        Some(ns) => {
            lemma_read_columns(e, ns);
        },
    }
    lemma_where_all(e, inner.condition, ":"@);
    if let Some(o) = inner.order {
        lemma_order_by_follows_directions(e, o);
    }
}

proof fn lemma_read_columns(e: Seq<(Seq<char>, Seq<char>)>, ns: Seq<Seq<char>>)
    requires
        all_struct_fields(e, ns),
        !crate::sql::has_sql_function(ns),
    ensures
        crate::fold::fold_seq(Seq::empty(), ns, crate::sql::column_stepper(e)) == Ok::<Seq<Seq<char>>, Seq<char>>(
            Seq::new(
                ns.len(),
                |i: int|
                    if table_of(e, ns[i]) == ns[i] {
                        ns[i]
                    } else {
                        table_of(e, ns[i]) + " "@ + ns[i]
                    },
            ),
        ),
    decreases ns.len(),
{
    if ns.len() > 0 {
        let prefix = ns.drop_last();
        assert(all_struct_fields(e, prefix)) by {
            assert forall|i: int| 0 <= i < prefix.len() implies has_key(e, #[trigger] prefix[i]) by {
                assert(prefix[i] == ns[i]);
            }
        }
        assert(!crate::sql::has_sql_function(prefix)) by {
            if crate::sql::has_sql_function(prefix) {
                let i = choose|i: int| 0 <= i < prefix.len() && crate::sql::is_sql_function(#[trigger] prefix[i]);
                assert(prefix[i] == ns[i]);
            }
        }
        lemma_read_columns(e, prefix);
        let last = ns[ns.len() - 1];
        assert(has_key(e, last));
        assert(!crate::sql::is_sql_function(last));
        let before = Seq::new(
            prefix.len(),
            |i: int|
                if table_of(e, prefix[i]) == prefix[i] {
                    prefix[i]
                } else {
                    table_of(e, prefix[i]) + " "@ + prefix[i]
                },
        );
        let step = crate::sql::column_stepper(e);
        assert(step(before, last) == Ok::<Seq<Seq<char>>, Seq<char>>(
            before.push(crate::sql::column_piece(table_of(e, last), last)),
        ));
        assert(before.push(crate::sql::column_piece(table_of(e, last), last)) =~= Seq::new(
            ns.len(),
            |i: int|
                if table_of(e, ns[i]) == ns[i] {
                    ns[i]
                } else {
                    table_of(e, ns[i]) + " "@ + ns[i]
                },
        ));
    } else {
        assert(Seq::new(
            ns.len(),
            |i: int|
                if table_of(e, ns[i]) == ns[i] {
                    ns[i]
                } else {
                    table_of(e, ns[i]) + " "@ + ns[i]
                },
        ) =~= Seq::<Seq<char>>::empty());
    }
}

/// A delete removes the rows on which every condition holds: its `WHERE` clause compares
/// each condition's table field with the operator of that condition's own kind (`<` for
/// `field:<`, `>` for `field:>`, and so on) against the parameter named after the field,
/// and the function takes those fields as parameters, in order. Without conditions it has
/// no `WHERE` clause.
pub proof fn lemma_delete_statement(inner: InnerModel, table: Seq<char>, e: Seq<(Seq<char>, Seq<char>)>)
    requires
        inner.condition matches Some(c) ==> all_struct_fields(e, keys(c)),
    ensures
        delete_plan_of(inner, table, e) == Ok::<DeletePlanModel, (crate::sql::CrudErrorKind, Seq<char>, Seq<char>)>(
            DeletePlanModel {
                sql: "DELETE FROM "@ + table + where_text(e, inner.condition, ":"@),
                params: compared_fields(inner.condition),
            },
        ),
{
    lemma_where_all(e, inner.condition, ":"@);
}

/// An update sets each field it names to the value of that field: each assignment has the
/// field's table field (its alias, or its snake-case form, as the field map gives it) on
/// the left, then `=:` and the struct field; its `WHERE` clause compares each condition's
/// table field with that condition's own operator against the parameter `c_` and the field.
pub proof fn lemma_update_statement(inner: InnerModel, table: Seq<char>, e: Seq<(Seq<char>, Seq<char>)>)
    requires
        distinct_keys(e),
        all_struct_fields(e, named_fields(e, inner.fields)),
        inner.condition matches Some(c) ==> all_struct_fields(e, keys(c)),
    ensures
        ({
            let names = named_fields(e, inner.fields);
            update_plan_of(inner, table, e) == Ok::<
                UpdatePlanModel,
                (crate::sql::CrudErrorKind, Seq<char>, Seq<char>),
            >(
                UpdatePlanModel {
                    sql: "UPDATE "@ + table + " SET "@ + join(
                        Seq::new(names.len(), |i: int| table_of(e, names[i]) + "=:"@ + names[i]),
                        ","@,
                    ) + where_text(e, inner.condition, ":c_"@),
                    set_fields: names,
                    params: compared_fields(inner.condition),
                },
            )
        }),
{
    let names = named_fields(e, inner.fields);
    lemma_selected_all(e, inner.fields);
    let sel = Seq::new(names.len(), |i: int| (names[i], table_of(e, names[i])));
    assert(pieces_of(PieceKind::Assign, sel) =~= Seq::new(
        names.len(),
        |i: int| table_of(e, names[i]) + "=:"@ + names[i],
    ));
    assert(keys(sel) =~= names);
    lemma_where_all(e, inner.condition, ":c_"@);
}

/// A create inserts the fields it names: `INSERT INTO` the table, the table fields of those
/// fields, and `VALUES` naming each struct field. It goes on with `ON DUPLICATE KEY UPDATE`,
/// setting each table field to its new value, exactly when `exist_update` is true; where
/// `exist_update` is false or not given, the statement is the plain insert.
pub proof fn lemma_create_statement(inner: InnerModel, table: Seq<char>, e: Seq<(Seq<char>, Seq<char>)>)
    requires
        distinct_keys(e),
        all_struct_fields(e, named_fields(e, inner.fields)),
    ensures
        ({
            let names = named_fields(e, inner.fields);
            let n = names.len();
            let plain = "INSERT INTO "@ + table + " ("@ + join(
                Seq::new(n, |i: int| table_of(e, names[i])),
                ","@,
            ) + ") VALUES ("@ + join(Seq::new(n, |i: int| ":"@ + names[i]), ","@) + ")"@;
            let p = create_plan_of(inner, table, e);
            &&& p is Ok
            &&& p->Ok_0.fields == names
            &&& p->Ok_0.sql == if inner.exist_update == Some(true) {
                plain + " ON DUPLICATE KEY UPDATE "@ + join(
                    Seq::new(n, |i: int| table_of(e, names[i]) + "=VALUES("@ + table_of(e, names[i]) + ")"@),
                    ","@,
                )
            } else {
                plain
            }
        }),
{
    let names = named_fields(e, inner.fields);
    let n = names.len();
    lemma_selected_all(e, inner.fields);
    let sel = Seq::new(n, |i: int| (names[i], table_of(e, names[i])));
    assert(pieces_of(PieceKind::Table, sel) =~= Seq::new(n, |i: int| table_of(e, names[i])));
    assert(pieces_of(PieceKind::Value, sel) =~= Seq::new(n, |i: int| ":"@ + names[i]));
    assert(pieces_of(PieceKind::Duplicate, sel) =~= Seq::new(
        n,
        |i: int| table_of(e, names[i]) + "=VALUES("@ + table_of(e, names[i]) + ")"@,
    ));
    assert(keys(sel) =~= names);
    if inner.exist_update != Some(true) {
        let p = create_plan_of(inner, table, e)->Ok_0;
        assert(p.sql =~= "INSERT INTO "@ + table + " ("@ + join(
            Seq::new(n, |i: int| table_of(e, names[i])),
            ","@,
        ) + ") VALUES ("@ + join(Seq::new(n, |i: int| ":"@ + names[i]), ","@) + ")"@);
    }
}

/// Reading the argument `field_name_to_snake = "b"`, where `b` is `true` or `false`, sets
/// `field_name_to_snake` to `Some(b)` and leaves the rest of what was read unchanged.
pub proof fn lemma_field_name_to_snake_is_read(st: StateModel, ident: Seq<char>, raw: Seq<char>, b: bool)
    requires
        arg_name(ident) == "FIELD_NAME_TO_SNAKE"@,
        arg_text(raw) == (if b {
            "true"@
        } else {
            "false"@
        }),
    ensures
        state_arg(st, ident, raw) == Ok::<StateModel, (crate::attr::AttrErrorKind, Seq<char>)>(
            StateModel { field_name_to_snake: Some(b), ..st },
        ),
{
    reveal_strlit("TABLE_NAME");
    reveal_strlit("FIELD_NAME_TO_SNAKE");
    reveal_strlit("true");
    reveal_strlit("false");
    assert("FIELD_NAME_TO_SNAKE"@.len() != "TABLE_NAME"@.len());
    assert("true"@.len() != "false"@.len());
    assert(arg_name(ident) != "TABLE_NAME"@);
    assert(crate::text::parse_bool(arg_text(raw)) == Some(b));
}

/// Reading a function's argument `page`, `res_type` or `exist_update` (in any case) with
/// the text `"b"`, where `b` is `true` or `false`, sets that option to `Some(b)` and leaves
/// the rest of the function unchanged.
pub proof fn lemma_fun_flags_are_read(inner: InnerModel, ident: Seq<char>, raw: Seq<char>, b: bool)
    requires
        arg_text(raw) == (if b {
            "true"@
        } else {
            "false"@
        }),
    ensures
        arg_name(ident) == "PAGE"@ ==> inner_arg(inner, ident, raw) == Ok::<
            InnerModel,
            (crate::attr::AttrErrorKind, Seq<char>),
        >(InnerModel { page: Some(b), ..inner }),
        arg_name(ident) == "RES_TYPE"@ ==> inner_arg(inner, ident, raw) == Ok::<
            InnerModel,
            (crate::attr::AttrErrorKind, Seq<char>),
        >(InnerModel { res_type: Some(b), ..inner }),
        arg_name(ident) == "EXIST_UPDATE"@ ==> inner_arg(inner, ident, raw) == Ok::<
            InnerModel,
            (crate::attr::AttrErrorKind, Seq<char>),
        >(InnerModel { exist_update: Some(b), ..inner }),
{
    reveal_strlit("FN_NAME");
    reveal_strlit("SQL_TYPE");
    reveal_strlit("FIELDS");
    reveal_strlit("CONDITION");
    reveal_strlit("PAGE");
    reveal_strlit("ORDER");
    reveal_strlit("RES_TYPE");
    reveal_strlit("EXIST_UPDATE");
    reveal_strlit("true");
    reveal_strlit("false");
    assert("true"@.len() != "false"@.len());
    assert(crate::text::parse_bool(arg_text(raw)) == Some(b));
    let k = arg_name(ident);
    if k == "PAGE"@ {
        assert(k != "FN_NAME"@ && k != "SQL_TYPE"@ && k != "FIELDS"@ && k != "CONDITION"@) by {
            assert(k[0] == 'P');
        }
    }
    if k == "RES_TYPE"@ {
        assert(k != "FN_NAME"@ && k != "SQL_TYPE"@ && k != "FIELDS"@ && k != "CONDITION"@
            && k != "PAGE"@ && k != "ORDER"@) by {
            assert(k[0] == 'R');
        }
    }
    if k == "EXIST_UPDATE"@ {
        assert(k != "FN_NAME"@ && k != "SQL_TYPE"@ && k != "FIELDS"@ && k != "CONDITION"@
            && k != "PAGE"@ && k != "ORDER"@ && k != "RES_TYPE"@) by {
            assert(k[0] == 'E');
        }
    }
}

} // verus!
