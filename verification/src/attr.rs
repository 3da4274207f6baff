use vstd::prelude::*;
use crate::fold::{fold_seq, lemma_fold_step, lemma_fold_whole, lemma_fold_err};
use crate::pairs::{
    distinct_keys, insert_entry, insert_pair, string_pairs, has_key, key_index,
    lemma_insert_keeps_distinct,
};
use crate::text::{
    split, split_by, split_once, split_at_first, trim, trimmed, upper, to_upper, same_text, views,
    without_char, remove_char, parse_bool, read_bool,
};
use crate::tools::{
    order_of, Order, lemma_order_round_trip, Condition, condition_of, read_condition, SqlType,
    SqlTypeExt, sql_type_of, sql_type_ext_of, lemma_sql_type_round_trip,
    lemma_sql_type_ext_round_trip,
};

verus! {

/// A token of an attribute's arguments, holding the text that the parser reads:
/// a bracketed group, an identifier, a punctuation character, or a literal as written
/// (a string literal keeps its quotes).
#[derive(Debug)]
pub enum AttrToken {
    Group(Vec<AttrToken>),
    Ident(String),
    Punct(char),
    Literal(String),
}

/// What is wrong with the arguments of an attribute.
#[derive(Clone, Copy, Debug, PartialEq, Eq, Structural)]
pub enum AttrErrorKind {
    /// `field_name_to_snake` is neither `true` nor `false`.
    InvalidFieldNameToSnake,
    /// `page` is neither `true` nor `false`.
    InvalidPage,
    /// `res_type` is neither `true` nor `false`.
    InvalidResType,
    /// `exist_update` is neither `true` nor `false`.
    InvalidExistUpdate,
    /// An argument of the attribute that is none of `table_name`, `alias_fields`,
    /// `field_name_to_snake`, `funs`.
    UnknownArg,
    /// An argument of a function that it does not know.
    UnknownFunArg,
    /// An argument split at `:` that is none of `sql_type`, `alias_fields`, `condition`, `order`.
    UnknownSplitArg,
    /// A `create` or `read` statement kind without its `:single` or `:batch`.
    SqlTypeWithoutSubtype,
    /// A statement kind and row count that do not go together.
    InvalidSqlType,
    /// An `alias_fields` item without `:`.
    AliasFieldsWithoutColon,
    /// A `condition` item without `:`.
    ConditionWithoutColon,
    /// An `order` item without `:`.
    OrderWithoutColon,
    /// An `order` direction that is neither `asc` nor `desc`.
    InvalidOrderSuffix,
    /// A condition symbol that names no condition.
    InvalidCondition,
}

/// An error in the arguments of an attribute, with the text that it is about.
#[derive(Debug)]
pub struct AttrError {
    pub kind: AttrErrorKind,
    pub text: String,
}

impl View for AttrError {
    type V = (AttrErrorKind, Seq<char>);

    open spec fn view(&self) -> (AttrErrorKind, Seq<char>) {
        (self.kind, self.text@)
    }
}

pub fn attr_error(kind: AttrErrorKind, text: String) -> (e: AttrError)
    ensures
        e@ == (kind, text@),
{
    AttrError { kind, text }
}

/// The trimmed pieces of `s` between its commas.
pub open spec fn comma_list(s: Seq<char>) -> Seq<Seq<char>> {
    split(s, ',').map_values(|p: Seq<char>| trim(p))
}

/// The trimmed pieces of `literal` between its commas, as `split(",")` and `trim` give them.
pub fn literal_split_by_comma(literal: &str) -> (r: Vec<String>)
    ensures
        views(r@) == comma_list(literal@),
{
    let pieces = split_by(literal, ',');
    let mut r: Vec<String> = Vec::new();
    let n = pieces.len();
    let mut i: usize = 0;
    while i < n
        invariant
            n == pieces@.len(),
            views(pieces@) == split(literal@, ','),
            i <= n,
            views(r@) == comma_list(literal@).take(i as int),
        decreases n - i,
    {
        assert(views(pieces@)[i as int] == pieces@[i as int]@);
        assert(comma_list(literal@)[i as int] == trim(split(literal@, ',')[i as int]));
        let t = trimmed(pieces[i].as_str());
        let ghost before = views(r@);
        let ghost tv = t@;
        r.push(t);
        assert(views(r@) =~= before.push(tv));
        assert(before.push(tv) =~= comma_list(literal@).take(i + 1));
        i = i + 1;
    }
    assert(comma_list(literal@).take(n as int) =~= comma_list(literal@));
    r
}

/// A `create` or `read` statement kind with its row count, or an error.
pub open spec fn sql_type_pair(t: Seq<char>, e: Seq<char>) -> Result<(Seq<char>, Seq<char>), (AttrErrorKind, Seq<char>)> {
    if t == "READ"@ && e == "SINGLE"@ {
        Ok(("READ"@, "SINGLE"@))
    } else if t == "READ"@ && e == "BATCH"@ {
        Ok(("READ"@, "BATCH"@))
    } else if t == "CREATE"@ && e == "SINGLE"@ {
        Ok(("CREATE"@, "SINGLE"@))
    } else if t == "CREATE"@ && e == "BATCH"@ {
        Ok(("CREATE"@, "BATCH"@))
    } else {
        Err((AttrErrorKind::InvalidSqlType, t + ":"@ + e))
    }
}

/// One item of a list split at `:`, put into the pairs read so far.
pub open spec fn colon_step(kind: Seq<char>, m: Seq<(Seq<char>, Seq<char>)>, p: Seq<char>) -> Result<
    Seq<(Seq<char>, Seq<char>)>,
    (AttrErrorKind, Seq<char>),
> {
    if kind == "SQL_TYPE"@ {
        let u = upper(p);
        if u == "UPDATE"@ {
            Ok(insert_entry(m, "UPDATE"@, "SINGLE"@))
        } else if u == "DELETE"@ {
            Ok(insert_entry(m, "DELETE"@, "SINGLE"@))
        } else {
            match split_once(u, ':') {
                None => Err((AttrErrorKind::SqlTypeWithoutSubtype, u)),
                Some((t, e)) => match sql_type_pair(trim(t), trim(e)) {
                    Ok((a, b)) => Ok(insert_entry(m, a, b)),
                    Err(x) => Err(x),
                },
            }
        }
    } else if kind == "ALIAS_FIELDS"@ {
        match split_once(p, ':') {
            None => Err((AttrErrorKind::AliasFieldsWithoutColon, p)),
            Some((a, b)) => Ok(insert_entry(m, trim(a), trim(b))),
        }
    } else if kind == "CONDITION"@ {
        match split_once(p, ':') {
            None => Err((AttrErrorKind::ConditionWithoutColon, p)),
            Some((a, b)) => Ok(insert_entry(m, trim(a), trim(b))),
        }
    } else {
        match split_once(p, ':') {
            None => Err((AttrErrorKind::OrderWithoutColon, p)),
            Some((a, b)) => match order_of(trim(b)) {
                Some(o) => Ok(insert_entry(m, trim(a), o.spec_value())),
                None => Err((AttrErrorKind::InvalidOrderSuffix, trim(b))),
            },
        }
    }
}

pub open spec fn colon_stepper(kind: Seq<char>) -> spec_fn(Seq<(Seq<char>, Seq<char>)>, Seq<char>) -> Result<
    Seq<(Seq<char>, Seq<char>)>,
    (AttrErrorKind, Seq<char>),
> {
    |m: Seq<(Seq<char>, Seq<char>)>, p: Seq<char>| colon_step(kind, m, p)
}

/// The argument names whose values are lists of `a:b` items.
pub open spec fn is_colon_kind(kind: Seq<char>) -> bool {
    kind == "SQL_TYPE"@ || kind == "ALIAS_FIELDS"@ || kind == "CONDITION"@ || kind == "ORDER"@
}

/// The `a:b` items of the value `literal` of the argument `ident`, as ordered pairs:
/// `sql_type` items become a statement kind and row count in upper case, `order` items a
/// field and `ASC` or `DESC`; a repeated key keeps its place and takes the later value.
pub open spec fn split_colon(ident: Seq<char>, literal: Seq<char>) -> Result<
    Seq<(Seq<char>, Seq<char>)>,
    (AttrErrorKind, Seq<char>),
> {
    let kind = upper(ident);
    if !is_colon_kind(kind) {
        Err((AttrErrorKind::UnknownSplitArg, kind))
    } else {
        fold_seq(Seq::empty(), comma_list(literal), colon_stepper(kind))
    }
}

fn owned(s: &str) -> (r: String)
    ensures
        r@ == s@,
{
    s.to_owned()
}

fn colon_item(kind: &str, m: &mut Vec<(String, String)>, p: &str) -> (r: Result<(), AttrError>)
    requires
        distinct_keys(string_pairs(old(m)@)),
        is_colon_kind(kind@),
    ensures
        distinct_keys(string_pairs(final(m)@)),
        match r {
            Ok(()) => colon_step(kind@, string_pairs(old(m)@), p@) == Ok::<
                Seq<(Seq<char>, Seq<char>)>,
                (AttrErrorKind, Seq<char>),
            >(string_pairs(final(m)@)),
            Err(e) => colon_step(kind@, string_pairs(old(m)@), p@) == Err::<
                Seq<(Seq<char>, Seq<char>)>,
                (AttrErrorKind, Seq<char>),
            >(e@),
        },
{
    if same_text(kind, "SQL_TYPE") {
        let u = to_upper(p);
        if same_text(u.as_str(), "UPDATE") {
            insert_pair(m, owned("UPDATE"), owned("SINGLE"));
            Ok(())
        } else if same_text(u.as_str(), "DELETE") {
            insert_pair(m, owned("DELETE"), owned("SINGLE"));
            Ok(())
        } else {
            match split_at_first(u.as_str(), ':') {
                None => Err(attr_error(AttrErrorKind::SqlTypeWithoutSubtype, u)),
                Some((t, e)) => {
                    let t = trimmed(t.as_str());
                    let e = trimmed(e.as_str());
                    let read = same_text(t.as_str(), "READ");
                    let create = same_text(t.as_str(), "CREATE");
                    let single = same_text(e.as_str(), "SINGLE");
                    let batch = same_text(e.as_str(), "BATCH");
                    if read && single {
                        insert_pair(m, owned("READ"), owned("SINGLE"));
                        Ok(())
                    } else if read && batch {
                        insert_pair(m, owned("READ"), owned("BATCH"));
                        Ok(())
                    } else if create && single {
                        insert_pair(m, owned("CREATE"), owned("SINGLE"));
                        Ok(())
                    } else if create && batch {
                        insert_pair(m, owned("CREATE"), owned("BATCH"));
                        Ok(())
                    } else {
                        let mut text = t;
                        text.append(":");
                        text.append(e.as_str());
                        Err(attr_error(AttrErrorKind::InvalidSqlType, text))
                    }
                },
            }
        }
    } else if same_text(kind, "ALIAS_FIELDS") || same_text(kind, "CONDITION") {
        match split_at_first(p, ':') {
            None => {
                let k = if same_text(kind, "ALIAS_FIELDS") {
                    AttrErrorKind::AliasFieldsWithoutColon
                } else {
                    AttrErrorKind::ConditionWithoutColon
                };
                Err(attr_error(k, owned(p)))
            },
            Some((a, b)) => {
                insert_pair(m, trimmed(a.as_str()), trimmed(b.as_str()));
                Ok(())
            },
        }
    } else {
        match split_at_first(p, ':') {
            None => Err(attr_error(AttrErrorKind::OrderWithoutColon, owned(p))),
            Some((a, b)) => {
                let d = trimmed(b.as_str());
                let u = to_upper(d.as_str());
                if same_text(u.as_str(), "ASC") {
                    proof {
                        lemma_order_round_trip(Order::ASC, d@);
                    }
                    insert_pair(m, trimmed(a.as_str()), owned("ASC"));
                    Ok(())
                } else if same_text(u.as_str(), "DESC") {
                    proof {
                        lemma_order_round_trip(Order::DESC, d@);
                    }
                    insert_pair(m, trimmed(a.as_str()), owned("DESC"));
                    Ok(())
                } else {
                    Err(attr_error(AttrErrorKind::InvalidOrderSuffix, d))
                }
            },
        }
    }
}

/// The `a:b` items of the value `literal` of the argument `ident_str`, as ordered pairs
/// with distinct keys.
pub fn literal_split_by_colon(ident_str: &str, literal: &str) -> (r: Result<Vec<(String, String)>, AttrError>)
    ensures
        match r {
            Ok(m) => split_colon(ident_str@, literal@) == Ok::<
                Seq<(Seq<char>, Seq<char>)>,
                (AttrErrorKind, Seq<char>),
            >(string_pairs(m@)) && distinct_keys(string_pairs(m@)),
            Err(e) => split_colon(ident_str@, literal@) == Err::<
                Seq<(Seq<char>, Seq<char>)>,
                (AttrErrorKind, Seq<char>),
            >(e@),
        },
{
    let kind = to_upper(ident_str);
    if !(same_text(kind.as_str(), "SQL_TYPE") || same_text(kind.as_str(), "ALIAS_FIELDS")
        || same_text(kind.as_str(), "CONDITION") || same_text(kind.as_str(), "ORDER")) {
        return Err(attr_error(AttrErrorKind::UnknownSplitArg, kind));
    }
    let items = literal_split_by_comma(literal);
    let ghost xs = comma_list(literal@);
    let ghost step = colon_stepper(kind@);
    let mut m: Vec<(String, String)> = Vec::new();
    let n = items.len();
    let mut i: usize = 0;
    assert(string_pairs(m@) =~= Seq::<(Seq<char>, Seq<char>)>::empty());
    assert(xs.take(0).len() == 0);
    while i < n
        invariant
            n == xs.len(),
            xs == comma_list(literal@),
            step == colon_stepper(kind@),
            kind@ == upper(ident_str@),
            views(items@) == xs,
            is_colon_kind(kind@),
            i <= n,
            distinct_keys(string_pairs(m@)),
            fold_seq(Seq::empty(), xs.take(i as int), step) == Ok::<
                Seq<(Seq<char>, Seq<char>)>,
                (AttrErrorKind, Seq<char>),
            >(string_pairs(m@)),
        decreases n - i,
    {
        proof {
            lemma_fold_step(Seq::empty(), xs, step, i as int);
        }
        assert(views(items@)[i as int] == items@[i as int]@);
        assert(step(string_pairs(m@), xs[i as int]) == colon_step(kind@, string_pairs(m@), xs[i as int]));
        match colon_item(kind.as_str(), &mut m, items[i].as_str()) {
            Ok(()) => {},
            Err(e) => {
                proof {
                    lemma_fold_err(Seq::empty(), xs, step, i + 1);
                }
                return Err(e);
            },
        }
        i = i + 1;
    }
    proof {
        lemma_fold_whole(Seq::empty(), xs, step);
    }
    Ok(m)
}

proof fn lemma_split_not_empty(s: Seq<char>, c: char)
    ensures
        split(s, c).len() > 0,
    decreases s.len(),
{
    if s.len() > 0 {
        lemma_split_not_empty(s.drop_last(), c);
    }
}

proof fn lemma_insert_entry_shape<V>(e: Seq<(Seq<char>, V)>, k: Seq<char>, v: V)
    ensures
        insert_entry(e, k, v).len() > 0,
        forall|i: int| 0 <= i < insert_entry(e, k, v).len() ==> #[trigger] insert_entry(e, k, v)[i] == (k, v)
            || (i < e.len() && insert_entry(e, k, v)[i] == e[i]),
{
    if has_key(e, k) {
        let j = key_index(e, k);
        assert(0 <= j < e.len());
    }
}

/// Every `sql_type` pair names a statement kind and a row count.
pub open spec fn valid_sql_type_pairs(m: Seq<(Seq<char>, Seq<char>)>) -> bool {
    forall|i: int| 0 <= i < m.len() ==> sql_type_of(#[trigger] m[i].0) is Some && sql_type_ext_of(m[i].1) is Some
}

/// Every `order` pair ends in a sort direction.
pub open spec fn valid_order_pairs(m: Seq<(Seq<char>, Seq<char>)>) -> bool {
    forall|i: int| 0 <= i < m.len() ==> order_of(#[trigger] m[i].1) is Some
}

proof fn lemma_colon_fold_len(kind: Seq<char>, xs: Seq<Seq<char>>, k: int)
    requires
        0 < k <= xs.len(),
        fold_seq(Seq::empty(), xs.take(k), colon_stepper(kind)) is Ok,
    ensures
        fold_seq(Seq::empty(), xs.take(k), colon_stepper(kind))->Ok_0.len() > 0,
{
    let step = colon_stepper(kind);
    lemma_fold_step(Seq::empty(), xs, step, k - 1);
    let m0 = fold_seq(Seq::empty(), xs.take(k - 1), step)->Ok_0;
    let p = xs[k - 1];
    assert(step(m0, p) == colon_step(kind, m0, p));
    if kind == "SQL_TYPE"@ {
        let u = upper(p);
        if u == "UPDATE"@ {
            lemma_insert_entry_shape(m0, "UPDATE"@, "SINGLE"@);
        } else if u == "DELETE"@ {
            lemma_insert_entry_shape(m0, "DELETE"@, "SINGLE"@);
        } else {
            match split_once(u, ':') {
                None => {},
                Some((t, e)) => match sql_type_pair(trim(t), trim(e)) {
                    Ok((a, b)) => {
                        lemma_insert_entry_shape(m0, a, b);
                    },
                    Err(x) => {},
                },
            }
        }
    } else if kind == "ALIAS_FIELDS"@ || kind == "CONDITION"@ {
        match split_once(p, ':') {
            None => {},
            Some((a, b)) => {
                lemma_insert_entry_shape(m0, trim(a), trim(b));
            },
        }
    } else {
        match split_once(p, ':') {
            None => {},
            Some((a, b)) => match order_of(trim(b)) {
                Some(o) => {
                    lemma_insert_entry_shape(m0, trim(a), o.spec_value());
                },
                None => {},
            },
        }
    }
}

proof fn lemma_colon_fold_sql(xs: Seq<Seq<char>>, k: int)
    requires
        0 <= k <= xs.len(),
        fold_seq(Seq::empty(), xs.take(k), colon_stepper("SQL_TYPE"@)) is Ok,
    ensures
        valid_sql_type_pairs(fold_seq(Seq::empty(), xs.take(k), colon_stepper("SQL_TYPE"@))->Ok_0),
    decreases k,
{
    let step = colon_stepper("SQL_TYPE"@);
    if k > 0 {
        lemma_fold_step(Seq::empty(), xs, step, k - 1);
        lemma_colon_fold_sql(xs, k - 1);
        let m0 = fold_seq(Seq::empty(), xs.take(k - 1), step)->Ok_0;
        let p = xs[k - 1];
        assert(step(m0, p) == colon_step("SQL_TYPE"@, m0, p));
        lemma_sql_type_round_trip(SqlType::UPDATE, p);
        lemma_sql_type_round_trip(SqlType::DELETE, p);
        lemma_sql_type_round_trip(SqlType::READ, p);
        lemma_sql_type_round_trip(SqlType::CREATE, p);
        lemma_sql_type_ext_round_trip(SqlTypeExt::SINGLE, p);
        lemma_sql_type_ext_round_trip(SqlTypeExt::BATCH, p);
        let u = upper(p);
        let m = fold_seq(Seq::empty(), xs.take(k), step)->Ok_0;
        let (a, b) = if u == "UPDATE"@ {
            ("UPDATE"@, "SINGLE"@)
        } else if u == "DELETE"@ {
            ("DELETE"@, "SINGLE"@)
        } else {
            let (t, e) = split_once(u, ':')->0;
            sql_type_pair(trim(t), trim(e))->Ok_0
        };
        assert(m == insert_entry(m0, a, b));
        assert(sql_type_of(a) is Some && sql_type_ext_of(b) is Some);
        lemma_insert_entry_shape(m0, a, b);
        assert forall|i: int| 0 <= i < m.len() implies sql_type_of(#[trigger] m[i].0) is Some
            && sql_type_ext_of(m[i].1) is Some by {
            if m[i] != (a, b) {
                assert(m[i] == m0[i]);
            }
        }
    }
}

proof fn lemma_colon_fold_order(xs: Seq<Seq<char>>, k: int)
    requires
        0 <= k <= xs.len(),
        fold_seq(Seq::empty(), xs.take(k), colon_stepper("ORDER"@)) is Ok,
    ensures
        valid_order_pairs(fold_seq(Seq::empty(), xs.take(k), colon_stepper("ORDER"@))->Ok_0),
    decreases k,
{
    let step = colon_stepper("ORDER"@);
    reveal_strlit("ORDER");
    reveal_strlit("SQL_TYPE");
    reveal_strlit("ALIAS_FIELDS");
    reveal_strlit("CONDITION");
    assert("ORDER"@.len() == 5);
    assert("SQL_TYPE"@.len() == 8);
    assert("ALIAS_FIELDS"@.len() == 12);
    assert("CONDITION"@.len() == 9);
    if k > 0 {
        lemma_fold_step(Seq::empty(), xs, step, k - 1);
        lemma_colon_fold_order(xs, k - 1);
        let m0 = fold_seq(Seq::empty(), xs.take(k - 1), step)->Ok_0;
        let p = xs[k - 1];
        assert(step(m0, p) == colon_step("ORDER"@, m0, p));
        let m = fold_seq(Seq::empty(), xs.take(k), step)->Ok_0;
        let (a, b) = split_once(p, ':')->0;
        let o = order_of(trim(b))->0;
        assert(m == insert_entry(m0, trim(a), o.spec_value()));
        lemma_order_round_trip(o, p);
        lemma_insert_entry_shape(m0, trim(a), o.spec_value());
        assert forall|i: int| 0 <= i < m.len() implies order_of(#[trigger] m[i].1) is Some by {
            if m[i] != (trim(a), o.spec_value()) {
                assert(m[i] == m0[i]);
            }
        }
    }
}

proof fn lemma_colon_fold_distinct(kind: Seq<char>, xs: Seq<Seq<char>>, k: int)
    requires
        0 <= k <= xs.len(),
        fold_seq(Seq::empty(), xs.take(k), colon_stepper(kind)) is Ok,
    ensures
        distinct_keys(fold_seq(Seq::empty(), xs.take(k), colon_stepper(kind))->Ok_0),
    decreases k,
{
    let step = colon_stepper(kind);
    if k > 0 {
        lemma_fold_step(Seq::empty(), xs, step, k - 1);
        lemma_colon_fold_distinct(kind, xs, k - 1);
        let m0 = fold_seq(Seq::empty(), xs.take(k - 1), step)->Ok_0;
        let p = xs[k - 1];
        assert(step(m0, p) == colon_step(kind, m0, p));
        if kind == "SQL_TYPE"@ {
            let u = upper(p);
            if u == "UPDATE"@ {
                lemma_insert_keeps_distinct(m0, "UPDATE"@, "SINGLE"@);
            } else if u == "DELETE"@ {
                lemma_insert_keeps_distinct(m0, "DELETE"@, "SINGLE"@);
            } else {
                match split_once(u, ':') {
                    None => {},
                    Some((t, e)) => match sql_type_pair(trim(t), trim(e)) {
                        Ok((a, b)) => {
                            lemma_insert_keeps_distinct(m0, a, b);
                        },
                        Err(x) => {},
                    },
                }
            }
        } else if kind == "ALIAS_FIELDS"@ || kind == "CONDITION"@ {
            match split_once(p, ':') {
                None => {},
                Some((a, b)) => {
                    lemma_insert_keeps_distinct(m0, trim(a), trim(b));
                },
            }
        } else {
            match split_once(p, ':') {
                None => {},
                Some((a, b)) => match order_of(trim(b)) {
                    Some(o) => {
                        lemma_insert_keeps_distinct(m0, trim(a), o.spec_value());
                    },
                    None => {},
                },
            }
        }
    }
}

/// The pairs read from an `a:b` list never repeat a key: a repeated key keeps its first
/// place and takes the later value.
pub proof fn lemma_split_colon_distinct_keys(ident: Seq<char>, literal: Seq<char>)
    requires
        split_colon(ident, literal) is Ok,
    ensures
        distinct_keys(split_colon(ident, literal)->Ok_0),
{
    let xs = comma_list(literal);
    lemma_fold_whole(Seq::empty(), xs, colon_stepper(upper(ident)));
    lemma_colon_fold_distinct(upper(ident), xs, xs.len() as int);
}

/// What a successful split at `:` yields: at least one pair, and for `sql_type` and
/// `order` only pairs that name a statement kind or a sort direction.
proof fn lemma_split_colon_facts(ident: Seq<char>, literal: Seq<char>)
    requires
        split_colon(ident, literal) is Ok,
    ensures
        ({
            let m = split_colon(ident, literal)->Ok_0;
            &&& m.len() > 0
            &&& (upper(ident) == "SQL_TYPE"@ ==> valid_sql_type_pairs(m))
            &&& (upper(ident) == "ORDER"@ ==> valid_order_pairs(m))
        }),
{
    let xs = comma_list(literal);
    lemma_split_not_empty(literal, ',');
    lemma_fold_whole(Seq::empty(), xs, colon_stepper(upper(ident)));
    lemma_colon_fold_len(upper(ident), xs, xs.len() as int);
    if upper(ident) == "SQL_TYPE"@ {
        lemma_colon_fold_sql(xs, xs.len() as int);
    }
    if upper(ident) == "ORDER"@ {
        lemma_colon_fold_order(xs, xs.len() as int);
    }
}

proof fn lemma_upper_keeps_space(s: Seq<char>, i: int)
    requires
        0 <= i < s.len(),
        crate::text::is_white_space(s[i]),
    ensures
        upper(s)[i] == s[i],
{
}

proof fn lemma_kind_chars(k: Seq<char>)
    requires
        is_colon_kind(k),
    ensures
        forall|j: int| 0 <= j < k.len() ==> !crate::text::is_white_space(#[trigger] k[j]),
{
    reveal_strlit("SQL_TYPE");
    reveal_strlit("ALIAS_FIELDS");
    reveal_strlit("CONDITION");
    reveal_strlit("ORDER");
    if k == "SQL_TYPE"@ {
        assert(k =~= seq!['S', 'Q', 'L', '_', 'T', 'Y', 'P', 'E']);
    } else if k == "ALIAS_FIELDS"@ {
        assert(k =~= seq!['A', 'L', 'I', 'A', 'S', '_', 'F', 'I', 'E', 'L', 'D', 'S']);
    } else if k == "CONDITION"@ {
        assert(k =~= seq!['C', 'O', 'N', 'D', 'I', 'T', 'I', 'O', 'N']);
    } else {
        assert(k =~= seq!['O', 'R', 'D', 'E', 'R']);
    }
}

/// An argument name that is split at `:` holds no white space, so trimming it changes nothing.
proof fn lemma_colon_kind_untrimmed(ident: Seq<char>)
    requires
        is_colon_kind(upper(ident)),
    ensures
        trim(ident) == ident,
{
    reveal_strlit("SQL_TYPE");
    reveal_strlit("ALIAS_FIELDS");
    reveal_strlit("CONDITION");
    reveal_strlit("ORDER");
    let u = upper(ident);
    lemma_kind_chars(u);
    assert forall|i: int| 0 <= i < ident.len() implies !crate::text::is_white_space(
        #[trigger] ident[i],
    ) by {
        if crate::text::is_white_space(ident[i]) {
            lemma_upper_keeps_space(ident, i);
            assert(u[i] == ident[i]);
        }
    }
    assert(crate::text::trim_start(ident) == ident);
    assert(crate::text::trim_end(ident) == ident);
}

/// The ghost form of one function described in the attribute.
pub ghost struct InnerModel {
    pub fn_name: Seq<char>,
    pub sql_type: (SqlType, SqlTypeExt),
    pub fields: Option<Seq<Seq<char>>>,
    pub condition: Option<Seq<(Seq<char>, Condition)>>,
    pub page: Option<bool>,
    pub order: Option<Seq<(Seq<char>, Order)>>,
    pub res_type: Option<bool>,
    pub exist_update: Option<bool>,
    pub pre_where_sql: Option<Seq<char>>,
}

/// One function that the attribute asks for.
pub struct Inner {
    /// The function's name.
    fn_name: String,
    /// The statement kind and the row count.
    sql_type: (SqlType, SqlTypeExt),
    /// The struct fields that the statement names; `None` names all of them.
    fields: Option<Vec<String>>,
    /// The struct fields that the `WHERE` clause compares, each with its comparison.
    condition: Option<Vec<(String, Condition)>>,
    /// Whether a read takes a limit.
    page: Option<bool>,
    /// The struct fields that a read sorts by, each with its direction.
    order: Option<Vec<(String, Order)>>,
    /// Whether a read gives the struct (`Some(true)`) or raw rows.
    res_type: Option<bool>,
    /// Whether a create updates a row that already exists.
    exist_update: Option<bool>,
    /// The part of a read before `FROM`, in place of the field list.
    pre_where_sql: Option<String>,
}

pub open spec fn opt_views(o: Option<Vec<String>>) -> Option<Seq<Seq<char>>> {
    match o {
        Some(v) => Some(views(v@)),
        None => None,
    }
}

pub open spec fn keyed<V>(v: Seq<(String, V)>) -> Seq<(Seq<char>, V)> {
    v.map_values(|p: (String, V)| (p.0@, p.1))
}

pub open spec fn opt_keyed<V>(o: Option<Vec<(String, V)>>) -> Option<Seq<(Seq<char>, V)>> {
    match o {
        Some(v) => Some(keyed(v@)),
        None => None,
    }
}

pub open spec fn opt_view(o: Option<String>) -> Option<Seq<char>> {
    match o {
        Some(s) => Some(s@),
        None => None,
    }
}

impl View for Inner {
    type V = InnerModel;

    closed spec fn view(&self) -> InnerModel {
        InnerModel {
            fn_name: self.fn_name@,
            sql_type: self.sql_type,
            fields: opt_views(self.fields),
            condition: opt_keyed(self.condition),
            page: self.page,
            order: opt_keyed(self.order),
            res_type: self.res_type,
            exist_update: self.exist_update,
            pre_where_sql: opt_view(self.pre_where_sql),
        }
    }
}

/// A function described by nothing but its braces: a single-row read that gives the struct.
pub open spec fn default_inner() -> InnerModel {
    InnerModel {
        fn_name: Seq::empty(),
        sql_type: (SqlType::READ, SqlTypeExt::SINGLE),
        fields: None,
        condition: None,
        page: None,
        order: None,
        res_type: Some(true),
        exist_update: None,
        pre_where_sql: None,
    }
}

impl Default for Inner {
    fn default() -> (r: Self)
        ensures
            r@ == default_inner(),
    {
        Inner {
            fn_name: String::new(),
            sql_type: (SqlType::READ, SqlTypeExt::SINGLE),
            fields: None,
            condition: None,
            page: None,
            order: None,
            res_type: Some(true),
            exist_update: None,
            pre_where_sql: None,
        }
    }
}

pub open spec fn condition_step(acc: Seq<(Seq<char>, Condition)>, p: (Seq<char>, Seq<char>)) -> Result<
    Seq<(Seq<char>, Condition)>,
    (AttrErrorKind, Seq<char>),
> {
    match condition_of(p.1) {
        Some(c) => Ok(acc.push((p.0, c))),
        None => Err((AttrErrorKind::InvalidCondition, p.1)),
    }
}

pub open spec fn condition_stepper() -> spec_fn(Seq<(Seq<char>, Condition)>, (Seq<char>, Seq<char>)) -> Result<
    Seq<(Seq<char>, Condition)>,
    (AttrErrorKind, Seq<char>),
> {
    |acc: Seq<(Seq<char>, Condition)>, p: (Seq<char>, Seq<char>)| condition_step(acc, p)
}

/// The pairs with each symbol read as a condition; the first symbol that names none is
/// an error.
pub open spec fn conditions_of(m: Seq<(Seq<char>, Seq<char>)>) -> Result<
    Seq<(Seq<char>, Condition)>,
    (AttrErrorKind, Seq<char>),
> {
    fold_seq(Seq::empty(), m, condition_stepper())
}

/// The pairs with each direction read as a sort direction.
pub open spec fn orders_of(m: Seq<(Seq<char>, Seq<char>)>) -> Seq<(Seq<char>, Order)> {
    m.map_values(|p: (Seq<char>, Seq<char>)| (p.0, order_of(p.1)->0))
}

/// The text of an argument's value: trimmed, then without its double quotes.
pub open spec fn arg_text(raw: Seq<char>) -> Seq<char> {
    without_char(trim(raw), '"')
}

/// The name of an argument: trimmed and in upper case.
pub open spec fn arg_name(ident: Seq<char>) -> Seq<char> {
    upper(trim(ident))
}

/// One argument `ident = raw` of a function, applied to what was read of it so far.
pub open spec fn inner_arg(inner: InnerModel, ident: Seq<char>, raw: Seq<char>) -> Result<
    InnerModel,
    (AttrErrorKind, Seq<char>),
> {
    let lit = arg_text(raw);
    let key = arg_name(ident);
    if key == "FN_NAME"@ {
        Ok(InnerModel { fn_name: lit, ..inner })
    } else if key == "SQL_TYPE"@ {
        match split_colon(ident, lit) {
            Ok(m) => Ok(
                InnerModel {
                    sql_type: (sql_type_of(m[0].0)->0, sql_type_ext_of(m[0].1)->0),
                    ..inner
                },
            ),
            Err(e) => Err(e),
        }
    } else if key == "FIELDS"@ {
        Ok(InnerModel { fields: Some(comma_list(lit)), ..inner })
    } else if key == "CONDITION"@ {
        match split_colon(ident, lit) {
            Ok(m) => match conditions_of(m) {
                Ok(c) => Ok(InnerModel { condition: Some(c), ..inner }),
                Err(e) => Err(e),
            },
            Err(e) => Err(e),
        }
    } else if key == "PAGE"@ {
        match parse_bool(lit) {
            Some(b) => Ok(InnerModel { page: Some(b), ..inner }),
            None => Err((AttrErrorKind::InvalidPage, lit)),
        }
    } else if key == "ORDER"@ {
        match split_colon(ident, lit) {
            Ok(m) => Ok(InnerModel { order: Some(orders_of(m)), ..inner }),
            Err(e) => Err(e),
        }
    } else if key == "RES_TYPE"@ {
        match parse_bool(lit) {
            Some(b) => Ok(InnerModel { res_type: Some(b), ..inner }),
            None => Err((AttrErrorKind::InvalidResType, lit)),
        }
    } else if key == "EXIST_UPDATE"@ {
        match parse_bool(lit) {
            Some(b) => Ok(InnerModel { exist_update: Some(b), ..inner }),
            None => Err((AttrErrorKind::InvalidExistUpdate, lit)),
        }
    } else if key == "PRE_WHERE_SQL"@ {
        Ok(InnerModel { pre_where_sql: Some(lit), ..inner })
    } else {
        Err((AttrErrorKind::UnknownFunArg, key))
    }
}

fn to_conditions(m: &Vec<(String, String)>) -> (r: Result<Vec<(String, Condition)>, AttrError>)
    ensures
        match r {
            Ok(c) => conditions_of(string_pairs(m@)) == Ok::<
                Seq<(Seq<char>, Condition)>,
                (AttrErrorKind, Seq<char>),
            >(keyed(c@)),
            Err(e) => conditions_of(string_pairs(m@)) == Err::<
                Seq<(Seq<char>, Condition)>,
                (AttrErrorKind, Seq<char>),
            >(e@),
        },
{
    let ghost xs = string_pairs(m@);
    let ghost step = condition_stepper();
    let mut c: Vec<(String, Condition)> = Vec::new();
    let n = m.len();
    let mut i: usize = 0;
    assert(keyed(c@) =~= Seq::<(Seq<char>, Condition)>::empty());
    while i < n
        invariant
            n == xs.len(),
            xs == string_pairs(m@),
            step == condition_stepper(),
            i <= n,
            fold_seq(Seq::empty(), xs.take(i as int), step) == Ok::<
                Seq<(Seq<char>, Condition)>,
                (AttrErrorKind, Seq<char>),
            >(keyed(c@)),
        decreases n - i,
    {
        proof {
            lemma_fold_step(Seq::empty(), xs, step, i as int);
        }
        assert(xs[i as int] == (m@[i as int].0@, m@[i as int].1@));
        assert(step(keyed(c@), xs[i as int]) == condition_step(keyed(c@), xs[i as int]));
        match read_condition(m[i].1.as_str()) {
            Some(x) => {
                let ghost before = keyed(c@);
                c.push((m[i].0.clone(), x));
                assert(keyed(c@) =~= before.push((m@[i as int].0@, x)));
            },
            None => {
                proof {
                    lemma_fold_err(Seq::empty(), xs, step, i + 1);
                }
                return Err(attr_error(AttrErrorKind::InvalidCondition, m[i].1.clone()));
            },
        }
        i = i + 1;
    }
    proof {
        lemma_fold_whole(Seq::empty(), xs, step);
    }
    Ok(c)
}

fn to_orders(m: &Vec<(String, String)>) -> (r: Vec<(String, Order)>)
    requires
        valid_order_pairs(string_pairs(m@)),
    ensures
        keyed(r@) == orders_of(string_pairs(m@)),
{
    let ghost xs = string_pairs(m@);
    let mut o: Vec<(String, Order)> = Vec::new();
    let n = m.len();
    let mut i: usize = 0;
    while i < n
        invariant
            n == xs.len(),
            xs == string_pairs(m@),
            valid_order_pairs(xs),
            i <= n,
            keyed(o@) == orders_of(xs).take(i as int),
        decreases n - i,
    {
        assert(xs[i as int] == (m@[i as int].0@, m@[i as int].1@));
        assert(order_of(xs[i as int].1) is Some);
        let d = Order::match_type(m[i].1.as_str());
        let ghost before = keyed(o@);
        o.push((m[i].0.clone(), d));
        assert(keyed(o@) =~= before.push((m@[i as int].0@, d)));
        assert(keyed(o@) =~= orders_of(xs).take(i + 1));
        i = i + 1;
    }
    assert(orders_of(xs).take(n as int) =~= orders_of(xs));
    o
}

impl Inner {
    pub fn get_fn_name(&self) -> (r: &String)
        ensures
            r@ == self@.fn_name,
    {
        &self.fn_name
    }

    pub fn get_sql_type(&self) -> (r: &(SqlType, SqlTypeExt))
        ensures
            *r == self@.sql_type,
    {
        &self.sql_type
    }

    pub fn get_fields(&self) -> (r: &Option<Vec<String>>)
        ensures
            opt_views(*r) == self@.fields,
    {
        &self.fields
    }

    pub fn get_condition(&self) -> (r: &Option<Vec<(String, Condition)>>)
        ensures
            opt_keyed(*r) == self@.condition,
    {
        &self.condition
    }

    pub fn get_page(&self) -> (r: &Option<bool>)
        ensures
            *r == self@.page,
    {
        &self.page
    }

    pub fn get_order(&self) -> (r: &Option<Vec<(String, Order)>>)
        ensures
            opt_keyed(*r) == self@.order,
    {
        &self.order
    }

    pub fn get_res_type(&self) -> (r: &Option<bool>)
        ensures
            *r == self@.res_type,
    {
        &self.res_type
    }

    pub fn get_exist_update(&self) -> (r: &Option<bool>)
        ensures
            *r == self@.exist_update,
    {
        &self.exist_update
    }

    pub fn get_pre_where_sql(&self) -> (r: &Option<String>)
        ensures
            opt_view(*r) == self@.pre_where_sql,
    {
        &self.pre_where_sql
    }

    /// Applies the argument `ident_str = literal_str` of a function to `self`.
    pub fn parse_ident(&mut self, ident_str: &str, literal_str: &str) -> (r: Result<(), AttrError>)
        ensures
            match r {
                Ok(()) => inner_arg(old(self)@, ident_str@, literal_str@) == Ok::<
                    InnerModel,
                    (AttrErrorKind, Seq<char>),
                >(final(self)@),
                Err(e) => inner_arg(old(self)@, ident_str@, literal_str@) == Err::<
                    InnerModel,
                    (AttrErrorKind, Seq<char>),
                >(e@),
            },
    {
        let lit = remove_char(trimmed(literal_str).as_str(), '"');
        let key = to_upper(trimmed(ident_str).as_str());
        if same_text(key.as_str(), "FN_NAME") {
            self.fn_name = lit;
            Ok(())
        } else if same_text(key.as_str(), "SQL_TYPE") {
            match literal_split_by_colon(ident_str, lit.as_str()) {
                Ok(m) => {
                    proof {
                        lemma_split_colon_facts(ident_str@, lit@);
                        lemma_colon_kind_untrimmed(ident_str@);
                        assert(string_pairs(m@)[0] == (m@[0].0@, m@[0].1@));
                        assert(sql_type_of(string_pairs(m@)[0].0) is Some);
                    }
                    let st = SqlType::match_type(m[0].0.as_str());
                    let ste = SqlTypeExt::match_type(m[0].1.as_str());
                    self.sql_type = (st, ste);
                    Ok(())
                },
                Err(e) => Err(e),
            }
        } else if same_text(key.as_str(), "FIELDS") {
            self.fields = Some(literal_split_by_comma(lit.as_str()));
            Ok(())
        } else if same_text(key.as_str(), "CONDITION") {
            match literal_split_by_colon(ident_str, lit.as_str()) {
                Ok(m) => match to_conditions(&m) {
                    Ok(c) => {
                        self.condition = Some(c);
                        Ok(())
                    },
                    Err(e) => Err(e),
                },
                Err(e) => Err(e),
            }
        } else if same_text(key.as_str(), "PAGE") {
            match read_bool(lit.as_str()) {
                Some(b) => {
                    self.page = Some(b);
                    Ok(())
                },
                None => Err(attr_error(AttrErrorKind::InvalidPage, lit)),
            }
        } else if same_text(key.as_str(), "ORDER") {
            match literal_split_by_colon(ident_str, lit.as_str()) {
                Ok(m) => {
                    proof {
                        lemma_split_colon_facts(ident_str@, lit@);
                        lemma_colon_kind_untrimmed(ident_str@);
                    }
                    self.order = Some(to_orders(&m));
                    Ok(())
                },
                Err(e) => Err(e),
            }
        } else if same_text(key.as_str(), "RES_TYPE") {
            match read_bool(lit.as_str()) {
                Some(b) => {
                    self.res_type = Some(b);
                    Ok(())
                },
                None => Err(attr_error(AttrErrorKind::InvalidResType, lit)),
            }
        } else if same_text(key.as_str(), "EXIST_UPDATE") {
            match read_bool(lit.as_str()) {
                Some(b) => {
                    self.exist_update = Some(b);
                    Ok(())
                },
                None => Err(attr_error(AttrErrorKind::InvalidExistUpdate, lit)),
            }
        } else if same_text(key.as_str(), "PRE_WHERE_SQL") {
            self.pre_where_sql = Some(lit);
            Ok(())
        } else {
            Err(attr_error(AttrErrorKind::UnknownFunArg, key))
        }
    }
}

/// The ghost form of what the attribute of a struct asks for.
pub ghost struct StateModel {
    pub table_name: Seq<char>,
    pub alias_fields: Option<Seq<(Seq<char>, Seq<char>)>>,
    pub field_name_to_snake: Option<bool>,
    pub funs: Seq<InnerModel>,
}

/// What the attribute of a struct asks for: the table, how struct fields map to table
/// fields, and the functions to generate.
pub struct State {
    /// The table's name.
    table_name: String,
    /// Struct fields whose table field has another name, as (struct field, table field).
    alias_fields: Option<Vec<(String, String)>>,
    /// Whether the other struct fields map to their snake-case form.
    field_name_to_snake: Option<bool>,
    /// The functions to generate.
    funs: Vec<Inner>,
}

pub open spec fn inner_views(v: Seq<Inner>) -> Seq<InnerModel> {
    v.map_values(|i: Inner| i@)
}

pub open spec fn opt_pairs(o: Option<Vec<(String, String)>>) -> Option<Seq<(Seq<char>, Seq<char>)>> {
    match o {
        Some(v) => Some(string_pairs(v@)),
        None => None,
    }
}

impl View for State {
    type V = StateModel;

    closed spec fn view(&self) -> StateModel {
        StateModel {
            table_name: self.table_name@,
            alias_fields: opt_pairs(self.alias_fields),
            field_name_to_snake: self.field_name_to_snake,
            funs: inner_views(self.funs@),
        }
    }
}

/// An attribute with no arguments.
pub open spec fn default_state() -> StateModel {
    StateModel {
        table_name: Seq::empty(),
        alias_fields: None,
        field_name_to_snake: None,
        funs: Seq::empty(),
    }
}

impl Default for State {
    fn default() -> (r: Self)
        ensures
            r@ == default_state(),
    {
        let r = State {
            table_name: String::new(),
            alias_fields: None,
            field_name_to_snake: None,
            funs: Vec::new(),
        };
        assert(r@.funs =~= Seq::<InnerModel>::empty());
        r
    }
}

/// One argument `ident = raw` of the attribute, applied to what was read of it so far.
pub open spec fn state_arg(st: StateModel, ident: Seq<char>, raw: Seq<char>) -> Result<
    StateModel,
    (AttrErrorKind, Seq<char>),
> {
    let lit = arg_text(raw);
    let key = arg_name(ident);
    if key == "TABLE_NAME"@ {
        Ok(StateModel { table_name: lit, ..st })
    } else if key == "FIELD_NAME_TO_SNAKE"@ {
        match parse_bool(lit) {
            Some(b) => Ok(StateModel { field_name_to_snake: Some(b), ..st }),
            None => Err((AttrErrorKind::InvalidFieldNameToSnake, lit)),
        }
    } else if key == "ALIAS_FIELDS"@ {
        match split_colon(ident, lit) {
            Ok(m) => Ok(StateModel { alias_fields: Some(m), ..st }),
            Err(e) => Err(e),
        }
    } else if key == "FUNS"@ {
        Ok(st)
    } else {
        Err((AttrErrorKind::UnknownArg, key))
    }
}

impl State {
    pub fn get_table_name(&self) -> (r: &String)
        ensures
            r@ == self@.table_name,
    {
        &self.table_name
    }

    pub fn get_alias_fields(&self) -> (r: &Option<Vec<(String, String)>>)
        ensures
            opt_pairs(*r) == self@.alias_fields,
    {
        &self.alias_fields
    }

    pub fn get_field_name_to_snake(&self) -> (r: &Option<bool>)
        ensures
            *r == self@.field_name_to_snake,
    {
        &self.field_name_to_snake
    }

    pub fn get_funs(&self) -> (r: &Vec<Inner>)
        ensures
            inner_views(r@) == self@.funs,
    {
        &self.funs
    }

    pub fn set_funs(&mut self, funs: Vec<Inner>)
        ensures
            final(self)@ == (StateModel { funs: inner_views(funs@), ..old(self)@ }),
    {
        self.funs = funs;
    }

    /// Applies the argument `ident_str = literal_str` of the attribute to `self`.
    pub fn parse_ident(&mut self, ident_str: &str, literal_str: &str) -> (r: Result<(), AttrError>)
        ensures
            match r {
                Ok(()) => state_arg(old(self)@, ident_str@, literal_str@) == Ok::<
                    StateModel,
                    (AttrErrorKind, Seq<char>),
                >(final(self)@),
                Err(e) => state_arg(old(self)@, ident_str@, literal_str@) == Err::<
                    StateModel,
                    (AttrErrorKind, Seq<char>),
                >(e@),
            },
    {
        let lit = remove_char(trimmed(literal_str).as_str(), '"');
        let key = to_upper(trimmed(ident_str).as_str());
        if same_text(key.as_str(), "TABLE_NAME") {
            self.table_name = lit;
            Ok(())
        } else if same_text(key.as_str(), "FIELD_NAME_TO_SNAKE") {
            match read_bool(lit.as_str()) {
                Some(b) => {
                    self.field_name_to_snake = Some(b);
                    Ok(())
                },
                None => Err(attr_error(AttrErrorKind::InvalidFieldNameToSnake, lit)),
            }
        } else if same_text(key.as_str(), "ALIAS_FIELDS") {
            match literal_split_by_colon(ident_str, lit.as_str()) {
                Ok(m) => {
                    self.alias_fields = Some(m);
                    Ok(())
                },
                Err(e) => Err(e),
            }
        } else if same_text(key.as_str(), "FUNS") {
            Ok(())
        } else {
            Err(attr_error(AttrErrorKind::UnknownArg, key))
        }
    }
}

pub open spec fn fun_token_step(acc: (InnerModel, Seq<char>), t: AttrToken) -> Result<
    (InnerModel, Seq<char>),
    (AttrErrorKind, Seq<char>),
> {
    match t {
        AttrToken::Ident(s) => Ok((acc.0, s@)),
        AttrToken::Literal(l) => match inner_arg(acc.0, acc.1, l@) {
            Ok(i) => Ok((i, acc.1)),
            Err(e) => Err(e),
        },
        _ => Ok(acc),
    }
}

pub open spec fn fun_stepper() -> spec_fn((InnerModel, Seq<char>), AttrToken) -> Result<
    (InnerModel, Seq<char>),
    (AttrErrorKind, Seq<char>),
> {
    |acc: (InnerModel, Seq<char>), t: AttrToken| fun_token_step(acc, t)
}

/// The tokens in the braces of one function, read from a default function; `pre` is the
/// last identifier seen before them, and the result carries the last one seen after.
pub open spec fn fun_tokens(pre: Seq<char>, toks: Seq<AttrToken>) -> Result<
    (InnerModel, Seq<char>),
    (AttrErrorKind, Seq<char>),
> {
    fold_seq((default_inner(), pre), toks, fun_stepper())
}

pub open spec fn funs_token_step(acc: (Seq<InnerModel>, Seq<char>), t: AttrToken) -> Result<
    (Seq<InnerModel>, Seq<char>),
    (AttrErrorKind, Seq<char>),
> {
    match t {
        AttrToken::Group(g) => match fun_tokens(acc.1, g@) {
            Ok((i, p)) => Ok((acc.0.push(i), p)),
            Err(e) => Err(e),
        },
        _ => Ok(acc),
    }
}

pub open spec fn funs_stepper() -> spec_fn((Seq<InnerModel>, Seq<char>), AttrToken) -> Result<
    (Seq<InnerModel>, Seq<char>),
    (AttrErrorKind, Seq<char>),
> {
    |acc: (Seq<InnerModel>, Seq<char>), t: AttrToken| funs_token_step(acc, t)
}

/// The tokens in the brackets of `funs`: one function for each braced group.
pub open spec fn funs_tokens(pre: Seq<char>, toks: Seq<AttrToken>) -> Result<
    (Seq<InnerModel>, Seq<char>),
    (AttrErrorKind, Seq<char>),
> {
    fold_seq((Seq::empty(), pre), toks, funs_stepper())
}

pub open spec fn attr_token_step(acc: (StateModel, Seq<char>), t: AttrToken) -> Result<
    (StateModel, Seq<char>),
    (AttrErrorKind, Seq<char>),
> {
    match t {
        AttrToken::Group(g) => match funs_tokens(acc.1, g@) {
            Ok((v, p)) => Ok((StateModel { funs: v, ..acc.0 }, p)),
            Err(e) => Err(e),
        },
        AttrToken::Ident(s) => Ok((acc.0, s@)),
        AttrToken::Punct(_) => Ok(acc),
        AttrToken::Literal(l) => match state_arg(acc.0, acc.1, l@) {
            Ok(st) => Ok((st, acc.1)),
            Err(e) => Err(e),
        },
    }
}

pub open spec fn attr_stepper() -> spec_fn((StateModel, Seq<char>), AttrToken) -> Result<
    (StateModel, Seq<char>),
    (AttrErrorKind, Seq<char>),
> {
    |acc: (StateModel, Seq<char>), t: AttrToken| attr_token_step(acc, t)
}

/// What the attribute's tokens ask for: each literal is the value of the identifier last
/// seen before it, and the group of `funs` gives the functions.
pub open spec fn attr_of(toks: Seq<AttrToken>) -> Result<StateModel, (AttrErrorKind, Seq<char>)> {
    match fold_seq((default_state(), Seq::<char>::empty()), toks, attr_stepper()) {
        Ok((st, _)) => Ok(st),
        Err(e) => Err(e),
    }
}

/// Reads one function from the tokens in its braces.
pub fn parse_fun(toks: &Vec<AttrToken>, pre: String) -> (r: Result<(Inner, String), AttrError>)
    ensures
        match r {
            Ok((i, p)) => fun_tokens(pre@, toks@) == Ok::<
                (InnerModel, Seq<char>),
                (AttrErrorKind, Seq<char>),
            >((i@, p@)),
            Err(e) => fun_tokens(pre@, toks@) == Err::<
                (InnerModel, Seq<char>),
                (AttrErrorKind, Seq<char>),
            >(e@),
        },
{
    let ghost step = fun_stepper();
    let ghost pre0 = pre@;
    let ghost init = (default_inner(), pre0);
    let mut inner = Inner::default();
    let mut last = pre;
    let n = toks.len();
    let mut i: usize = 0;
    while i < n
        invariant
            n == toks@.len(),
            step == fun_stepper(),
            init == (default_inner(), pre0),
            pre0 == pre@,
            i <= n,
            fold_seq(init, toks@.take(i as int), step) == Ok::<
                (InnerModel, Seq<char>),
                (AttrErrorKind, Seq<char>),
            >((inner@, last@)),
        decreases n - i,
    {
        proof {
            lemma_fold_step(init, toks@, step, i as int);
        }
        assert(step((inner@, last@), toks@[i as int]) == fun_token_step((inner@, last@), toks@[i as int]));
        match &toks[i] {
            AttrToken::Ident(s) => {
                last = s.clone();
            },
            AttrToken::Literal(l) => {
                match inner.parse_ident(last.as_str(), l.as_str()) {
                    Ok(()) => {},
                    Err(e) => {
                        proof {
                            lemma_fold_err(init, toks@, step, i + 1);
                        }
                        return Err(e);
                    },
                }
            },
            _ => {},
        }
        i = i + 1;
    }
    proof {
        lemma_fold_whole(init, toks@, step);
    }
    Ok((inner, last))
}

/// Reads the functions from the tokens in the brackets of `funs`.
pub fn parse_funs(toks: &Vec<AttrToken>, pre: String) -> (r: Result<(Vec<Inner>, String), AttrError>)
    ensures
        match r {
            Ok((v, p)) => funs_tokens(pre@, toks@) == Ok::<
                (Seq<InnerModel>, Seq<char>),
                (AttrErrorKind, Seq<char>),
            >((inner_views(v@), p@)),
            Err(e) => funs_tokens(pre@, toks@) == Err::<
                (Seq<InnerModel>, Seq<char>),
                (AttrErrorKind, Seq<char>),
            >(e@),
        },
{
    let ghost step = funs_stepper();
    let ghost pre0 = pre@;
    let ghost init = (Seq::<InnerModel>::empty(), pre0);
    let mut funs: Vec<Inner> = Vec::new();
    let mut last = pre;
    let n = toks.len();
    let mut i: usize = 0;
    assert(inner_views(funs@) =~= Seq::<InnerModel>::empty());
    while i < n
        invariant
            n == toks@.len(),
            step == funs_stepper(),
            init == (Seq::<InnerModel>::empty(), pre0),
            pre0 == pre@,
            i <= n,
            fold_seq(init, toks@.take(i as int), step) == Ok::<
                (Seq<InnerModel>, Seq<char>),
                (AttrErrorKind, Seq<char>),
            >((inner_views(funs@), last@)),
        decreases n - i,
    {
        proof {
            lemma_fold_step(init, toks@, step, i as int);
        }
        assert(step((inner_views(funs@), last@), toks@[i as int]) == funs_token_step(
            (inner_views(funs@), last@),
            toks@[i as int],
        ));
        match &toks[i] {
            AttrToken::Group(g) => {
                let p = last.clone();
                match parse_fun(g, p) {
                    Ok((inner, p2)) => {
                        let ghost before = inner_views(funs@);
                        let ghost iv = inner@;
                        funs.push(inner);
                        assert(inner_views(funs@) =~= before.push(iv));
                        last = p2;
                    },
                    Err(e) => {
                        proof {
                            lemma_fold_err(init, toks@, step, i + 1);
                        }
                        return Err(e);
                    },
                }
            },
            _ => {},
        }
        i = i + 1;
    }
    proof {
        lemma_fold_whole(init, toks@, step);
    }
    Ok((funs, last))
}

/// Reads the arguments of the `crud` attribute: `table_name`, `alias_fields`,
/// `field_name_to_snake` and the functions in `funs`. Each error is one that the
/// arguments hold, the first in their order.
pub fn parse_attr(toks: &Vec<AttrToken>) -> (r: Result<State, AttrError>)
    ensures
        match r {
            Ok(st) => attr_of(toks@) == Ok::<StateModel, (AttrErrorKind, Seq<char>)>(st@),
            Err(e) => attr_of(toks@) == Err::<StateModel, (AttrErrorKind, Seq<char>)>(e@),
        },
{
    let ghost step = attr_stepper();
    let ghost init = (default_state(), Seq::<char>::empty());
    let mut state = State::default();
    let mut pre = String::new();
    let n = toks.len();
    let mut i: usize = 0;
    while i < n
        invariant
            n == toks@.len(),
            step == attr_stepper(),
            init == (default_state(), Seq::<char>::empty()),
            i <= n,
            fold_seq(init, toks@.take(i as int), step) == Ok::<
                (StateModel, Seq<char>),
                (AttrErrorKind, Seq<char>),
            >((state@, pre@)),
        decreases n - i,
    {
        proof {
            lemma_fold_step(init, toks@, step, i as int);
        }
        assert(step((state@, pre@), toks@[i as int]) == attr_token_step((state@, pre@), toks@[i as int]));
        match &toks[i] {
            AttrToken::Group(g) => {
                let p = pre.clone();
                match parse_funs(g, p) {
                    Ok((v, p2)) => {
                        state.set_funs(v);
                        pre = p2;
                    },
                    Err(e) => {
                        proof {
                            lemma_fold_err(init, toks@, step, i + 1);
                        }
                        return Err(e);
                    },
                }
            },
            AttrToken::Ident(s) => {
                pre = s.clone();
            },
            AttrToken::Punct(_) => {},
            AttrToken::Literal(l) => {
                match state.parse_ident(pre.as_str(), l.as_str()) {
                    Ok(()) => {},
                    Err(e) => {
                        proof {
                            lemma_fold_err(init, toks@, step, i + 1);
                        }
                        return Err(e);
                    },
                }
            },
        }
        i = i + 1;
    }
    proof {
        lemma_fold_whole(init, toks@, step);
    }
    Ok(state)
}

} // verus!
