use vstd::prelude::*;
use indexmap::IndexMap;
use crate::attr::{State, StateModel, Inner, InnerModel, opt_views, opt_keyed, opt_pairs, keyed};
use crate::field_map::{
    field_map_entries, field_map_new, field_map_insert, field_map_get, field_map_len,
    field_map_get_index,
};
use crate::fold::{fold_seq, lemma_fold_step, lemma_fold_whole, lemma_fold_err};
use crate::pairs::{
    distinct_keys, insert_entry, lookup, lookup_first, find_key, string_pairs, has_key, keys,
    lemma_insert_keeps_distinct, lemma_key_index_unique, lemma_lookup_first_at,
    lemma_lookup_first_none,
};
use crate::text::{join, views};
use crate::tools::{snake_case, to_snake_case, Condition, Order, SqlType, SqlTypeExt};

verus! {

/// A struct's name and the names of its fields, in the order they are declared.
pub struct StructInfo {
    pub struct_name: String,
    pub field_names: Vec<String>,
}

impl StructInfo {
    pub fn new(struct_name: String, field_names: Vec<String>) -> (r: Self)
        ensures
            r.struct_name@ == struct_name@,
            views(r.field_names@) == views(field_names@),
    {
        StructInfo { struct_name, field_names }
    }

    pub fn get_struct_name(&self) -> (r: &String)
        ensures
            r@ == self.struct_name@,
    {
        &self.struct_name
    }

    pub fn get_field_names(&self) -> (r: &Vec<String>)
        ensures
            views(r@) == views(self.field_names@),
    {
        &self.field_names
    }
}

/// The table field of the struct field `f`: its alias where `alias_fields` names one,
/// else its snake-case form where `field_name_to_snake` is true, else `f` itself.
pub open spec fn table_field_of(
    alias: Option<Seq<(Seq<char>, Seq<char>)>>,
    snake: Option<bool>,
    f: Seq<char>,
) -> Seq<char> {
    let plain = if snake == Some(true) {
        snake_case(f)
    } else {
        f
    };
    match alias {
        Some(m) => match lookup_first(m, f) {
            Some(t) => t,
            None => plain,
        },
        None => plain,
    }
}

/// The (struct field, table field) pairs of the struct's fields, in their order.
pub open spec fn field_map_of(
    alias: Option<Seq<(Seq<char>, Seq<char>)>>,
    snake: Option<bool>,
    fields: Seq<Seq<char>>,
) -> Seq<(Seq<char>, Seq<char>)>
    decreases fields.len(),
{
    if fields.len() == 0 {
        Seq::empty()
    } else {
        insert_entry(
            field_map_of(alias, snake, fields.drop_last()),
            fields.last(),
            table_field_of(alias, snake, fields.last()),
        )
    }
}

/// The (struct field, table field) pairs that the attribute gives the struct.
pub open spec fn struct_field_map(st: StateModel, fields: Seq<Seq<char>>) -> Seq<(Seq<char>, Seq<char>)> {
    field_map_of(st.alias_fields, st.field_name_to_snake, fields)
}

fn table_field(alias: &Option<Vec<(String, String)>>, snake: &Option<bool>, f: &String) -> (t: String)
    ensures
        t@ == table_field_of(opt_pairs(*alias), *snake, f@),
{
    let plain = match snake {
        Some(true) => to_snake_case(f.as_str()),
        _ => f.clone(),
    };
    match alias {
        Some(m) => match find_key(m, f.as_str()) {
            Some(j) => {
                proof {
                    lemma_lookup_first_at(string_pairs(m@), f@, j as int);
                    assert(string_pairs(m@)[j as int].1 == m@[j as int].1@);
                }
                m[j].1.clone()
            },
            None => {
                proof {
                    lemma_lookup_first_none(string_pairs(m@), f@);
                }
                plain
            },
        },
        None => plain,
    }
}

/// The map from each struct field to its table field, in the order of the fields.
pub fn build_struct_to_table_field_map(attr_state: &State, struct_info: &StructInfo) -> (m: IndexMap<String, String>)
    ensures
        field_map_entries(m) == struct_field_map(attr_state@, views(struct_info.field_names@)),
        distinct_keys(field_map_entries(m)),
{
    let alias = attr_state.get_alias_fields();
    let snake = attr_state.get_field_name_to_snake();
    let fields = &struct_info.field_names;
    let ghost fs = views(fields@);
    let mut m = field_map_new();
    let n = fields.len();
    let mut i: usize = 0;
    while i < n
        invariant
            n == fs.len(),
            fs == views(fields@),
            opt_pairs(*alias) == attr_state@.alias_fields,
            *snake == attr_state@.field_name_to_snake,
            i <= n,
            field_map_entries(m) == struct_field_map(attr_state@, fs.take(i as int)),
            distinct_keys(field_map_entries(m)),
        decreases n - i,
    {
        assert(fs.take(i + 1).drop_last() =~= fs.take(i as int));
        assert(fs[i as int] == fields@[i as int]@);
        let t = table_field(alias, snake, &fields[i]);
        proof {
            lemma_insert_keeps_distinct(field_map_entries(m), fields@[i as int]@, t@);
        }
        field_map_insert(&mut m, fields[i].clone(), t);
        i = i + 1;
    }
    assert(fs.take(n as int) =~= fs);
    m
}

pub open spec fn resolver(e: Seq<(Seq<char>, Seq<char>)>) -> spec_fn(Seq<Seq<char>>, Seq<char>) -> Result<
    Seq<Seq<char>>,
    Seq<char>,
> {
    |acc: Seq<Seq<char>>, n: Seq<char>|
        match lookup(e, n) {
            Some(t) => Ok(acc.push(t)),
            None => Err(n),
        }
}

/// The table fields of the struct fields `names`, or the first name that is no struct field.
pub open spec fn resolve(e: Seq<(Seq<char>, Seq<char>)>, names: Seq<Seq<char>>) -> Result<Seq<Seq<char>>, Seq<char>> {
    fold_seq(Seq::empty(), names, resolver(e))
}

fn get_table_field(map: &IndexMap<String, String>, k: &String) -> (r: Option<String>)
    requires
        distinct_keys(field_map_entries(*map)),
    ensures
        match r {
            Some(t) => lookup(field_map_entries(*map), k@) == Some(t@),
            None => lookup(field_map_entries(*map), k@) is None,
        },
{
    let ghost e = field_map_entries(*map);
    match field_map_get(map, k) {
        Some(v) => {
            proof {
                let i = choose|i: int| 0 <= i < e.len() && #[trigger] e[i] == (k@, v@);
                lemma_key_index_unique(e, i);
            }
            Some(v.clone())
        },
        None => None,
    }
}

/// The table fields of the struct fields `names`, or the first name that is no struct field.
pub fn resolve_fields(map: &IndexMap<String, String>, names: &Vec<String>) -> (r: Result<Vec<String>, String>)
    requires
        distinct_keys(field_map_entries(*map)),
    ensures
        match r {
            Ok(ts) => {
                &&& resolve(field_map_entries(*map), views(names@)) == Ok::<Seq<Seq<char>>, Seq<char>>(
                    views(ts@),
                )
                &&& ts@.len() == names@.len()
                &&& forall|i: int|
                    0 <= i < names@.len() ==> lookup(field_map_entries(*map), #[trigger] names@[i]@)
                        == Some(ts@[i]@)
            },
            Err(n) => resolve(field_map_entries(*map), views(names@)) == Err::<Seq<Seq<char>>, Seq<char>>(
                n@,
            ),
        },
{
    let ghost e = field_map_entries(*map);
    let ghost xs = views(names@);
    let ghost step = resolver(e);
    let mut ts: Vec<String> = Vec::new();
    let n = names.len();
    let mut i: usize = 0;
    assert(views(ts@) =~= Seq::<Seq<char>>::empty());
    while i < n
        invariant
            n == xs.len(),
            xs == views(names@),
            e == field_map_entries(*map),
            step == resolver(e),
            distinct_keys(e),
            i <= n,
            ts@.len() == i,
            fold_seq(Seq::empty(), xs.take(i as int), step) == Ok::<Seq<Seq<char>>, Seq<char>>(
                views(ts@),
            ),
            forall|j: int| 0 <= j < i ==> lookup(e, #[trigger] names@[j]@) == Some(ts@[j]@),
        decreases n - i,
    {
        proof {
            lemma_fold_step(Seq::empty(), xs, step, i as int);
        }
        assert(xs[i as int] == names@[i as int]@);
        match get_table_field(map, &names[i]) {
            Some(t) => {
                let ghost before = views(ts@);
                let ghost tv = t@;
                ts.push(t);
                assert(views(ts@) =~= before.push(tv));
            },
            None => {
                proof {
                    lemma_fold_err(Seq::empty(), xs, step, i + 1);
                }
                return Err(names[i].clone());
            },
        }
        i = i + 1;
    }
    proof {
        lemma_fold_whole(Seq::empty(), xs, step);
    }
    Ok(ts)
}

/// The pairs of the names with their table fields.
pub open spec fn zip_pairs(names: Seq<Seq<char>>, ts: Seq<Seq<char>>) -> Seq<(Seq<char>, Seq<char>)> {
    Seq::new(names.len(), |i: int| (names[i], ts[i]))
}

/// The (struct field, table field) pairs that a statement names: all of them when
/// `fields` is `None`, else those of `fields` in its order; or the first name that is no
/// struct field.
pub open spec fn selected(e: Seq<(Seq<char>, Seq<char>)>, fields: Option<Seq<Seq<char>>>) -> Result<
    Seq<(Seq<char>, Seq<char>)>,
    Seq<char>,
> {
    match fields {
        None => Ok(e),
        Some(names) => match resolve(e, names) {
            Ok(ts) => Ok(zip_pairs(names, ts)),
            Err(n) => Err(n),
        },
    }
}

fn all_entries(map: &IndexMap<String, String>) -> (r: Vec<(String, String)>)
    ensures
        string_pairs(r@) == field_map_entries(*map),
{
    let ghost e = field_map_entries(*map);
    let n = field_map_len(map);
    let mut r: Vec<(String, String)> = Vec::new();
    let mut i: usize = 0;
    while i < n
        invariant
            n == e.len(),
            e == field_map_entries(*map),
            i <= n,
            string_pairs(r@) == e.take(i as int),
        decreases n - i,
    {
        match field_map_get_index(map, i) {
            Some((k, v)) => {
                let ghost before = string_pairs(r@);
                r.push((k.clone(), v.clone()));
                assert(string_pairs(r@) =~= before.push((k@, v@)));
                assert(e.take(i + 1) =~= e.take(i as int).push(e[i as int]));
            },
            None => {},
        }
        i = i + 1;
    }
    assert(e.take(n as int) =~= e);
    r
}

/// The (struct field, table field) pairs that a statement names, or the first name in
/// `fields` that is no struct field.
pub fn select_fields(map: &IndexMap<String, String>, fields: &Option<Vec<String>>) -> (r: Result<Vec<(String, String)>, String>)
    requires
        distinct_keys(field_map_entries(*map)),
    ensures
        match r {
            Ok(p) => selected(field_map_entries(*map), opt_views(*fields)) == Ok::<
                Seq<(Seq<char>, Seq<char>)>,
                Seq<char>,
            >(string_pairs(p@)),
            Err(n) => selected(field_map_entries(*map), opt_views(*fields)) == Err::<
                Seq<(Seq<char>, Seq<char>)>,
                Seq<char>,
            >(n@),
        },
{
    match fields {
        None => Ok(all_entries(map)),
        Some(names) => match resolve_fields(map, names) {
            Ok(ts) => {
                let mut r: Vec<(String, String)> = Vec::new();
                let n = names.len();
                let mut i: usize = 0;
                while i < n
                    invariant
                        n == names@.len(),
                        n == ts@.len(),
                        i <= n,
                        string_pairs(r@) == zip_pairs(views(names@), views(ts@)).take(i as int),
                    decreases n - i,
                {
                    let ghost before = string_pairs(r@);
                    r.push((names[i].clone(), ts[i].clone()));
                    assert(string_pairs(r@) =~= before.push((names@[i as int]@, ts@[i as int]@)));
                    assert(string_pairs(r@) =~= zip_pairs(views(names@), views(ts@)).take(i + 1));
                    i = i + 1;
                }
                assert(zip_pairs(views(names@), views(ts@)).take(n as int) =~= zip_pairs(
                    views(names@),
                    views(ts@),
                ));
                Ok(r)
            },
            Err(n) => Err(n),
        },
    }
}

/// `a`, `b` and `c` one after another.
pub fn concat3(a: &str, b: &str, c: &str) -> (r: String)
    ensures
        r@ == a@ + b@ + c@,
{
    let mut r = a.to_owned();
    r.append(b);
    r.append(c);
    r
}

/// Appends the parts to `out`, with `sep` between each two of them.
pub fn join_into(out: &mut String, parts: &Vec<String>, sep: &str)
    ensures
        final(out)@ == old(out)@ + join(views(parts@), sep@),
{
    let ghost start = out@;
    let ghost ps = views(parts@);
    let n = parts.len();
    let mut i: usize = 0;
    assert(join(ps.take(0), sep@) =~= Seq::<char>::empty());
    assert(out@ =~= start + join(ps.take(0), sep@));
    while i < n
        invariant
            n == ps.len(),
            ps == views(parts@),
            i <= n,
            out@ == start + join(ps.take(i as int), sep@),
        decreases n - i,
    {
        assert(ps.take(i + 1).drop_last() =~= ps.take(i as int));
        assert(ps[i as int] == parts@[i as int]@);
        if i > 0 {
            out.append(sep);
        } else {
            assert(join(ps.take(i as int), sep@) =~= Seq::<char>::empty());
        }
        out.append(parts[i].as_str());
        assert(out@ =~= start + join(ps.take(i + 1), sep@));
        i = i + 1;
    }
    assert(ps.take(n as int) =~= ps);
}

/// The parts joined with `sep` between each two of them.
pub fn joined(parts: &Vec<String>, sep: &str) -> (r: String)
    ensures
        r@ == join(views(parts@), sep@),
{
    let mut r = String::new();
    join_into(&mut r, parts, sep);
    assert(r@ =~= join(views(parts@), sep@));
    r
}

/// How a read names one column: the table field, and the struct field after it where they differ.
pub open spec fn column_piece(t: Seq<char>, f: Seq<char>) -> Seq<char> {
    if t == f {
        f
    } else {
        t + " "@ + f
    }
}

/// How a statement writes the pair of the struct field `f` and the table field `t`.
pub open spec fn piece_text(kind: PieceKind, f: Seq<char>, t: Seq<char>) -> Seq<char> {
    match kind {
        PieceKind::Column => column_piece(t, f),
        PieceKind::Assign => t + "=:"@ + f,
        PieceKind::Table => t,
        PieceKind::Value => ":"@ + f,
        PieceKind::Duplicate => t + "=VALUES("@ + t + ")"@,
    }
}

/// The pieces that `kind` makes of the pairs: read columns, update assignments, table
/// fields, named values, or updates on a duplicate key.
pub open spec fn pieces_of(kind: PieceKind, sel: Seq<(Seq<char>, Seq<char>)>) -> Seq<Seq<char>> {
    sel.map_values(|p: (Seq<char>, Seq<char>)| piece_text(kind, p.0, p.1))
}

/// The ways a statement writes a (struct field, table field) pair.
#[derive(Clone, Copy, Debug, PartialEq, Eq, Structural)]
pub enum PieceKind {
    Column,
    Assign,
    Table,
    Value,
    Duplicate,
}

fn piece(kind: PieceKind, f: &String, t: &String) -> (r: String)
    ensures
        r@ == piece_text(kind, f@, t@),
{
    match kind {
        PieceKind::Column => {
            if crate::text::same_text(t.as_str(), f.as_str()) {
                f.clone()
            } else {
                concat3(t.as_str(), " ", f.as_str())
            }
        },
        PieceKind::Assign => concat3(t.as_str(), "=:", f.as_str()),
        PieceKind::Table => t.clone(),
        PieceKind::Value => {
            let mut r = ":".to_owned();
            r.append(f.as_str());
            r
        },
        PieceKind::Duplicate => {
            let mut r = concat3(t.as_str(), "=VALUES(", t.as_str());
            r.append(")");
            r
        },
    }
}

/// The pieces that `kind` makes of the pairs.
pub fn make_pieces(kind: PieceKind, sel: &Vec<(String, String)>) -> (r: Vec<String>)
    ensures
        views(r@) == pieces_of(kind, string_pairs(sel@)),
{
    let ghost ps = string_pairs(sel@);
    let mut r: Vec<String> = Vec::new();
    let n = sel.len();
    let mut i: usize = 0;
    while i < n
        invariant
            n == ps.len(),
            ps == string_pairs(sel@),
            i <= n,
            views(r@) == pieces_of(kind, ps).take(i as int),
        decreases n - i,
    {
        let x = piece(kind, &sel[i].0, &sel[i].1);
        assert(ps[i as int] == (sel@[i as int].0@, sel@[i as int].1@));
        let ghost before = views(r@);
        let ghost xv = x@;
        r.push(x);
        assert(views(r@) =~= before.push(xv));
        assert(views(r@) =~= pieces_of(kind, ps).take(i + 1));
        i = i + 1;
    }
    assert(pieces_of(kind, ps).take(n as int) =~= pieces_of(kind, ps));
    r
}

/// The struct fields of the pairs, in order.
pub fn struct_fields(sel: &Vec<(String, String)>) -> (r: Vec<String>)
    ensures
        views(r@) == keys(string_pairs(sel@)),
{
    let ghost ps = string_pairs(sel@);
    let mut r: Vec<String> = Vec::new();
    let n = sel.len();
    let mut i: usize = 0;
    while i < n
        invariant
            n == ps.len(),
            ps == string_pairs(sel@),
            i <= n,
            views(r@) == keys(ps).take(i as int),
        decreases n - i,
    {
        let ghost before = views(r@);
        r.push(sel[i].0.clone());
        assert(ps[i as int] == (sel@[i as int].0@, sel@[i as int].1@));
        assert(views(r@) =~= before.push(sel@[i as int].0@));
        assert(views(r@) =~= keys(ps).take(i + 1));
        i = i + 1;
    }
    assert(keys(ps).take(n as int) =~= keys(ps));
    r
}

/// Why a function cannot be generated: a field that it names is no field of the struct.
#[derive(Clone, Copy, Debug, PartialEq, Eq, Structural)]
pub enum CrudErrorKind {
    /// A name in `fields`.
    UnknownField,
    /// A name in the `condition` of a read.
    UnknownConditionField,
    /// A name in the `order` of a read.
    UnknownOrderField,
    /// A name in the `condition` of an update or a delete.
    UnknownFnConditionField,
}

/// A field name that the function `fn_name` uses and the struct does not have.
#[derive(Debug)]
pub struct CrudError {
    pub kind: CrudErrorKind,
    pub fn_name: String,
    pub field: String,
}

impl View for CrudError {
    type V = (CrudErrorKind, Seq<char>, Seq<char>);

    open spec fn view(&self) -> (CrudErrorKind, Seq<char>, Seq<char>) {
        (self.kind, self.fn_name@, self.field@)
    }
}

fn crud_error(kind: CrudErrorKind, fn_name: &String, field: String) -> (e: CrudError)
    ensures
        e@ == (kind, fn_name@, field@),
{
    CrudError { kind, fn_name: fn_name.clone(), field }
}

/// The names of the pairs, in order.
pub fn key_names<V: Copy>(c: &Vec<(String, V)>) -> (r: Vec<String>)
    ensures
        views(r@) == keys(keyed(c@)),
{
    let ghost ks = keys(keyed(c@));
    let mut r: Vec<String> = Vec::new();
    let n = c.len();
    let mut i: usize = 0;
    while i < n
        invariant
            n == c@.len(),
            ks == keys(keyed(c@)),
            i <= n,
            views(r@) == ks.take(i as int),
        decreases n - i,
    {
        let ghost before = views(r@);
        r.push(c[i].0.clone());
        assert(views(r@) =~= before.push(c@[i as int].0@));
        assert(ks[i as int] == c@[i as int].0@);
        assert(views(r@) =~= ks.take(i + 1));
        i = i + 1;
    }
    assert(ks.take(n as int) =~= ks);
    r
}

/// The comparisons of a `WHERE` clause: table field, operator, `prefix` and struct field.
pub open spec fn cond_pieces(conds: Seq<(Seq<char>, Condition)>, ts: Seq<Seq<char>>, prefix: Seq<char>) -> Seq<
    Seq<char>,
> {
    Seq::new(conds.len(), |i: int| ts[i] + conds[i].1.spec_value() + prefix + conds[i].0)
}

/// The `WHERE` clause of the conditions and the struct fields it compares, or the first
/// compared name that is no struct field.
pub open spec fn where_of(
    e: Seq<(Seq<char>, Seq<char>)>,
    cond: Option<Seq<(Seq<char>, Condition)>>,
    prefix: Seq<char>,
) -> Result<(Seq<char>, Seq<Seq<char>>), Seq<char>> {
    match cond {
        None => Ok((Seq::empty(), Seq::empty())),
        Some(c) => match resolve(e, keys(c)) {
            Ok(ts) => Ok((" WHERE "@ + join(cond_pieces(c, ts, prefix), " AND "@), keys(c))),
            Err(n) => Err(n),
        },
    }
}

/// The sort keys of an `ORDER BY` clause: table field and direction.
pub open spec fn order_pieces(ords: Seq<(Seq<char>, Order)>, ts: Seq<Seq<char>>) -> Seq<Seq<char>> {
    Seq::new(ords.len(), |i: int| ts[i] + " "@ + ords[i].1.spec_value())
}

/// The `ORDER BY` clause, or the first sort name that is no struct field.
pub open spec fn order_by_of(e: Seq<(Seq<char>, Seq<char>)>, ord: Option<Seq<(Seq<char>, Order)>>) -> Result<
    Seq<char>,
    Seq<char>,
> {
    match ord {
        None => Ok(Seq::empty()),
        Some(o) => match resolve(e, keys(o)) {
            Ok(ts) => Ok(" ORDER BY "@ + join(order_pieces(o, ts), ","@)),
            Err(n) => Err(n),
        },
    }
}

/// The `WHERE` clause of `cond`, with `prefix` before each struct field, and the struct
/// fields that it compares.
pub fn where_clause(map: &IndexMap<String, String>, cond: &Option<Vec<(String, Condition)>>, prefix: &str) -> (r: Result<
    (String, Vec<String>),
    String,
>)
    requires
        distinct_keys(field_map_entries(*map)),
    ensures
        match r {
            Ok((w, ps)) => where_of(field_map_entries(*map), opt_keyed(*cond), prefix@) == Ok::<
                (Seq<char>, Seq<Seq<char>>),
                Seq<char>,
            >((w@, views(ps@))),
            Err(n) => where_of(field_map_entries(*map), opt_keyed(*cond), prefix@) == Err::<
                (Seq<char>, Seq<Seq<char>>),
                Seq<char>,
            >(n@),
        },
{
    match cond {
        None => {
            let v: Vec<String> = Vec::new();
            assert(views(v@) =~= Seq::<Seq<char>>::empty());
            Ok((String::new(), v))
        },
        Some(c) => {
            let names = key_names(c);
            match resolve_fields(map, &names) {
                Ok(ts) => {
                    let ghost cs = keyed(c@);
                    let mut pieces: Vec<String> = Vec::new();
                    let n = c.len();
                    let mut i: usize = 0;
                    while i < n
                        invariant
                            n == c@.len(),
                            n == ts@.len(),
                            cs == keyed(c@),
                            i <= n,
                            views(pieces@) == cond_pieces(cs, views(ts@), prefix@).take(i as int),
                        decreases n - i,
                    {
                        let mut x = ts[i].clone();
                        x.append(c[i].1.get_value());
                        x.append(prefix);
                        x.append(c[i].0.as_str());
                        let ghost before = views(pieces@);
                        let ghost xv = x@;
                        pieces.push(x);
                        assert(views(pieces@) =~= before.push(xv));
                        assert(views(pieces@) =~= cond_pieces(cs, views(ts@), prefix@).take(i + 1));
                        i = i + 1;
                    }
                    assert(cond_pieces(cs, views(ts@), prefix@).take(n as int) =~= cond_pieces(
                        cs,
                        views(ts@),
                        prefix@,
                    ));
                    let mut w = " WHERE ".to_owned();
                    join_into(&mut w, &pieces, " AND ");
                    Ok((w, names))
                },
                Err(n) => Err(n),
            }
        },
    }
}

/// The `ORDER BY` clause of `ord`.
pub fn order_by_clause(map: &IndexMap<String, String>, ord: &Option<Vec<(String, Order)>>) -> (r: Result<String, String>)
    requires
        distinct_keys(field_map_entries(*map)),
    ensures
        match r {
            Ok(o) => order_by_of(field_map_entries(*map), opt_keyed(*ord)) == Ok::<Seq<char>, Seq<char>>(
                o@,
            ),
            Err(n) => order_by_of(field_map_entries(*map), opt_keyed(*ord)) == Err::<
                Seq<char>,
                Seq<char>,
            >(n@),
        },
{
    match ord {
        None => Ok(String::new()),
        Some(o) => {
            let names = key_names(o);
            match resolve_fields(map, &names) {
                Ok(ts) => {
                    let ghost os = keyed(o@);
                    let mut pieces: Vec<String> = Vec::new();
                    let n = o.len();
                    let mut i: usize = 0;
                    while i < n
                        invariant
                            n == o@.len(),
                            n == ts@.len(),
                            os == keyed(o@),
                            i <= n,
                            views(pieces@) == order_pieces(os, views(ts@)).take(i as int),
                        decreases n - i,
                    {
                        let x = concat3(ts[i].as_str(), " ", o[i].1.get_value());
                        let ghost before = views(pieces@);
                        let ghost xv = x@;
                        pieces.push(x);
                        assert(views(pieces@) =~= before.push(xv));
                        assert(views(pieces@) =~= order_pieces(os, views(ts@)).take(i + 1));
                        i = i + 1;
                    }
                    assert(order_pieces(os, views(ts@)).take(n as int) =~= order_pieces(os, views(ts@)));
                    let mut r = " ORDER BY ".to_owned();
                    join_into(&mut r, &pieces, ",");
                    Ok(r)
                },
                Err(n) => Err(n),
            }
        },
    }
}

/// Whether an entry of `fields` names an SQL function: it begins with `$`.
pub open spec fn is_sql_function(n: Seq<char>) -> bool {
    n.len() > 0 && n[0] == '$'
}

/// The SQL function that a `$` entry names: the entry without its leading `$`, and
/// without the `$` that closes it where there is one.
pub open spec fn sql_function_text(n: Seq<char>) -> Seq<char> {
    let body = n.drop_first();
    if body.len() > 0 && body.last() == '$' {
        body.drop_last()
    } else {
        body
    }
}

/// How a read selects the entry `n` of `fields`: an SQL function as it is written, a
/// struct field as its column; or `n` where it is neither.
pub open spec fn read_column(e: Seq<(Seq<char>, Seq<char>)>, n: Seq<char>) -> Result<Seq<char>, Seq<char>> {
    if is_sql_function(n) {
        Ok(sql_function_text(n))
    } else {
        match lookup(e, n) {
            Some(t) => Ok(column_piece(t, n)),
            None => Err(n),
        }
    }
}

/// One step of reading the column list: the column of the next entry of `fields`, or that entry.
pub open spec fn column_stepper(e: Seq<(Seq<char>, Seq<char>)>) -> spec_fn(Seq<Seq<char>>, Seq<char>) -> Result<
    Seq<Seq<char>>,
    Seq<char>,
> {
    |acc: Seq<Seq<char>>, n: Seq<char>|
        match read_column(e, n) {
            Ok(p) => Ok(acc.push(p)),
            Err(x) => Err(x),
        }
}

/// Whether some entry of `names` is an SQL function.
pub open spec fn has_sql_function(names: Seq<Seq<char>>) -> bool {
    exists|i: int| 0 <= i < names.len() && is_sql_function(#[trigger] names[i])
}

/// The column list of a read and the struct fields that each row holds, or the first entry
/// of `fields` that is neither an SQL function nor a struct field. A row holds the struct
/// fields of the read where it reads no SQL function; else nothing is said of it.
pub open spec fn read_fields_of(e: Seq<(Seq<char>, Seq<char>)>, fields: Option<Seq<Seq<char>>>) -> Result<
    (Seq<char>, Option<Seq<Seq<char>>>),
    Seq<char>,
> {
    match fields {
        None => Ok((join(pieces_of(PieceKind::Column, e), ","@), Some(keys(e)))),
        Some(names) => match fold_seq(Seq::empty(), names, column_stepper(e)) {
            Ok(cols) => Ok(
                (join(cols, ","@), if has_sql_function(names) {
                    None
                } else {
                    Some(names)
                }),
            ),
            Err(n) => Err(n),
        },
    }
}

fn starts_with_dollar(n: &String) -> (r: bool)
    ensures
        r == is_sql_function(n@),
{
    n.as_str().unicode_len() > 0 && n.as_str().get_char(0) == '$'
}

fn sql_function(n: &String) -> (r: String)
    requires
        is_sql_function(n@),
    ensures
        r@ == sql_function_text(n@),
{
    let s = n.as_str();
    let len = s.unicode_len();
    if len >= 2 && s.get_char(len - 1) == '$' {
        assert(n@.drop_first().drop_last() =~= n@.subrange(1, len - 1));
        s.substring_char(1, len - 1).to_owned()
    } else {
        assert(n@.drop_first() =~= n@.subrange(1, len as int));
        s.substring_char(1, len).to_owned()
    }
}

/// The column list of a read (an SQL function as it is written; a table field and, where
/// the names differ, the struct field after it) and the struct fields that each row holds.
pub fn build_read_fields_str_vec(map: &IndexMap<String, String>, fields: &Option<Vec<String>>) -> (r: Result<
    (String, Option<Vec<String>>),
    String,
>)
    requires
        distinct_keys(field_map_entries(*map)),
    ensures
        match r {
            Ok((s, ids)) => read_fields_of(field_map_entries(*map), opt_views(*fields)) == Ok::<
                (Seq<char>, Option<Seq<Seq<char>>>),
                Seq<char>,
            >((s@, opt_views(ids))),
            Err(n) => read_fields_of(field_map_entries(*map), opt_views(*fields)) == Err::<
                (Seq<char>, Option<Seq<Seq<char>>>),
                Seq<char>,
            >(n@),
        },
{
    match fields {
        None => {
            let sel = all_entries(map);
            let pieces = make_pieces(PieceKind::Column, &sel);
            Ok((joined(&pieces, ","), Some(struct_fields(&sel))))
        },
        Some(names) => {
            let ghost e = field_map_entries(*map);
            let ghost xs = views(names@);
            let ghost step = column_stepper(e);
            assert(opt_views(*fields) == Some(xs));
            let mut pieces: Vec<String> = Vec::new();
            let mut ids: Vec<String> = Vec::new();
            let mut has_fn = false;
            let n = names.len();
            let mut i: usize = 0;
            assert(views(pieces@) =~= Seq::<Seq<char>>::empty());
            while i < n
                invariant
                    n == xs.len(),
                    xs == views(names@),
                    opt_views(*fields) == Some(xs),
                    e == field_map_entries(*map),
                    step == column_stepper(e),
                    distinct_keys(e),
                    i <= n,
                    fold_seq(Seq::empty(), xs.take(i as int), step) == Ok::<Seq<Seq<char>>, Seq<char>>(
                        views(pieces@),
                    ),
                    views(ids@) == xs.take(i as int),
                    has_fn == exists|j: int| 0 <= j < i && is_sql_function(#[trigger] xs[j]),
                decreases n - i,
            {
                proof {
                    lemma_fold_step(Seq::empty(), xs, step, i as int);
                }
                assert(xs[i as int] == names@[i as int]@);
                let p = if starts_with_dollar(&names[i]) {
                    has_fn = true;
                    sql_function(&names[i])
                } else {
                    match get_table_field(map, &names[i]) {
                        Some(t) => piece(PieceKind::Column, &names[i], &t),
                        None => {
                            proof {
                                lemma_fold_err(Seq::empty(), xs, step, i + 1);
                            }
                            return Err(names[i].clone());
                        },
                    }
                };
                let ghost before = views(pieces@);
                let ghost pv = p@;
                pieces.push(p);
                assert(views(pieces@) =~= before.push(pv));
                let ghost ids_before = views(ids@);
                ids.push(names[i].clone());
                assert(views(ids@) =~= ids_before.push(xs[i as int]));
                assert(xs.take(i + 1) =~= xs.take(i as int).push(xs[i as int]));
                i = i + 1;
            }
            proof {
                lemma_fold_whole(Seq::empty(), xs, step);
                assert(xs.take(n as int) =~= xs);
            }
            let cols = joined(&pieces, ",");
            if has_fn {
                Ok((cols, None))
            } else {
                Ok((cols, Some(ids)))
            }
        },
    }
}

/// The assignments of an update and the struct fields that it writes.
pub open spec fn update_fields_of(e: Seq<(Seq<char>, Seq<char>)>, fields: Option<Seq<Seq<char>>>) -> Result<
    (Seq<char>, Seq<Seq<char>>),
    Seq<char>,
> {
    match selected(e, fields) {
        Ok(sel) => Ok((join(pieces_of(PieceKind::Assign, sel), ","@), keys(sel))),
        Err(n) => Err(n),
    }
}

/// The assignments `table_field=:struct_field` of an update and the struct fields that it writes.
pub fn build_update_fields_vec(map: &IndexMap<String, String>, fields: &Option<Vec<String>>) -> (r: Result<
    (String, Vec<String>),
    String,
>)
    requires
        distinct_keys(field_map_entries(*map)),
    ensures
        match r {
            Ok((s, ids)) => update_fields_of(field_map_entries(*map), opt_views(*fields)) == Ok::<
                (Seq<char>, Seq<Seq<char>>),
                Seq<char>,
            >((s@, views(ids@))),
            Err(n) => update_fields_of(field_map_entries(*map), opt_views(*fields)) == Err::<
                (Seq<char>, Seq<Seq<char>>),
                Seq<char>,
            >(n@),
        },
{
    match select_fields(map, fields) {
        Ok(sel) => {
            let pieces = make_pieces(PieceKind::Assign, &sel);
            Ok((joined(&pieces, ","), struct_fields(&sel)))
        },
        Err(n) => Err(n),
    }
}

/// The table fields, the named values, the updates on a duplicate key, and the struct
/// fields of a create.
pub open spec fn create_fields_of(e: Seq<(Seq<char>, Seq<char>)>, fields: Option<Seq<Seq<char>>>) -> Result<
    (Seq<char>, Seq<char>, Seq<char>, Seq<Seq<char>>),
    Seq<char>,
> {
    match selected(e, fields) {
        Ok(sel) => Ok(
            (
                join(pieces_of(PieceKind::Table, sel), ","@),
                join(pieces_of(PieceKind::Value, sel), ","@),
                join(pieces_of(PieceKind::Duplicate, sel), ","@),
                keys(sel),
            ),
        ),
        Err(n) => Err(n),
    }
}

/// The table fields, the named values `:struct_field`, the updates
/// `table_field=VALUES(table_field)` on a duplicate key, and the struct fields of a create.
pub fn build_create_fields_str(map: &IndexMap<String, String>, fields: &Option<Vec<String>>) -> (r: Result<
    (String, String, String, Vec<String>),
    String,
>)
    requires
        distinct_keys(field_map_entries(*map)),
    ensures
        match r {
            Ok((a, b, c, ids)) => create_fields_of(field_map_entries(*map), opt_views(*fields)) == Ok::<
                (Seq<char>, Seq<char>, Seq<char>, Seq<Seq<char>>),
                Seq<char>,
            >((a@, b@, c@, views(ids@))),
            Err(n) => create_fields_of(field_map_entries(*map), opt_views(*fields)) == Err::<
                (Seq<char>, Seq<char>, Seq<char>, Seq<Seq<char>>),
                Seq<char>,
            >(n@),
        },
{
    match select_fields(map, fields) {
        Ok(sel) => {
            let tables = make_pieces(PieceKind::Table, &sel);
            let values = make_pieces(PieceKind::Value, &sel);
            let dups = make_pieces(PieceKind::Duplicate, &sel);
            Ok((joined(&tables, ","), joined(&values, ","), joined(&dups, ","), struct_fields(&sel)))
        },
        Err(n) => Err(n),
    }
}

/// The text that turns a read into a page: present where `page` is `Some(true)`.
pub open spec fn limit_of(page: Option<bool>) -> Seq<char> {
    if page == Some(true) {
        " LIMIT :_limit_start, :_limit_end"@
    } else {
        Seq::empty()
    }
}

/// The statement of a read, the struct fields that each row holds (none where
/// `pre_where_sql` replaces the column list or the read selects an SQL function), and the
/// struct fields that its conditions compare.
pub open spec fn read_sql_of(inner: InnerModel, table: Seq<char>, e: Seq<(Seq<char>, Seq<char>)>) -> Result<
    (Seq<char>, Option<Seq<Seq<char>>>, Seq<Seq<char>>),
    (CrudErrorKind, Seq<char>, Seq<char>),
> {
    let head: Result<(Seq<char>, Option<Seq<Seq<char>>>), Seq<char>> = match inner.pre_where_sql {
        Some(p) => Ok((p + " FROM "@ + table, None)),
        None => match read_fields_of(e, inner.fields) {
            Ok((cols, ids)) => Ok(("SELECT "@ + cols + " FROM "@ + table, ids)),
            Err(n) => Err(n),
        },
    };
    match head {
        Err(n) => Err((CrudErrorKind::UnknownField, inner.fn_name, n)),
        Ok((h, columns)) => match where_of(e, inner.condition, ":"@) {
            Err(n) => Err((CrudErrorKind::UnknownConditionField, inner.fn_name, n)),
            Ok((w, params)) => match order_by_of(e, inner.order) {
                Err(n) => Err((CrudErrorKind::UnknownOrderField, inner.fn_name, n)),
                Ok(o) => Ok((h + w + o + limit_of(inner.page), columns, params)),
            },
        },
    }
}

fn read_error(inner: &Inner, kind: CrudErrorKind, field: String) -> (e: CrudError)
    ensures
        e@ == (kind, inner@.fn_name, field@),
{
    crud_error(kind, inner.get_fn_name(), field)
}

/// The statement of a read, the struct fields that each row holds (none where
/// `pre_where_sql` replaces the column list or the read selects an SQL function), and the
/// struct fields that its conditions compare (none where it has no condition).
pub fn build_read_sql(inner: &Inner, table_name: &String, map: &IndexMap<String, String>) -> (r: Result<
    (String, Option<Vec<String>>, Option<Vec<String>>),
    CrudError,
>)
    requires
        distinct_keys(field_map_entries(*map)),
    ensures
        match r {
            Ok((sql, ids, params)) => {
                let spec_params = read_sql_of(inner@, table_name@, field_map_entries(*map))->Ok_0.2;
                &&& read_sql_of(inner@, table_name@, field_map_entries(*map)) is Ok
                &&& read_sql_of(inner@, table_name@, field_map_entries(*map))->Ok_0.0 == sql@
                &&& read_sql_of(inner@, table_name@, field_map_entries(*map))->Ok_0.1 == opt_views(ids)
                &&& (params is None <==> spec_params.len() == 0)
                &&& (params matches Some(p) ==> views(p@) == spec_params)
            },
            Err(e) => read_sql_of(inner@, table_name@, field_map_entries(*map)) == Err::<
                (Seq<char>, Option<Seq<Seq<char>>>, Seq<Seq<char>>),
                (CrudErrorKind, Seq<char>, Seq<char>),
            >(e@),
        },
{
    let (mut sql, idents) = match inner.get_pre_where_sql() {
        Some(p) => {
            let mut sql = p.clone();
            sql.append(" FROM ");
            sql.append(table_name.as_str());
            (sql, None)
        },
        None => match build_read_fields_str_vec(map, inner.get_fields()) {
            Ok((cols, ids)) => {
                let mut sql = "SELECT ".to_owned();
                sql.append(cols.as_str());
                sql.append(" FROM ");
                sql.append(table_name.as_str());
                (sql, ids)
            },
            Err(n) => {
                return Err(read_error(inner, CrudErrorKind::UnknownField, n));
            },
        },
    };
    let params = match where_clause(map, inner.get_condition(), ":") {
        Ok((w, ps)) => {
            sql.append(w.as_str());
            ps
        },
        Err(n) => {
            return Err(read_error(inner, CrudErrorKind::UnknownConditionField, n));
        },
    };
    match order_by_clause(map, inner.get_order()) {
        Ok(o) => {
            sql.append(o.as_str());
        },
        Err(n) => {
            return Err(read_error(inner, CrudErrorKind::UnknownOrderField, n));
        },
    }
    match inner.get_page() {
        Some(true) => {
            sql.append(" LIMIT :_limit_start, :_limit_end");
        },
        _ => {
            assert(sql@ =~= sql@ + limit_of(inner@.page));
        },
    }
    if params.len() == 0 {
        Ok((sql, idents, None))
    } else {
        Ok((sql, idents, Some(params)))
    }
}

/// The ghost form of a generated read.
pub ghost struct ReadPlanModel {
    pub sql: Seq<char>,
    pub columns: Option<Seq<Seq<char>>>,
    pub params: Seq<Seq<char>>,
    pub batch: bool,
    pub limit_params: bool,
    pub into_struct: bool,
    pub fill_default: bool,
}

/// What a generated read does.
pub struct ReadPlan {
    /// The statement.
    pub sql: String,
    /// The struct fields that each row holds, in order; `None` where `pre_where_sql` gives
    /// the head of the statement or the read selects an SQL function.
    pub columns: Option<Vec<String>>,
    /// The struct fields that the conditions compare, each a parameter of the function.
    pub params: Vec<String>,
    /// Whether all rows are read, else the first.
    pub batch: bool,
    /// Whether the function takes `_limit_start` and `_limit_end`, which the statement
    /// ends with: a read with `page` set to true, batch or single.
    pub limit_params: bool,
    /// Whether each row becomes the struct, else a row type of the caller's choice.
    pub into_struct: bool,
    /// Whether the fields that the row does not hold take their default.
    pub fill_default: bool,
}

impl View for ReadPlan {
    type V = ReadPlanModel;

    open spec fn view(&self) -> ReadPlanModel {
        ReadPlanModel {
            sql: self.sql@,
            columns: opt_views(self.columns),
            params: views(self.params@),
            batch: self.batch,
            limit_params: self.limit_params,
            into_struct: self.into_struct,
            fill_default: self.fill_default,
        }
    }
}

/// What the read `inner` of a struct whose field map is `e` does.
pub open spec fn read_plan_of(inner: InnerModel, table: Seq<char>, e: Seq<(Seq<char>, Seq<char>)>) -> Result<
    ReadPlanModel,
    (CrudErrorKind, Seq<char>, Seq<char>),
> {
    match read_sql_of(inner, table, e) {
        Err(x) => Err(x),
        Ok((sql, columns, params)) => {
            let batch = inner.sql_type.1 == SqlTypeExt::BATCH;
            let into_struct = columns is Some && inner.res_type == Some(true);
            Ok(
                ReadPlanModel {
                    sql,
                    columns,
                    params,
                    batch,
                    limit_params: inner.page == Some(true),
                    into_struct,
                    fill_default: into_struct && columns->0.len() != e.len(),
                },
            )
        },
    }
}

/// What the read `inner` does: its statement, what each row holds and becomes, and the
/// parameters that the function takes.
pub fn plan_read(inner: &Inner, table_name: &String, map: &IndexMap<String, String>) -> (r: Result<ReadPlan, CrudError>)
    requires
        distinct_keys(field_map_entries(*map)),
    ensures
        match r {
            Ok(p) => read_plan_of(inner@, table_name@, field_map_entries(*map)) == Ok::<
                ReadPlanModel,
                (CrudErrorKind, Seq<char>, Seq<char>),
            >(p@),
            Err(e) => read_plan_of(inner@, table_name@, field_map_entries(*map)) == Err::<
                ReadPlanModel,
                (CrudErrorKind, Seq<char>, Seq<char>),
            >(e@),
        },
{
    match build_read_sql(inner, table_name, map) {
        Ok((sql, columns, params)) => {
            let params = match params {
                Some(p) => p,
                None => {
                    let v: Vec<String> = Vec::new();
                    assert(views(v@) =~= Seq::<Seq<char>>::empty());
                    v
                },
            };
            let batch = match inner.get_sql_type().1 {
                SqlTypeExt::BATCH => true,
                SqlTypeExt::SINGLE => false,
            };
            let page = match inner.get_page() {
                Some(true) => true,
                _ => false,
            };
            let into_struct = match (&columns, inner.get_res_type()) {
                (Some(_), Some(true)) => true,
                _ => false,
            };
            let fill_default = match &columns {
                Some(c) => into_struct && c.len() != field_map_len(map),
                None => false,
            };
            let ghost spec_plan = read_plan_of(inner@, table_name@, field_map_entries(*map))->Ok_0;
            assert(views(params@) =~= spec_plan.params);
            assert(opt_views(columns) == spec_plan.columns);
            assert(batch == spec_plan.batch);
            assert(into_struct == spec_plan.into_struct);
            assert(fill_default == spec_plan.fill_default);
            Ok(
                ReadPlan {
                    sql,
                    columns,
                    params,
                    batch,
                    limit_params: page,
                    into_struct,
                    fill_default,
                },
            )
        },
        Err(e) => Err(e),
    }
}

/// The ghost form of a generated update.
pub ghost struct UpdatePlanModel {
    pub sql: Seq<char>,
    pub set_fields: Seq<Seq<char>>,
    pub params: Seq<Seq<char>>,
}

/// What a generated update does.
pub struct UpdatePlan {
    /// The statement.
    pub sql: String,
    /// The struct fields whose values the statement writes, read from `self`.
    pub set_fields: Vec<String>,
    /// The struct fields that the conditions compare; the function takes each as `c_` and its name.
    pub params: Vec<String>,
}

impl View for UpdatePlan {
    type V = UpdatePlanModel;

    open spec fn view(&self) -> UpdatePlanModel {
        UpdatePlanModel { sql: self.sql@, set_fields: views(self.set_fields@), params: views(self.params@) }
    }
}

/// What the update `inner` of a struct whose field map is `e` does.
pub open spec fn update_plan_of(inner: InnerModel, table: Seq<char>, e: Seq<(Seq<char>, Seq<char>)>) -> Result<
    UpdatePlanModel,
    (CrudErrorKind, Seq<char>, Seq<char>),
> {
    match update_fields_of(e, inner.fields) {
        Err(n) => Err((CrudErrorKind::UnknownField, inner.fn_name, n)),
        Ok((set, set_fields)) => match where_of(e, inner.condition, ":c_"@) {
            Err(n) => Err((CrudErrorKind::UnknownFnConditionField, inner.fn_name, n)),
            Ok((w, params)) => Ok(
                UpdatePlanModel { sql: "UPDATE "@ + table + " SET "@ + set + w, set_fields, params },
            ),
        },
    }
}

/// What the update `inner` does: its statement, the fields it writes, and the parameters
/// that the function takes.
pub fn plan_update(inner: &Inner, table_name: &String, map: &IndexMap<String, String>) -> (r: Result<UpdatePlan, CrudError>)
    requires
        distinct_keys(field_map_entries(*map)),
    ensures
        match r {
            Ok(p) => update_plan_of(inner@, table_name@, field_map_entries(*map)) == Ok::<
                UpdatePlanModel,
                (CrudErrorKind, Seq<char>, Seq<char>),
            >(p@),
            Err(e) => update_plan_of(inner@, table_name@, field_map_entries(*map)) == Err::<
                UpdatePlanModel,
                (CrudErrorKind, Seq<char>, Seq<char>),
            >(e@),
        },
{
    let mut sql = "UPDATE ".to_owned();
    sql.append(table_name.as_str());
    sql.append(" SET ");
    let set_fields = match build_update_fields_vec(map, inner.get_fields()) {
        Ok((set, ids)) => {
            sql.append(set.as_str());
            ids
        },
        Err(n) => {
            return Err(read_error(inner, CrudErrorKind::UnknownField, n));
        },
    };
    match where_clause(map, inner.get_condition(), ":c_") {
        Ok((w, params)) => {
            sql.append(w.as_str());
            Ok(UpdatePlan { sql, set_fields, params })
        },
        Err(n) => Err(read_error(inner, CrudErrorKind::UnknownFnConditionField, n)),
    }
}

/// The ghost form of a generated delete.
pub ghost struct DeletePlanModel {
    pub sql: Seq<char>,
    pub params: Seq<Seq<char>>,
}

/// What a generated delete does.
pub struct DeletePlan {
    /// The statement.
    pub sql: String,
    /// The struct fields that the conditions compare, each a parameter of the function.
    pub params: Vec<String>,
}

impl View for DeletePlan {
    type V = DeletePlanModel;

    open spec fn view(&self) -> DeletePlanModel {
        DeletePlanModel { sql: self.sql@, params: views(self.params@) }
    }
}

/// What the delete `inner` of a struct whose field map is `e` does.
pub open spec fn delete_plan_of(inner: InnerModel, table: Seq<char>, e: Seq<(Seq<char>, Seq<char>)>) -> Result<
    DeletePlanModel,
    (CrudErrorKind, Seq<char>, Seq<char>),
> {
    match where_of(e, inner.condition, ":"@) {
        Err(n) => Err((CrudErrorKind::UnknownFnConditionField, inner.fn_name, n)),
        Ok((w, params)) => Ok(DeletePlanModel { sql: "DELETE FROM "@ + table + w, params }),
    }
}

/// What the delete `inner` does: its statement and the parameters that the function takes.
pub fn plan_delete(inner: &Inner, table_name: &String, map: &IndexMap<String, String>) -> (r: Result<DeletePlan, CrudError>)
    requires
        distinct_keys(field_map_entries(*map)),
    ensures
        match r {
            Ok(p) => delete_plan_of(inner@, table_name@, field_map_entries(*map)) == Ok::<
                DeletePlanModel,
                (CrudErrorKind, Seq<char>, Seq<char>),
            >(p@),
            Err(e) => delete_plan_of(inner@, table_name@, field_map_entries(*map)) == Err::<
                DeletePlanModel,
                (CrudErrorKind, Seq<char>, Seq<char>),
            >(e@),
        },
{
    let mut sql = "DELETE FROM ".to_owned();
    sql.append(table_name.as_str());
    match where_clause(map, inner.get_condition(), ":") {
        Ok((w, params)) => {
            sql.append(w.as_str());
            Ok(DeletePlan { sql, params })
        },
        Err(n) => Err(read_error(inner, CrudErrorKind::UnknownFnConditionField, n)),
    }
}

/// The ghost form of a generated create.
pub ghost struct CreatePlanModel {
    pub sql: Seq<char>,
    pub fields: Seq<Seq<char>>,
    pub batch: bool,
}

/// What a generated create does.
pub struct CreatePlan {
    /// The statement.
    pub sql: String,
    /// The struct fields whose values the statement inserts.
    pub fields: Vec<String>,
    /// Whether the function inserts many structs, else `self`.
    pub batch: bool,
}

impl View for CreatePlan {
    type V = CreatePlanModel;

    open spec fn view(&self) -> CreatePlanModel {
        CreatePlanModel { sql: self.sql@, fields: views(self.fields@), batch: self.batch }
    }
}

/// The text that updates a row whose key already exists: present where `exist_update` is `Some(true)`.
pub open spec fn on_duplicate_of(exist_update: Option<bool>, dups: Seq<char>) -> Seq<char> {
    if exist_update == Some(true) {
        " ON DUPLICATE KEY UPDATE "@ + dups
    } else {
        Seq::empty()
    }
}

/// What the create `inner` of a struct whose field map is `e` does.
pub open spec fn create_plan_of(inner: InnerModel, table: Seq<char>, e: Seq<(Seq<char>, Seq<char>)>) -> Result<
    CreatePlanModel,
    (CrudErrorKind, Seq<char>, Seq<char>),
> {
    match create_fields_of(e, inner.fields) {
        Err(n) => Err((CrudErrorKind::UnknownField, inner.fn_name, n)),
        Ok((tables, values, dups, fields)) => Ok(
            CreatePlanModel {
                sql: "INSERT INTO "@ + table + " ("@ + tables + ") VALUES ("@ + values + ")"@
                    + on_duplicate_of(inner.exist_update, dups),
                fields,
                batch: inner.sql_type.1 == SqlTypeExt::BATCH,
            },
        ),
    }
}

/// What the create `inner` does: its statement, the fields it inserts, and whether it
/// inserts many structs.
pub fn plan_create(inner: &Inner, table_name: &String, map: &IndexMap<String, String>) -> (r: Result<CreatePlan, CrudError>)
    requires
        distinct_keys(field_map_entries(*map)),
    ensures
        match r {
            Ok(p) => create_plan_of(inner@, table_name@, field_map_entries(*map)) == Ok::<
                CreatePlanModel,
                (CrudErrorKind, Seq<char>, Seq<char>),
            >(p@),
            Err(e) => create_plan_of(inner@, table_name@, field_map_entries(*map)) == Err::<
                CreatePlanModel,
                (CrudErrorKind, Seq<char>, Seq<char>),
            >(e@),
        },
{
    match build_create_fields_str(map, inner.get_fields()) {
        Ok((tables, values, dups, fields)) => {
            let mut sql = "INSERT INTO ".to_owned();
            sql.append(table_name.as_str());
            sql.append(" (");
            sql.append(tables.as_str());
            sql.append(") VALUES (");
            sql.append(values.as_str());
            sql.append(")");
            match inner.get_exist_update() {
                Some(true) => {
                    sql.append(" ON DUPLICATE KEY UPDATE ");
                    sql.append(dups.as_str());
                },
                _ => {
                    assert(sql@ =~= sql@ + on_duplicate_of(inner@.exist_update, dups@));
                },
            }
            let batch = match inner.get_sql_type().1 {
                SqlTypeExt::BATCH => true,
                SqlTypeExt::SINGLE => false,
            };
            assert(sql@ =~= "INSERT INTO "@ + table_name@ + " ("@ + tables@ + ") VALUES ("@ + values@ + ")"@
                + on_duplicate_of(inner@.exist_update, dups@));
            Ok(CreatePlan { sql, fields, batch })
        },
        Err(n) => Err(read_error(inner, CrudErrorKind::UnknownField, n)),
    }
}

/// The ghost form of what a generated function does.
pub ghost enum FnKindModel {
    Create(CreatePlanModel),
    Read(ReadPlanModel),
    Update(UpdatePlanModel),
    Delete(DeletePlanModel),
}

/// What a generated function does, by its statement kind.
pub enum FnKind {
    Create(CreatePlan),
    Read(ReadPlan),
    Update(UpdatePlan),
    Delete(DeletePlan),
}

impl View for FnKind {
    type V = FnKindModel;

    open spec fn view(&self) -> FnKindModel {
        match self {
            FnKind::Create(p) => FnKindModel::Create(p@),
            FnKind::Read(p) => FnKindModel::Read(p@),
            FnKind::Update(p) => FnKindModel::Update(p@),
            FnKind::Delete(p) => FnKindModel::Delete(p@),
        }
    }
}

/// The ghost form of a generated function.
pub ghost struct FnPlanModel {
    pub fn_name: Seq<char>,
    pub kind: FnKindModel,
}

/// A function to generate: its name and what it does.
pub struct FnPlan {
    pub fn_name: String,
    pub kind: FnKind,
}

impl View for FnPlan {
    type V = FnPlanModel;

    open spec fn view(&self) -> FnPlanModel {
        FnPlanModel { fn_name: self.fn_name@, kind: self.kind@ }
    }
}

/// What the function `inner` of a struct whose field map is `e` does.
pub open spec fn fn_plan_of(inner: InnerModel, table: Seq<char>, e: Seq<(Seq<char>, Seq<char>)>) -> Result<
    FnPlanModel,
    (CrudErrorKind, Seq<char>, Seq<char>),
> {
    let kind = match inner.sql_type.0 {
        SqlType::CREATE => match create_plan_of(inner, table, e) {
            Ok(p) => Ok(FnKindModel::Create(p)),
            Err(x) => Err(x),
        },
        SqlType::READ => match read_plan_of(inner, table, e) {
            Ok(p) => Ok(FnKindModel::Read(p)),
            Err(x) => Err(x),
        },
        SqlType::UPDATE => match update_plan_of(inner, table, e) {
            Ok(p) => Ok(FnKindModel::Update(p)),
            Err(x) => Err(x),
        },
        SqlType::DELETE => match delete_plan_of(inner, table, e) {
            Ok(p) => Ok(FnKindModel::Delete(p)),
            Err(x) => Err(x),
        },
    };
    match kind {
        Ok(k) => Ok(FnPlanModel { fn_name: inner.fn_name, kind: k }),
        Err(x) => Err(x),
    }
}

/// What the function `inner` does.
pub fn plan_fn(inner: &Inner, table_name: &String, map: &IndexMap<String, String>) -> (r: Result<FnPlan, CrudError>)
    requires
        distinct_keys(field_map_entries(*map)),
    ensures
        match r {
            Ok(p) => fn_plan_of(inner@, table_name@, field_map_entries(*map)) == Ok::<
                FnPlanModel,
                (CrudErrorKind, Seq<char>, Seq<char>),
            >(p@),
            Err(e) => fn_plan_of(inner@, table_name@, field_map_entries(*map)) == Err::<
                FnPlanModel,
                (CrudErrorKind, Seq<char>, Seq<char>),
            >(e@),
        },
{
    let kind = match inner.get_sql_type().0 {
        SqlType::CREATE => match plan_create(inner, table_name, map) {
            Ok(p) => FnKind::Create(p),
            Err(e) => {
                return Err(e);
            },
        },
        SqlType::READ => match plan_read(inner, table_name, map) {
            Ok(p) => FnKind::Read(p),
            Err(e) => {
                return Err(e);
            },
        },
        SqlType::UPDATE => match plan_update(inner, table_name, map) {
            Ok(p) => FnKind::Update(p),
            Err(e) => {
                return Err(e);
            },
        },
        SqlType::DELETE => match plan_delete(inner, table_name, map) {
            Ok(p) => FnKind::Delete(p),
            Err(e) => {
                return Err(e);
            },
        },
    };
    Ok(FnPlan { fn_name: inner.get_fn_name().clone(), kind })
}

pub open spec fn crud_stepper(table: Seq<char>, e: Seq<(Seq<char>, Seq<char>)>) -> spec_fn(
    Seq<FnPlanModel>,
    InnerModel,
) -> Result<Seq<FnPlanModel>, (CrudErrorKind, Seq<char>, Seq<char>)> {
    |acc: Seq<FnPlanModel>, inner: InnerModel|
        match fn_plan_of(inner, table, e) {
            Ok(p) => Ok(acc.push(p)),
            Err(x) => Err(x),
        }
}

/// The functions that the attribute `st` asks of a struct with the fields `fields`, in
/// the order of `funs`; or the error of the first that cannot be made.
pub open spec fn crud_plan_of(st: StateModel, fields: Seq<Seq<char>>) -> Result<
    Seq<FnPlanModel>,
    (CrudErrorKind, Seq<char>, Seq<char>),
> {
    fold_seq(Seq::empty(), st.funs, crud_stepper(st.table_name, struct_field_map(st, fields)))
}

pub open spec fn plan_views(v: Seq<FnPlan>) -> Seq<FnPlanModel> {
    v.map_values(|p: FnPlan| p@)
}

/// The functions that the `crud` attribute `state` asks of the struct `struct_info`.
pub fn plan_crud(state: &State, struct_info: &StructInfo) -> (r: Result<Vec<FnPlan>, CrudError>)
    ensures
        match r {
            Ok(v) => crud_plan_of(state@, views(struct_info.field_names@)) == Ok::<
                Seq<FnPlanModel>,
                (CrudErrorKind, Seq<char>, Seq<char>),
            >(plan_views(v@)),
            Err(e) => crud_plan_of(state@, views(struct_info.field_names@)) == Err::<
                Seq<FnPlanModel>,
                (CrudErrorKind, Seq<char>, Seq<char>),
            >(e@),
        },
{
    let map = build_struct_to_table_field_map(state, struct_info);
    let table_name = state.get_table_name();
    let funs = state.get_funs();
    let ghost e = field_map_entries(map);
    let ghost xs = state@.funs;
    let ghost step = crud_stepper(state@.table_name, e);
    let mut plans: Vec<FnPlan> = Vec::new();
    let n = funs.len();
    let mut i: usize = 0;
    assert(plan_views(plans@) =~= Seq::<FnPlanModel>::empty());
    while i < n
        invariant
            n == xs.len(),
            xs == crate::attr::inner_views(funs@),
            e == field_map_entries(map),
            e == struct_field_map(state@, views(struct_info.field_names@)),
            xs == state@.funs,
            distinct_keys(e),
            table_name@ == state@.table_name,
            step == crud_stepper(state@.table_name, e),
            i <= n,
            fold_seq(Seq::empty(), xs.take(i as int), step) == Ok::<
                Seq<FnPlanModel>,
                (CrudErrorKind, Seq<char>, Seq<char>),
            >(plan_views(plans@)),
        decreases n - i,
    {
        proof {
            lemma_fold_step(Seq::empty(), xs, step, i as int);
        }
        assert(xs[i as int] == funs@[i as int]@);
        match plan_fn(&funs[i], table_name, &map) {
            Ok(p) => {
                let ghost before = plan_views(plans@);
                let ghost pv = p@;
                plans.push(p);
                assert(plan_views(plans@) =~= before.push(pv));
            },
            Err(x) => {
                proof {
                    lemma_fold_err(Seq::empty(), xs, step, i + 1);
                }
                return Err(x);
            },
        }
        i = i + 1;
    }
    proof {
        lemma_fold_whole(Seq::empty(), xs, step);
    }
    Ok(plans)
}

/// No name occurs twice.
pub open spec fn distinct_names(fields: Seq<Seq<char>>) -> bool {
    forall|i: int, j: int| 0 <= i < fields.len() && 0 <= j < fields.len() && i != j ==> fields[i] != fields[j]
}

/// Each field with its table field.
pub open spec fn fields_with_tables(st: StateModel, fields: Seq<Seq<char>>) -> Seq<(Seq<char>, Seq<char>)> {
    fields.map_values(|f: Seq<char>| (f, table_field_of(st.alias_fields, st.field_name_to_snake, f)))
}

/// The field map of a struct holds each field of the struct once, in the order of the
/// fields, paired with its table field.
pub proof fn lemma_field_map_follows_fields(st: StateModel, fields: Seq<Seq<char>>)
    requires
        distinct_names(fields),
    ensures
        struct_field_map(st, fields) == fields_with_tables(st, fields),
    decreases fields.len(),
{
    if fields.len() > 0 {
        let prefix = fields.drop_last();
        assert(distinct_names(prefix));
        lemma_field_map_follows_fields(st, prefix);
        let e = struct_field_map(st, prefix);
        assert(!has_key(e, fields.last())) by {
            if has_key(e, fields.last()) {
                let i = choose|i: int| 0 <= i < e.len() && #[trigger] e[i].0 == fields.last();
                assert(e[i].0 == prefix[i]);
                assert(fields[i] != fields[fields.len() - 1]);
            }
        }
        assert(struct_field_map(st, fields) =~= fields_with_tables(st, fields));
    } else {
        assert(struct_field_map(st, fields) =~= fields_with_tables(st, fields));
    }
}

/// A struct field that `alias_fields` names maps to its alias, whatever
/// `field_name_to_snake` says.
pub proof fn lemma_alias_wins(
    alias: Seq<(Seq<char>, Seq<char>)>,
    snake1: Option<bool>,
    snake2: Option<bool>,
    f: Seq<char>,
)
    requires
        lookup_first(alias, f) is Some,
    ensures
        table_field_of(Some(alias), snake1, f) == lookup_first(alias, f)->0,
        table_field_of(Some(alias), snake1, f) == table_field_of(Some(alias), snake2, f),
{
}

/// A struct field that `alias_fields` does not name maps to its snake-case form exactly
/// when `field_name_to_snake` is true, else to itself.
pub proof fn lemma_unaliased_field(alias: Option<Seq<(Seq<char>, Seq<char>)>>, snake: Option<bool>, f: Seq<char>)
    requires
        alias is None || lookup_first(alias->0, f) is None,
    ensures
        snake == Some(true) ==> table_field_of(alias, snake, f) == snake_case(f),
        snake != Some(true) ==> table_field_of(alias, snake, f) == f,
{
}

/// A read that names no fields and no head of its own reads every field of the struct,
/// in the order of the fields, and builds the struct without defaults; its parameters are
/// the fields that its conditions compare, in their order.
pub proof fn lemma_read_all_columns(st: StateModel, fields: Seq<Seq<char>>, inner: InnerModel)
    requires
        distinct_names(fields),
        inner.fields is None,
        inner.pre_where_sql is None,
        read_plan_of(inner, st.table_name, struct_field_map(st, fields)) is Ok,
    ensures
        ({
            let p = read_plan_of(inner, st.table_name, struct_field_map(st, fields))->Ok_0;
            &&& p.columns == Some(fields)
            &&& !p.fill_default
            &&& p.params == match inner.condition {
                Some(c) => keys(c),
                None => Seq::empty(),
            }
        }),
{
    lemma_field_map_follows_fields(st, fields);
    let e = struct_field_map(st, fields);
    assert(keys(e) =~= fields);
}

/// A read binds every placeholder of its page: it takes `_limit_start` and `_limit_end`
/// exactly when `page` is true, whether it reads one row or all of them, and then its
/// statement ends with the `LIMIT` clause that names them.
pub proof fn lemma_paged_read_binds_limits(inner: InnerModel, table: Seq<char>, e: Seq<(Seq<char>, Seq<char>)>)
    requires
        read_plan_of(inner, table, e) is Ok,
    ensures
        ({
            let p = read_plan_of(inner, table, e)->Ok_0;
            &&& p.limit_params == (inner.page == Some(true))
            &&& p.limit_params ==> p.sql.len() >= limit_of(inner.page).len() && p.sql.subrange(
                p.sql.len() - limit_of(inner.page).len(),
                p.sql.len() as int,
            ) == " LIMIT :_limit_start, :_limit_end"@
        }),
{
    let (sql, columns, params) = read_sql_of(inner, table, e)->Ok_0;
    if inner.page == Some(true) {
        let t = limit_of(inner.page);
        assert(sql.subrange(sql.len() - t.len(), sql.len() as int) =~= t);
    }
}

/// A read that selects an SQL function hands back its rows as they come: no row becomes
/// the struct.
pub proof fn lemma_sql_function_read(inner: InnerModel, table: Seq<char>, e: Seq<(Seq<char>, Seq<char>)>)
    requires
        inner.fields matches Some(names) && has_sql_function(names),
        read_plan_of(inner, table, e) is Ok,
    ensures
        read_plan_of(inner, table, e)->Ok_0.columns is None,
        !read_plan_of(inner, table, e)->Ok_0.into_struct,
        !read_plan_of(inner, table, e)->Ok_0.fill_default,
{
}

/// A create or an update that names no fields writes every field of the struct, in the
/// order of the fields; without a condition an update or a delete has no `WHERE` clause
/// and takes no condition parameters.
pub proof fn lemma_write_all_fields(st: StateModel, fields: Seq<Seq<char>>, inner: InnerModel)
    requires
        distinct_names(fields),
        inner.fields is None,
    ensures
        ({
            let e = struct_field_map(st, fields);
            &&& create_plan_of(inner, st.table_name, e) is Ok
            &&& create_plan_of(inner, st.table_name, e)->Ok_0.fields == fields
            &&& update_plan_of(inner, st.table_name, e) is Ok ==> update_plan_of(
                inner,
                st.table_name,
                e,
            )->Ok_0.set_fields == fields
            &&& inner.condition is None ==> {
                &&& update_plan_of(inner, st.table_name, e) is Ok
                &&& update_plan_of(inner, st.table_name, e)->Ok_0.params.len() == 0
                &&& delete_plan_of(inner, st.table_name, e) == Ok::<
                    DeletePlanModel,
                    (CrudErrorKind, Seq<char>, Seq<char>),
                >(DeletePlanModel { sql: "DELETE FROM "@ + st.table_name, params: Seq::empty() })
            }
        }),
{
    lemma_field_map_follows_fields(st, fields);
    let e = struct_field_map(st, fields);
    assert(keys(e) =~= fields);
    assert("DELETE FROM "@ + st.table_name + Seq::<char>::empty() =~= "DELETE FROM "@ + st.table_name);
}

proof fn lemma_crud_prefix(table: Seq<char>, e: Seq<(Seq<char>, Seq<char>)>, funs: Seq<InnerModel>, k: int)
    requires
        0 <= k <= funs.len(),
    ensures
        match fold_seq(Seq::empty(), funs.take(k), crud_stepper(table, e)) {
            Ok(v) => {
                &&& v.len() == k
                &&& forall|i: int| 0 <= i < k ==> fn_plan_of(#[trigger] funs[i], table, e) == Ok::<
                    FnPlanModel,
                    (CrudErrorKind, Seq<char>, Seq<char>),
                >(v[i])
            },
            Err(x) => exists|i: int|
                0 <= i < k && fn_plan_of(#[trigger] funs[i], table, e) == Err::<
                    FnPlanModel,
                    (CrudErrorKind, Seq<char>, Seq<char>),
                >(x) && forall|j: int| 0 <= j < i ==> fn_plan_of(#[trigger] funs[j], table, e) is Ok,
        },
    decreases k,
{
    let step = crud_stepper(table, e);
    if k == 0 {
        assert(funs.take(0).len() == 0);
    } else {
        lemma_crud_prefix(table, e, funs, k - 1);
        lemma_fold_step(Seq::empty(), funs, step, k - 1);
        match fold_seq(Seq::empty(), funs.take(k - 1), step) {
            Ok(v) => {
                assert(step(v, funs[k - 1]) == match fn_plan_of(funs[k - 1], table, e) {
                    Ok(p) => Ok(v.push(p)),
                    Err(x) => Err(x),
                });
                match fn_plan_of(funs[k - 1], table, e) {
                    Ok(p) => {
                        assert forall|i: int| 0 <= i < k implies fn_plan_of(#[trigger] funs[i], table, e)
                            == Ok::<FnPlanModel, (CrudErrorKind, Seq<char>, Seq<char>)>(v.push(p)[i]) by {
                            if i < k - 1 {
                                assert(v.push(p)[i] == v[i]);
                            }
                        }
                    },
                    Err(x) => {
                        assert(fn_plan_of(funs[k - 1], table, e) == Err::<
                            FnPlanModel,
                            (CrudErrorKind, Seq<char>, Seq<char>),
                        >(x));
                        assert forall|j: int| 0 <= j < k - 1 implies fn_plan_of(#[trigger] funs[j], table, e) is Ok by {
                            assert(fn_plan_of(funs[j], table, e) == Ok::<
                                FnPlanModel,
                                (CrudErrorKind, Seq<char>, Seq<char>),
                            >(v[j]));
                        }
                    },
                }
            },
            Err(x) => {},
        }
    }
}

/// The `crud` attribute gives one function for each entry of `funs`, in their order; where
/// it fails, it fails with the error of the first entry that cannot be made.
pub proof fn lemma_crud_one_per_fun(st: StateModel, fields: Seq<Seq<char>>)
    ensures
        ({
            let e = struct_field_map(st, fields);
            match crud_plan_of(st, fields) {
                Ok(v) => {
                    &&& v.len() == st.funs.len()
                    &&& forall|i: int| 0 <= i < st.funs.len() ==> fn_plan_of(
                        #[trigger] st.funs[i],
                        st.table_name,
                        e,
                    ) == Ok::<FnPlanModel, (CrudErrorKind, Seq<char>, Seq<char>)>(v[i])
                },
                Err(x) => exists|i: int|
                    0 <= i < st.funs.len() && fn_plan_of(#[trigger] st.funs[i], st.table_name, e) == Err::<
                        FnPlanModel,
                        (CrudErrorKind, Seq<char>, Seq<char>),
                    >(x) && forall|j: int| 0 <= j < i ==> fn_plan_of(#[trigger] st.funs[j], st.table_name, e) is Ok,
            }
        }),
{
    let e = struct_field_map(st, fields);
    lemma_crud_prefix(st.table_name, e, st.funs, st.funs.len() as int);
    lemma_fold_whole(Seq::empty(), st.funs, crud_stepper(st.table_name, e));
}

} // verus!
