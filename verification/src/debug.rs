use vstd::prelude::*;
use crate::attr::{Inner, InnerModel, State, StateModel, opt_views, opt_keyed, opt_pairs, inner_views, keyed};
use crate::pairs::string_pairs;
use crate::sql::joined;
use crate::text::{join, views};
use crate::tools::{Condition, Order};

verus! {

/// How an optional flag is shown.
pub open spec fn opt_bool_text(b: Option<bool>) -> Seq<char> {
    match b {
        None => "None"@,
        Some(true) => "Some(true)"@,
        Some(false) => "Some(false)"@,
    }
}

/// How a list is shown inside `Some`.
pub open spec fn some_list_text(items: Seq<Seq<char>>) -> Seq<char> {
    "Some(["@ + join(items, ", "@) + "])"@
}

pub open spec fn fields_text(f: Option<Seq<Seq<char>>>) -> Seq<char> {
    match f {
        None => "None"@,
        Some(v) => some_list_text(v),
    }
}

pub open spec fn condition_items(v: Seq<(Seq<char>, Condition)>) -> Seq<Seq<char>> {
    v.map_values(|p: (Seq<char>, Condition)| "{"@ + p.0 + ":"@ + p.1.spec_value() + "}"@)
}

pub open spec fn condition_text(c: Option<Seq<(Seq<char>, Condition)>>) -> Seq<char> {
    match c {
        None => "None"@,
        Some(v) => some_list_text(condition_items(v)),
    }
}

pub open spec fn order_items(v: Seq<(Seq<char>, Order)>) -> Seq<Seq<char>> {
    v.map_values(|p: (Seq<char>, Order)| "{"@ + p.0 + ","@ + p.1.spec_value() + "}"@)
}

pub open spec fn order_text(o: Option<Seq<(Seq<char>, Order)>>) -> Seq<char> {
    match o {
        None => "None"@,
        Some(v) => some_list_text(order_items(v)),
    }
}

/// How a function of the attribute is shown. The part named `pre_where_sql` shows the
/// `exist_update` flag.
pub open spec fn inner_text(i: InnerModel) -> Seq<char> {
    "Inner { fn_name: "@ + i.fn_name + ", sql_type: ("@ + i.sql_type.0.spec_value() + ":"@
        + i.sql_type.1.spec_value() + "), fields: "@ + fields_text(i.fields) + " ,condition: "@
        + condition_text(i.condition) + ", page: "@ + opt_bool_text(i.page) + ", order: "@
        + order_text(i.order) + ", res_type: "@ + opt_bool_text(i.res_type) + ", exist_update: "@
        + opt_bool_text(i.exist_update) + ", pre_where_sql: "@ + opt_bool_text(i.exist_update) + "}"@
}

pub open spec fn alias_items(v: Seq<(Seq<char>, Seq<char>)>) -> Seq<Seq<char>> {
    v.map_values(|p: (Seq<char>, Seq<char>)| "{"@ + p.0 + ","@ + p.1 + "}"@)
}

pub open spec fn alias_text(a: Option<Seq<(Seq<char>, Seq<char>)>>) -> Seq<char> {
    match a {
        None => "None"@,
        Some(v) => some_list_text(alias_items(v)),
    }
}

/// How the arguments of the attribute are shown.
pub open spec fn state_text(s: StateModel) -> Seq<char> {
    "State { table_name: "@ + s.table_name + ", alias_fields: "@ + alias_text(s.alias_fields)
        + " ,field_name_to_snake: "@ + opt_bool_text(s.field_name_to_snake) + " ,funs: ["@ + join(
        s.funs.map_values(|i: InnerModel| inner_text(i)),
        ", "@,
    ) + "]}"@
}

fn opt_bool_string(b: &Option<bool>) -> (r: &str)
    ensures
        r@ == opt_bool_text(*b),
{
    match b {
        None => "None",
        Some(true) => "Some(true)",
        Some(false) => "Some(false)",
    }
}

fn some_list_string(items: &Vec<String>) -> (r: String)
    ensures
        r@ == some_list_text(views(items@)),
{
    let mut r = "Some([".to_owned();
    let body = joined(items, ", ");
    r.append(body.as_str());
    r.append("])");
    r
}

fn braced(a: &str, sep: &str, b: &str) -> (r: String)
    ensures
        r@ == "{"@ + a@ + sep@ + b@ + "}"@,
{
    let mut r = "{".to_owned();
    r.append(a);
    r.append(sep);
    r.append(b);
    r.append("}");
    r
}

fn fields_string(f: &Option<Vec<String>>) -> (r: String)
    ensures
        r@ == fields_text(opt_views(*f)),
{
    match f {
        None => "None".to_owned(),
        Some(v) => some_list_string(v),
    }
}

fn condition_string(c: &Option<Vec<(String, Condition)>>) -> (r: String)
    ensures
        r@ == condition_text(opt_keyed(*c)),
{
    match c {
        None => "None".to_owned(),
        Some(v) => {
            let ghost items = condition_items(keyed(v@));
            let mut parts: Vec<String> = Vec::new();
            let n = v.len();
            let mut i: usize = 0;
            while i < n
                invariant
                    n == v@.len(),
                    items == condition_items(keyed(v@)),
                    i <= n,
                    views(parts@) == items.take(i as int),
                decreases n - i,
            {
                let x = braced(v[i].0.as_str(), ":", v[i].1.get_value());
                let ghost before = views(parts@);
                let ghost xv = x@;
                parts.push(x);
                assert(views(parts@) =~= before.push(xv));
                assert(views(parts@) =~= items.take(i + 1));
                i = i + 1;
            }
            assert(items.take(n as int) =~= items);
            some_list_string(&parts)
        },
    }
}

fn order_string(o: &Option<Vec<(String, Order)>>) -> (r: String)
    ensures
        r@ == order_text(opt_keyed(*o)),
{
    match o {
        None => "None".to_owned(),
        Some(v) => {
            let ghost items = order_items(keyed(v@));
            let mut parts: Vec<String> = Vec::new();
            let n = v.len();
            let mut i: usize = 0;
            while i < n
                invariant
                    n == v@.len(),
                    items == order_items(keyed(v@)),
                    i <= n,
                    views(parts@) == items.take(i as int),
                decreases n - i,
            {
                let x = braced(v[i].0.as_str(), ",", v[i].1.get_value());
                let ghost before = views(parts@);
                let ghost xv = x@;
                parts.push(x);
                assert(views(parts@) =~= before.push(xv));
                assert(views(parts@) =~= items.take(i + 1));
                i = i + 1;
            }
            assert(items.take(n as int) =~= items);
            some_list_string(&parts)
        },
    }
}

fn alias_string(a: &Option<Vec<(String, String)>>) -> (r: String)
    ensures
        r@ == alias_text(opt_pairs(*a)),
{
    match a {
        None => "None".to_owned(),
        Some(v) => {
            let ghost items = alias_items(string_pairs(v@));
            let mut parts: Vec<String> = Vec::new();
            let n = v.len();
            let mut i: usize = 0;
            while i < n
                invariant
                    n == v@.len(),
                    items == alias_items(string_pairs(v@)),
                    i <= n,
                    views(parts@) == items.take(i as int),
                decreases n - i,
            {
                let x = braced(v[i].0.as_str(), ",", v[i].1.as_str());
                let ghost before = views(parts@);
                let ghost xv = x@;
                parts.push(x);
                assert(views(parts@) =~= before.push(xv));
                assert(views(parts@) =~= items.take(i + 1));
                i = i + 1;
            }
            assert(items.take(n as int) =~= items);
            some_list_string(&parts)
        },
    }
}

impl Inner {
    /// The text that shows the function, as its `Debug` output reads.
    pub fn debug_string(&self) -> (r: String)
        ensures
            r@ == inner_text(self@),
    {
        let st = self.get_sql_type();
        let mut r = "Inner { fn_name: ".to_owned();
        r.append(self.get_fn_name().as_str());
        r.append(", sql_type: (");
        r.append(st.0.get_value());
        r.append(":");
        r.append(st.1.get_value());
        r.append("), fields: ");
        r.append(fields_string(self.get_fields()).as_str());
        r.append(" ,condition: ");
        r.append(condition_string(self.get_condition()).as_str());
        r.append(", page: ");
        r.append(opt_bool_string(self.get_page()));
        r.append(", order: ");
        r.append(order_string(self.get_order()).as_str());
        r.append(", res_type: ");
        r.append(opt_bool_string(self.get_res_type()));
        r.append(", exist_update: ");
        r.append(opt_bool_string(self.get_exist_update()));
        r.append(", pre_where_sql: ");
        r.append(opt_bool_string(self.get_exist_update()));
        r.append("}");
        r
    }
}

impl State {
    /// The text that shows the attribute's arguments, as their `Debug` output reads.
    pub fn debug_string(&self) -> (r: String)
        ensures
            r@ == state_text(self@),
    {
        let mut r = "State { table_name: ".to_owned();
        r.append(self.get_table_name().as_str());
        r.append(", alias_fields: ");
        r.append(alias_string(self.get_alias_fields()).as_str());
        r.append(" ,field_name_to_snake: ");
        r.append(opt_bool_string(self.get_field_name_to_snake()));
        r.append(" ,funs: [");
        let funs = self.get_funs();
        let ghost items = inner_views(funs@).map_values(|i: InnerModel| inner_text(i));
        let mut parts: Vec<String> = Vec::new();
        let n = funs.len();
        let mut i: usize = 0;
        while i < n
            invariant
                n == funs@.len(),
                items == inner_views(funs@).map_values(|i: InnerModel| inner_text(i)),
                i <= n,
                views(parts@) == items.take(i as int),
            decreases n - i,
        {
            let x = funs[i].debug_string();
            let ghost before = views(parts@);
            let ghost xv = x@;
            parts.push(x);
            assert(views(parts@) =~= before.push(xv));
            assert(views(parts@) =~= items.take(i + 1));
            i = i + 1;
        }
        assert(items.take(n as int) =~= items);
        let body = joined(&parts, ", ");
        r.append(body.as_str());
        r.append("]}");
        r
    }
}

} // verus!
