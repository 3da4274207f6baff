use vstd::prelude::*;
use crate::text::{
    is_ascii_upper, lower_char, upper, upper_is, push_char, to_lower_char, strip_start,
    strip_leading,
};

verus! {

/// A comparison that a condition of a generated query applies.
#[derive(Clone, Copy, Debug, PartialEq, Eq, Structural)]
pub enum Condition {
    EQ,
    LT,
    GT,
    EqLt,
    EqGt,
    NEQ,
}

/// The symbols that name a condition; `=<` and `=>` are accepted beside `<=` and `>=`.
pub open spec fn condition_of(s: Seq<char>) -> Option<Condition> {
    if s == "="@ {
        Some(Condition::EQ)
    } else if s == "<"@ {
        Some(Condition::LT)
    } else if s == ">"@ {
        Some(Condition::GT)
    } else if s == "<="@ || s == "=<"@ {
        Some(Condition::EqLt)
    } else if s == ">="@ || s == "=>"@ {
        Some(Condition::EqGt)
    } else if s == "!="@ {
        Some(Condition::NEQ)
    } else {
        None
    }
}

/// The condition that the symbol `s` names, if it names one.
pub fn read_condition(s: &str) -> (r: Option<Condition>)
    ensures
        r == condition_of(s@),
{
    if crate::text::same_text(s, "=") {
        Some(Condition::EQ)
    } else if crate::text::same_text(s, "<") {
        Some(Condition::LT)
    } else if crate::text::same_text(s, ">") {
        Some(Condition::GT)
    } else if crate::text::same_text(s, "<=") || crate::text::same_text(s, "=<") {
        Some(Condition::EqLt)
    } else if crate::text::same_text(s, ">=") || crate::text::same_text(s, "=>") {
        Some(Condition::EqGt)
    } else if crate::text::same_text(s, "!=") {
        Some(Condition::NEQ)
    } else {
        None
    }
}

impl Condition {
    /// The SQL operator of the condition.
    pub open spec fn spec_value(self) -> Seq<char> {
        match self {
            Condition::EQ => "="@,
            Condition::LT => "<"@,
            Condition::GT => ">"@,
            Condition::EqLt => "<="@,
            Condition::EqGt => ">="@,
            Condition::NEQ => "!="@,
        }
    }

    /// The condition that the symbol `s` names; `s` must be one of
    /// `=`, `<`, `>`, `<=`, `=<`, `>=`, `=>`, `!=`.
    pub fn match_type(s: &str) -> (r: Self)
        requires
            condition_of(s@) is Some,
        ensures
            condition_of(s@) == Some(r),
    {
        read_condition(s).unwrap()
    }

    /// The SQL operator of the condition.
    pub fn get_value(&self) -> (r: &str)
        ensures
            r@ == self.spec_value(),
    {
        match self {
            Condition::EQ => "=",
            Condition::LT => "<",
            Condition::GT => ">",
            Condition::EqLt => "<=",
            Condition::EqGt => ">=",
            Condition::NEQ => "!=",
        }
    }
}

/// The kind of statement that a generated function runs.
#[derive(Clone, Copy, Debug, PartialEq, Eq, Structural)]
pub enum SqlType {
    CREATE,
    READ,
    UPDATE,
    DELETE,
}

/// The statement kind that `s` names, in any ASCII case.
pub open spec fn sql_type_of(s: Seq<char>) -> Option<SqlType> {
    let u = upper(s);
    if u == "CREATE"@ {
        Some(SqlType::CREATE)
    } else if u == "READ"@ {
        Some(SqlType::READ)
    } else if u == "UPDATE"@ {
        Some(SqlType::UPDATE)
    } else if u == "DELETE"@ {
        Some(SqlType::DELETE)
    } else {
        None
    }
}

impl SqlType {
    /// The upper-case name of the statement kind.
    pub open spec fn spec_value(self) -> Seq<char> {
        match self {
            SqlType::CREATE => "CREATE"@,
            SqlType::READ => "READ"@,
            SqlType::UPDATE => "UPDATE"@,
            SqlType::DELETE => "DELETE"@,
        }
    }

    /// The statement kind that `s` names in any ASCII case; `s` must name one.
    pub fn match_type(s: &str) -> (r: Self)
        requires
            sql_type_of(s@) is Some,
        ensures
            sql_type_of(s@) == Some(r),
    {
        if upper_is(s, "CREATE") {
            SqlType::CREATE
        } else if upper_is(s, "READ") {
            SqlType::READ
        } else if upper_is(s, "UPDATE") {
            SqlType::UPDATE
        } else {
            SqlType::DELETE
        }
    }

    /// The upper-case name of the statement kind.
    pub fn get_value(&self) -> (r: &str)
        ensures
            r@ == self.spec_value(),
    {
        match self {
            SqlType::CREATE => "CREATE",
            SqlType::READ => "READ",
            SqlType::UPDATE => "UPDATE",
            SqlType::DELETE => "DELETE",
        }
    }
}

/// Whether a generated function handles one row or many.
#[derive(Clone, Copy, Debug, PartialEq, Eq, Structural)]
pub enum SqlTypeExt {
    SINGLE,
    BATCH,
}

/// The row count kind that `s` names, in any ASCII case.
pub open spec fn sql_type_ext_of(s: Seq<char>) -> Option<SqlTypeExt> {
    let u = upper(s);
    if u == "SINGLE"@ {
        Some(SqlTypeExt::SINGLE)
    } else if u == "BATCH"@ {
        Some(SqlTypeExt::BATCH)
    } else {
        None
    }
}

impl SqlTypeExt {
    /// The upper-case name of the row count kind.
    pub open spec fn spec_value(self) -> Seq<char> {
        match self {
            SqlTypeExt::SINGLE => "SINGLE"@,
            SqlTypeExt::BATCH => "BATCH"@,
        }
    }

    /// The row count kind that `s` names in any ASCII case; `s` must name one.
    pub fn match_type(s: &str) -> (r: Self)
        requires
            sql_type_ext_of(s@) is Some,
        ensures
            sql_type_ext_of(s@) == Some(r),
    {
        if upper_is(s, "SINGLE") {
            SqlTypeExt::SINGLE
        } else {
            SqlTypeExt::BATCH
        }
    }

    /// The upper-case name of the row count kind.
    pub fn get_value(&self) -> (r: &str)
        ensures
            r@ == self.spec_value(),
    {
        match self {
            SqlTypeExt::SINGLE => "SINGLE",
            SqlTypeExt::BATCH => "BATCH",
        }
    }
}

/// A sort direction.
#[derive(Clone, Copy, Debug, PartialEq, Eq, Structural)]
pub enum Order {
    ASC,
    DESC,
}

/// The sort direction that `s` names, in any ASCII case.
pub open spec fn order_of(s: Seq<char>) -> Option<Order> {
    let u = upper(s);
    if u == "ASC"@ {
        Some(Order::ASC)
    } else if u == "DESC"@ {
        Some(Order::DESC)
    } else {
        None
    }
}

impl Order {
    /// The SQL keyword of the sort direction.
    pub open spec fn spec_value(self) -> Seq<char> {
        match self {
            Order::ASC => "ASC"@,
            Order::DESC => "DESC"@,
        }
    }

    /// The sort direction that `s` names in any ASCII case; `s` must name one.
    pub fn match_type(s: &str) -> (r: Self)
        requires
            order_of(s@) is Some,
        ensures
            order_of(s@) == Some(r),
    {
        if upper_is(s, "ASC") {
            Order::ASC
        } else {
            Order::DESC
        }
    }

    /// The SQL keyword of the sort direction.
    pub fn get_value(&self) -> (r: &str)
        ensures
            r@ == self.spec_value(),
    {
        match self {
            Order::ASC => "ASC",
            Order::DESC => "DESC",
        }
    }
}

/// The statement kinds, kept for callers that name them without a row count.
#[derive(Clone, Copy, Debug, PartialEq, Eq, Structural)]
pub enum Private {
    CREATE,
    READ(),
    UPDATE,
    DELETE,
}

/// Reading back the operator of any condition gives that condition.
pub proof fn lemma_condition_round_trip(c: Condition)
    ensures
        condition_of(c.spec_value()) == Some(c),
{
    reveal_strlit("=");
    reveal_strlit("<");
    reveal_strlit(">");
    reveal_strlit("<=");
    reveal_strlit("=<");
    reveal_strlit(">=");
    reveal_strlit("=>");
    reveal_strlit("!=");
    assert("="@.len() == 1);
    assert("="@[0] == '=');
    assert("<"@.len() == 1);
    assert("<"@[0] == '<');
    assert(">"@.len() == 1);
    assert(">"@[0] == '>');
    assert("<="@.len() == 2);
    assert("<="@[0] == '<');
    assert("=<"@.len() == 2);
    assert("=<"@[0] == '=');
    assert(">="@.len() == 2);
    assert(">="@[0] == '>');
    assert("=>"@.len() == 2);
    assert("=>"@[0] == '=');
    assert("!="@.len() == 2);
    assert("!="@[0] == '!');
}

proof fn lemma_upper_idempotent(s: Seq<char>)
    ensures
        upper(upper(s)) == upper(s),
{
    assert(upper(upper(s)) =~= upper(s));
}

proof fn lemma_upper_keyword(s: &str)
    requires
        forall|i: int| 0 <= i < s@.len() ==> 'A' <= #[trigger] s@[i] <= 'Z',
    ensures
        upper(s@) == s@,
{
    assert(upper(s@) =~= s@);
}

/// The name of any statement kind reads back as that kind, and names are matched
/// without regard to ASCII case.
pub proof fn lemma_sql_type_round_trip(t: SqlType, s: Seq<char>)
    ensures
        sql_type_of(t.spec_value()) == Some(t),
        sql_type_of(upper(s)) == sql_type_of(s),
{
    reveal_strlit("CREATE");
    reveal_strlit("READ");
    reveal_strlit("UPDATE");
    reveal_strlit("DELETE");
    assert("CREATE"@[0] == 'C');
    assert("UPDATE"@[0] == 'U');
    assert("DELETE"@[0] == 'D');
    lemma_upper_keyword("CREATE");
    lemma_upper_keyword("READ");
    lemma_upper_keyword("UPDATE");
    lemma_upper_keyword("DELETE");
    lemma_upper_idempotent(s);
}

/// The name of either row count kind reads back as that kind, and names are matched
/// without regard to ASCII case.
pub proof fn lemma_sql_type_ext_round_trip(t: SqlTypeExt, s: Seq<char>)
    ensures
        sql_type_ext_of(t.spec_value()) == Some(t),
        sql_type_ext_of(upper(s)) == sql_type_ext_of(s),
{
    reveal_strlit("SINGLE");
    reveal_strlit("BATCH");
    lemma_upper_keyword("SINGLE");
    lemma_upper_keyword("BATCH");
    lemma_upper_idempotent(s);
}

/// The keyword of either sort direction reads back as that direction, and keywords are
/// matched without regard to ASCII case.
pub proof fn lemma_order_round_trip(o: Order, s: Seq<char>)
    ensures
        order_of(o.spec_value()) == Some(o),
        order_of(upper(s)) == order_of(s),
{
    reveal_strlit("ASC");
    reveal_strlit("DESC");
    lemma_upper_keyword("ASC");
    lemma_upper_keyword("DESC");
    lemma_upper_idempotent(s);
}

/// After the characters of `p`, whether the last one that is not an ASCII capital was `_`.
pub open spec fn after_underscore(p: Seq<char>) -> bool
    decreases p.len(),
{
    if p.len() == 0 {
        false
    } else if is_ascii_upper(p.last()) {
        after_underscore(p.drop_last())
    } else {
        p.last() == '_'
    }
}

/// `s` with each ASCII capital lowered and, unless an `_` came before it, preceded by `_`.
pub open spec fn snake_body(s: Seq<char>) -> Seq<char>
    decreases s.len(),
{
    if s.len() == 0 {
        s
    } else {
        let c = s.last();
        let r = snake_body(s.drop_last());
        if is_ascii_upper(c) {
            if after_underscore(s.drop_last()) {
                r.push(lower_char(c))
            } else {
                r.push('_').push(lower_char(c))
            }
        } else {
            r.push(c)
        }
    }
}

/// The snake-case form of a name: `snake_body` without the `_` that it begins with.
pub open spec fn snake_case(s: Seq<char>) -> Seq<char> {
    strip_start(snake_body(s), '_')
}

/// The snake-case form of `s`: an `_` goes before each ASCII capital that does not follow
/// an `_`, capitals become small letters, and the result does not begin with `_`.
pub fn to_snake_case(s: &str) -> (r: String)
    ensures
        r@ == snake_case(s@),
{
    let n = s.unicode_len();
    let mut res = String::new();
    let mut pre_under_line = false;
    let mut i: usize = 0;
    while i < n
        invariant
            n == s@.len(),
            i <= n,
            res@ == snake_body(s@.take(i as int)),
            pre_under_line == after_underscore(s@.take(i as int)),
        decreases n - i,
    {
        let c = s.get_char(i);
        assert(s@.take(i + 1).drop_last() =~= s@.take(i as int));
        if 'A' <= c && c <= 'Z' {
            if !pre_under_line {
                push_char(&mut res, '_');
            }
            push_char(&mut res, to_lower_char(c));
        } else {
            pre_under_line = c == '_';
            push_char(&mut res, c);
        }
        i = i + 1;
    }
    assert(s@.take(n as int) =~= s@);
    strip_leading(res.as_str(), '_')
}

proof fn lemma_lower_not_upper(c: char)
    ensures
        !is_ascii_upper(lower_char(c)),
        lower_char(c) != '_' || c == '_',
{
}

proof fn lemma_body_no_upper(s: Seq<char>)
    ensures
        forall|i: int| 0 <= i < snake_body(s).len() ==> !is_ascii_upper(#[trigger] snake_body(s)[i]),
    decreases s.len(),
{
    if s.len() > 0 {
        let r = snake_body(s.drop_last());
        lemma_body_no_upper(s.drop_last());
        lemma_lower_not_upper(s.last());
        assert forall|i: int| 0 <= i < snake_body(s).len() implies !is_ascii_upper(
            #[trigger] snake_body(s)[i],
        ) by {
            if i < r.len() {
                assert(snake_body(s)[i] == r[i]);
            }
        }
    }
}

proof fn lemma_body_identity(s: Seq<char>)
    requires
        forall|i: int| 0 <= i < s.len() ==> !is_ascii_upper(#[trigger] s[i]),
    ensures
        snake_body(s) == s,
    decreases s.len(),
{
    if s.len() > 0 {
        lemma_body_identity(s.drop_last());
        assert(s.drop_last().push(s.last()) =~= s);
    }
}

proof fn lemma_strip_start_shape(s: Seq<char>, c: char)
    ensures
        strip_start(s, c).len() == 0 || strip_start(s, c)[0] != c,
        exists|k: int| 0 <= k <= s.len() && strip_start(s, c) == #[trigger] s.skip(k),
    decreases s.len(),
{
    if s.len() > 0 && s[0] == c {
        lemma_strip_start_shape(s.drop_first(), c);
        let k = choose|k: int| 0 <= k <= s.drop_first().len() && strip_start(s.drop_first(), c) == #[trigger] s.drop_first().skip(k);
        assert(s.drop_first().skip(k) =~= s.skip(k + 1));
    } else {
        assert(s.skip(0) =~= s);
    }
}

/// A snake-case name never begins with `_`.
pub proof fn lemma_snake_case_no_leading_underscore(s: Seq<char>)
    ensures
        snake_case(s).len() == 0 || snake_case(s)[0] != '_',
{
    lemma_strip_start_shape(snake_body(s), '_');
}

/// A name in snake case holds no ASCII capital.
pub proof fn lemma_snake_case_has_no_capital(s: Seq<char>)
    ensures
        forall|i: int| 0 <= i < snake_case(s).len() ==> !is_ascii_upper(#[trigger] snake_case(s)[i]),
{
    let b = snake_body(s);
    lemma_body_no_upper(s);
    lemma_strip_start_shape(b, '_');
    let k = choose|k: int| 0 <= k <= b.len() && strip_start(b, '_') == #[trigger] b.skip(k);
    assert forall|i: int| 0 <= i < snake_case(s).len() implies !is_ascii_upper(#[trigger] snake_case(s)[i]) by {
        assert(snake_case(s)[i] == b[i + k]);
    }
}

/// A name with no ASCII capital that does not begin with `_` is its own snake-case form.
pub proof fn lemma_snake_case_keeps_snake_names(s: Seq<char>)
    requires
        forall|i: int| 0 <= i < s.len() ==> !is_ascii_upper(#[trigger] s[i]),
        s.len() == 0 || s[0] != '_',
    ensures
        snake_case(s) == s,
{
    lemma_body_identity(s);
}

/// Turning a name into snake case twice gives what once gives.
pub proof fn lemma_snake_case_idempotent(s: Seq<char>)
    ensures
        snake_case(snake_case(s)) == snake_case(s),
{
    lemma_snake_case_has_no_capital(s);
    lemma_snake_case_no_leading_underscore(s);
    lemma_snake_case_keeps_snake_names(snake_case(s));
}

} // verus!
