use vstd::prelude::*;
use crate::attr::opt_views;
use crate::text::{same_text, views};

verus! {

/// Which methods a derive writes: getters `get_<field>`, setters `set_<field>`, or `new`.
#[derive(Clone, Copy, Debug, PartialEq, Eq, Structural)]
pub enum AccessorKind {
    Getter,
    Setter,
    Constructor,
}

impl AccessorKind {
    /// The word that names the derive's attribute and begins the names of its methods.
    pub open spec fn spec_word(self) -> Seq<char> {
        match self {
            AccessorKind::Getter => "get"@,
            AccessorKind::Setter => "set"@,
            AccessorKind::Constructor => "new"@,
        }
    }

    /// The word that names the derive's attribute and begins the names of its methods.
    pub fn word(&self) -> (r: &str)
        ensures
            r@ == self.spec_word(),
    {
        match self {
            AccessorKind::Getter => "get",
            AccessorKind::Setter => "set",
            AccessorKind::Constructor => "new",
        }
    }
}

/// The field `item` is one that the attribute's list names; with no list, every field is.
pub open spec fn field_selected(args: Option<Seq<Seq<char>>>, item: Seq<char>) -> bool {
    match args {
        None => true,
        Some(l) => l.contains(item),
    }
}

/// Whether the attribute's list names `item`; with no list, every field counts as named.
pub fn contains_fields(args: &Option<Vec<String>>, item: &String) -> (r: bool)
    ensures
        r == field_selected(opt_views(*args), item@),
{
    match args {
        None => true,
        Some(l) => {
            let n = l.len();
            let mut i: usize = 0;
            while i < n
                invariant
                    n == l@.len(),
                    opt_views(*args) == Some(views(l@)),
                    i <= n,
                    forall|j: int| 0 <= j < i ==> l@[j]@ != item@,
                decreases n - i,
            {
                if same_text(l[i].as_str(), item.as_str()) {
                    assert(views(l@)[i as int] == item@);
                    assert(views(l@).contains(item@));
                    assert(opt_views(*args) == Some(views(l@)));
                    return true;
                }
                i = i + 1;
            }
            assert(!views(l@).contains(item@)) by {
                if views(l@).contains(item@) {
                    let j = choose|j: int| 0 <= j < views(l@).len() && views(l@)[j] == item@;
                    assert(views(l@)[j] == l@[j]@);
                }
            }
            false
        },
    }
}

/// The methods that the derive `ident` writes for the fields `fields` (names, or the
/// positions of a tuple struct): for each field that the list names, in order, its
/// place and the method's name, the word, `_` and the field.
pub open spec fn accessor_plan(ident: AccessorKind, fields: Seq<Seq<char>>, args: Option<Seq<Seq<char>>>) -> Seq<
    (int, Seq<char>),
>
    decreases fields.len(),
{
    if fields.len() == 0 {
        Seq::empty()
    } else {
        let r = accessor_plan(ident, fields.drop_last(), args);
        if field_selected(args, fields.last()) {
            r.push((fields.len() - 1, ident.spec_word() + "_"@ + fields.last()))
        } else {
            r
        }
    }
}

pub open spec fn accessor_views(v: Seq<(usize, String)>) -> Seq<(int, Seq<char>)> {
    v.map_values(|p: (usize, String)| (p.0 as int, p.1@))
}

/// The getters or setters that the derive `ident` writes: the place of each field that the
/// attribute's list names, with the method's name.
pub fn accessor_names(ident: AccessorKind, fields: &Vec<String>, args: &Option<Vec<String>>) -> (r: Vec<
    (usize, String),
>)
    ensures
        accessor_views(r@) == accessor_plan(ident, views(fields@), opt_views(*args)),
{
    let ghost fs = views(fields@);
    let mut r: Vec<(usize, String)> = Vec::new();
    let n = fields.len();
    let mut i: usize = 0;
    assert(accessor_views(r@) =~= Seq::<(int, Seq<char>)>::empty());
    while i < n
        invariant
            n == fs.len(),
            fs == views(fields@),
            i <= n,
            accessor_views(r@) == accessor_plan(ident, fs.take(i as int), opt_views(*args)),
        decreases n - i,
    {
        assert(fs.take(i + 1).drop_last() =~= fs.take(i as int));
        assert(fs[i as int] == fields@[i as int]@);
        if contains_fields(args, &fields[i]) {
            let mut name = ident.word().to_owned();
            name.append("_");
            name.append(fields[i].as_str());
            let ghost before = accessor_views(r@);
            let ghost nv = name@;
            r.push((i, name));
            assert(accessor_views(r@) =~= before.push((i as int, nv)));
        }
        i = i + 1;
    }
    assert(fs.take(n as int) =~= fs);
    r
}

/// The places of the fields that the list names, in order.
pub open spec fn selected_places(fields: Seq<Seq<char>>, args: Option<Seq<Seq<char>>>) -> Seq<int>
    decreases fields.len(),
{
    if fields.len() == 0 {
        Seq::empty()
    } else {
        let r = selected_places(fields.drop_last(), args);
        if field_selected(args, fields.last()) {
            r.push(fields.len() - 1)
        } else {
            r
        }
    }
}

/// What `new` takes and does: the places of the fields it takes as parameters, in order,
/// and whether some field is left out and takes its default.
pub open spec fn new_plan(fields: Seq<Seq<char>>, args: Option<Seq<Seq<char>>>) -> (Seq<int>, bool) {
    (
        selected_places(fields, args),
        exists|i: int| 0 <= i < fields.len() && !field_selected(args, #[trigger] fields[i]),
    )
}

pub open spec fn place_views(v: Seq<usize>) -> Seq<int> {
    v.map_values(|i: usize| i as int)
}

/// What `new` takes: the places of the fields that the list names, and whether some
/// field is left out.
pub fn new_params(fields: &Vec<String>, args: &Option<Vec<String>>) -> (r: (Vec<usize>, bool))
    ensures
        (place_views(r.0@), r.1) == new_plan(views(fields@), opt_views(*args)),
{
    let ghost fs = views(fields@);
    let mut r: Vec<usize> = Vec::new();
    let mut left_out = false;
    let n = fields.len();
    let mut i: usize = 0;
    assert(place_views(r@) =~= Seq::<int>::empty());
    while i < n
        invariant
            n == fs.len(),
            fs == views(fields@),
            i <= n,
            place_views(r@) == selected_places(fs.take(i as int), opt_views(*args)),
            left_out == exists|j: int| 0 <= j < i && !field_selected(opt_views(*args), #[trigger] fs[j]),
        decreases n - i,
    {
        assert(fs.take(i + 1).drop_last() =~= fs.take(i as int));
        assert(fs[i as int] == fields@[i as int]@);
        if contains_fields(args, &fields[i]) {
            let ghost before = place_views(r@);
            r.push(i);
            assert(place_views(r@) =~= before.push(i as int));
        } else {
            left_out = true;
        }
        i = i + 1;
    }
    assert(fs.take(n as int) =~= fs);
    (r, left_out)
}

/// With no list in the attribute, the derive writes a method for every field, in the order
/// of the fields, and `new` takes every field and leaves none to its default.
pub proof fn lemma_no_list_selects_all(ident: AccessorKind, fields: Seq<Seq<char>>)
    ensures
        accessor_plan(ident, fields, None) == Seq::new(
            fields.len(),
            |i: int| (i, ident.spec_word() + "_"@ + fields[i]),
        ),
        new_plan(fields, None) == (Seq::new(fields.len(), |i: int| i), false),
    decreases fields.len(),
{
    if fields.len() > 0 {
        lemma_no_list_selects_all(ident, fields.drop_last());
    }
    assert(accessor_plan(ident, fields, None) =~= Seq::new(
        fields.len(),
        |i: int| (i, ident.spec_word() + "_"@ + fields[i]),
    ));
    assert(selected_places(fields, None) =~= Seq::new(fields.len(), |i: int| i));
}

/// With a list in the attribute, the derive writes a method for a field exactly when the
/// list names it.
pub proof fn lemma_list_selects_named(ident: AccessorKind, fields: Seq<Seq<char>>, l: Seq<Seq<char>>, i: int)
    requires
        0 <= i < fields.len(),
    ensures
        (exists|k: int| 0 <= k < accessor_plan(ident, fields, Some(l)).len() && #[trigger] accessor_plan(
            ident,
            fields,
            Some(l),
        )[k] == (i, ident.spec_word() + "_"@ + fields[i])) <==> l.contains(fields[i]),
    decreases fields.len(),
{
    let r = accessor_plan(ident, fields.drop_last(), Some(l));
    lemma_plan_places_below(ident, fields.drop_last(), Some(l));
    if i < fields.len() - 1 {
        lemma_list_selects_named(ident, fields.drop_last(), l, i);
        assert(fields.drop_last()[i] == fields[i]);
        let full = accessor_plan(ident, fields, Some(l));
        if exists|k: int| 0 <= k < full.len() && #[trigger] full[k] == (i, ident.spec_word() + "_"@ + fields[i]) {
            let k = choose|k: int| 0 <= k < full.len() && #[trigger] full[k] == (i, ident.spec_word() + "_"@ + fields[i]);
            if k < r.len() {
                assert(r[k] == full[k]);
            }
        }
        if l.contains(fields[i]) {
            let k = choose|k: int| 0 <= k < r.len() && #[trigger] r[k] == (i, ident.spec_word() + "_"@ + fields[i]);
            assert(full[k] == r[k]);
        }
    } else {
        let full = accessor_plan(ident, fields, Some(l));
        if l.contains(fields[i]) {
            assert(full[r.len() as int] == (i, ident.spec_word() + "_"@ + fields[i]));
        } else {
            if exists|k: int| 0 <= k < full.len() && #[trigger] full[k] == (i, ident.spec_word() + "_"@ + fields[i]) {
                let k = choose|k: int| 0 <= k < full.len() && #[trigger] full[k] == (i, ident.spec_word() + "_"@ + fields[i]);
                assert(full == r);
                assert(r[k].0 < fields.len() - 1);
            }
        }
    }
}

proof fn lemma_plan_places_below(ident: AccessorKind, fields: Seq<Seq<char>>, args: Option<Seq<Seq<char>>>)
    ensures
        forall|k: int| 0 <= k < accessor_plan(ident, fields, args).len() ==> #[trigger] accessor_plan(
            ident,
            fields,
            args,
        )[k].0 < fields.len(),
    decreases fields.len(),
{
    if fields.len() > 0 {
        lemma_plan_places_below(ident, fields.drop_last(), args);
        let r = accessor_plan(ident, fields.drop_last(), args);
        let full = accessor_plan(ident, fields, args);
        assert forall|k: int| 0 <= k < full.len() implies #[trigger] full[k].0 < fields.len() by {
            if k < r.len() {
                assert(full[k] == r[k]);
            }
        }
    }
}

} // verus!
