use vstd::prelude::*;
use crate::attr::{AttrToken, opt_view};
use crate::fold::{fold_seq, lemma_fold_step, lemma_fold_whole, lemma_fold_err};
use crate::text::{same_text, strip, stripped};

verus! {

/// A type that reads itself from the configuration.
pub trait Conf {
    fn conf() -> Self where Self: Sized;
}

/// What `str::to_uppercase` gives: the Unicode upper-case form of a text.
pub uninterp spec fn unicode_upper(s: Seq<char>) -> Seq<char>;

/// Calls `str::to_uppercase`, which maps each character to its Unicode upper case; the
/// result depends on the text alone, and the contract names it without stating it.
#[verifier::external_body]
fn to_uppercase(s: &str) -> (r: String)
    ensures
        r@ == unicode_upper(s@),
{
    s.to_uppercase()
}

/// The ghost form of the arguments of the `conf` attribute.
pub ghost struct ConAttrModel {
    pub path: Option<Seq<char>>,
    pub prefix: Option<Seq<char>>,
    pub data_type: Option<Seq<char>>,
}

/// The arguments of the `conf` attribute: the file to read, the dotted path of the part
/// to read, and the file's format in upper case.
pub struct ConAttr {
    pub path: Option<String>,
    pub prefix: Option<String>,
    pub data_type: Option<String>,
}

impl View for ConAttr {
    type V = ConAttrModel;

    open spec fn view(&self) -> ConAttrModel {
        ConAttrModel {
            path: opt_view(self.path),
            prefix: opt_view(self.prefix),
            data_type: opt_view(self.data_type),
        }
    }
}

pub open spec fn conf_token_step(acc: (ConAttrModel, Seq<char>), t: AttrToken) -> Result<
    (ConAttrModel, Seq<char>),
    Seq<char>,
> {
    match t {
        AttrToken::Ident(s) => Ok((acc.0, s@)),
        AttrToken::Literal(l) => {
            let v = strip(l@, '"');
            let key = acc.1;
            if key == "path"@ {
                Ok((ConAttrModel { path: Some(v), ..acc.0 }, key))
            } else if key == "prefix"@ {
                Ok((ConAttrModel { prefix: Some(v), ..acc.0 }, key))
            } else if key == "data_type"@ {
                Ok((ConAttrModel { data_type: Some(unicode_upper(v)), ..acc.0 }, key))
            } else {
                Err(key)
            }
        },
        _ => Ok(acc),
    }
}

pub open spec fn conf_stepper() -> spec_fn((ConAttrModel, Seq<char>), AttrToken) -> Result<
    (ConAttrModel, Seq<char>),
    Seq<char>,
> {
    |acc: (ConAttrModel, Seq<char>), t: AttrToken| conf_token_step(acc, t)
}

/// What the tokens of the `conf` attribute give: each literal, without its quotes, is the
/// value of the identifier last seen before it; an identifier other than `path`,
/// `prefix`, `data_type` before a literal is an error.
pub open spec fn conf_attr_of(toks: Seq<AttrToken>) -> Result<ConAttrModel, Seq<char>> {
    let init = (ConAttrModel { path: None, prefix: None, data_type: None }, Seq::<char>::empty());
    match fold_seq(init, toks, conf_stepper()) {
        Ok((a, _)) => Ok(a),
        Err(k) => Err(k),
    }
}

/// Reads the arguments of the `conf` attribute; the error is the name of an argument that
/// it does not know.
pub fn parse_attr(toks: &Vec<AttrToken>) -> (r: Result<ConAttr, String>)
    ensures
        match r {
            Ok(a) => conf_attr_of(toks@) == Ok::<ConAttrModel, Seq<char>>(a@),
            Err(k) => conf_attr_of(toks@) == Err::<ConAttrModel, Seq<char>>(k@),
        },
{
    let ghost init = (ConAttrModel { path: None, prefix: None, data_type: None }, Seq::<char>::empty());
    let ghost step = conf_stepper();
    let mut attr = ConAttr { path: None, prefix: None, data_type: None };
    let mut key = String::new();
    let n = toks.len();
    let mut i: usize = 0;
    while i < n
        invariant
            n == toks@.len(),
            step == conf_stepper(),
            init == (ConAttrModel { path: None, prefix: None, data_type: None }, Seq::<char>::empty()),
            i <= n,
            fold_seq(init, toks@.take(i as int), step) == Ok::<(ConAttrModel, Seq<char>), Seq<char>>(
                (attr@, key@),
            ),
        decreases n - i,
    {
        proof {
            lemma_fold_step(init, toks@, step, i as int);
        }
        assert(step((attr@, key@), toks@[i as int]) == conf_token_step((attr@, key@), toks@[i as int]));
        match &toks[i] {
            AttrToken::Ident(s) => {
                key = s.clone();
            },
            AttrToken::Literal(l) => {
                let value = stripped(l.as_str(), '"');
                if same_text(key.as_str(), "path") {
                    attr.path = Some(value);
                } else if same_text(key.as_str(), "prefix") {
                    attr.prefix = Some(value);
                } else if same_text(key.as_str(), "data_type") {
                    attr.data_type = Some(to_uppercase(value.as_str()));
                } else {
                    proof {
                        lemma_fold_err(init, toks@, step, i + 1);
                    }
                    return Err(key);
                }
            },
            _ => {},
        }
        i = i + 1;
    }
    proof {
        lemma_fold_whole(init, toks@, step);
    }
    Ok(attr)
}

/// Whether the `conf` attribute asks for a format that can be read: none given, or `YAML`.
pub fn supported_data_type(data_type: &Option<String>) -> (r: bool)
    ensures
        r == (opt_view(*data_type) is None || opt_view(*data_type) == Some("YAML"@)),
{
    match data_type {
        None => true,
        Some(d) => same_text(d.as_str(), "YAML"),
    }
}

} // verus!
