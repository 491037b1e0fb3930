//! Loosely typed values: what a rule file or a manifest holds under a key.

use vstd::prelude::*;

use crate::text::{decimal, decimal_of, same, texts};

verus! {

/// A loosely typed value. A number is kept as its numeral.
#[derive(Debug)]
pub enum Datum {
    Null,
    Bool(bool),
    Number(String),
    Text(String),
    Sequence(Vec<Datum>),
    Mapping(Vec<(Datum, Datum)>),
    /// A value with a tag in front of it.
    Tagged(String, Box<Datum>),
}

/// The mathematical form of a [`Datum`].
pub enum DatumModel {
    Null,
    Bool(bool),
    Number(Seq<char>),
    Text(Seq<char>),
    Sequence(Seq<DatumModel>),
    Mapping(Seq<(DatumModel, DatumModel)>),
    Tagged(Seq<char>, Box<DatumModel>),
}

/// What a value stands for.
pub open spec fn value_model(v: Datum) -> DatumModel
    decreases v,
{
    match v {
        Datum::Null => DatumModel::Null,
        Datum::Bool(b) => DatumModel::Bool(b),
        Datum::Number(n) => DatumModel::Number(n@),
        Datum::Text(s) => DatumModel::Text(s@),
        Datum::Sequence(items) => DatumModel::Sequence(
            Seq::new(
                items@.len(),
                |i: int|
                    if 0 <= i < items@.len() {
                        value_model(items@[i])
                    } else {
                        DatumModel::Null
                    },
            ),
        ),
        Datum::Mapping(items) => DatumModel::Mapping(
            Seq::new(
                items@.len(),
                |i: int|
                    if 0 <= i < items@.len() {
                        (value_model(items@[i].0), value_model(items@[i].1))
                    } else {
                        (DatumModel::Null, DatumModel::Null)
                    },
            ),
        ),
        Datum::Tagged(tag, inner) => DatumModel::Tagged(tag@, Box::new(value_model(*inner))),
    }
}

impl View for Datum {
    type V = DatumModel;

    open spec fn view(&self) -> DatumModel {
        value_model(*self)
    }
}

/// The models of the entries of a mapping.
pub open spec fn pair_models(items: Seq<(Datum, Datum)>) -> Seq<(DatumModel, DatumModel)> {
    items.map_values(|p: (Datum, Datum)| (p.0@, p.1@))
}

/// The models of the items of a sequence.
pub open spec fn value_models(items: Seq<Datum>) -> Seq<DatumModel> {
    items.map_values(|v: Datum| v@)
}

/// A mapping of the given entries.
pub fn mapping(items: Vec<(Datum, Datum)>) -> (r: Datum)
    ensures
        r@ == DatumModel::Mapping(pair_models(items@)),
{
    let r = Datum::Mapping(items);
    assert(r@->Mapping_0 =~= pair_models(items@));
    r
}

/// A sequence of the given items.
pub fn sequence(items: Vec<Datum>) -> (r: Datum)
    ensures
        r@ == DatumModel::Sequence(value_models(items@)),
{
    let r = Datum::Sequence(items);
    assert(r@->Sequence_0 =~= value_models(items@));
    r
}

/// An entry with a string key.
pub fn entry(key: &str, v: Datum) -> (r: (Datum, Datum))
    ensures
        r.0@ == DatumModel::Text(key@),
        r.1@ == v@,
{
    (Datum::Text(key.to_owned()), v)
}

/// A string as a value.
pub fn text_value(s: &str) -> (r: Datum)
    ensures
        r@ == DatumModel::Text(s@),
{
    Datum::Text(s.to_owned())
}

/// A whole number as a value.
pub fn count_value(n: u64) -> (r: Datum)
    ensures
        r@ == DatumModel::Number(decimal_of(n as nat)),
{
    Datum::Number(decimal(n as u128))
}

/// The text of a truth value.
pub open spec fn bool_text(b: bool) -> Seq<char> {
    if b {
        "true"@
    } else {
        "false"@
    }
}

/// The string forms of a value: a scalar has one, a sequence has those of its
/// items in order, and null, a mapping or a tagged value has none.
pub open spec fn string_forms(v: DatumModel) -> Seq<Seq<char>>
    decreases v,
{
    match v {
        DatumModel::Text(s) => seq![s],
        DatumModel::Bool(b) => seq![bool_text(b)],
        DatumModel::Number(n) => seq![n],
        DatumModel::Sequence(items) => all_string_forms(items),
        _ => Seq::empty(),
    }
}

/// The string forms of several values, in order.
pub open spec fn all_string_forms(items: Seq<DatumModel>) -> Seq<Seq<char>>
    decreases items,
{
    if items.len() == 0 {
        Seq::empty()
    } else {
        all_string_forms(items.drop_last()) + string_forms(items.last())
    }
}

/// The text of a scalar value.
pub open spec fn scalar_form(v: DatumModel) -> Option<Seq<char>> {
    match v {
        DatumModel::Text(s) => Some(s),
        DatumModel::Bool(b) => Some(bool_text(b)),
        DatumModel::Number(n) => Some(n),
        _ => None,
    }
}

pub fn bool_string(b: bool) -> (r: String)
    ensures
        r@ == bool_text(b),
{
    if b {
        "true".to_owned()
    } else {
        "false".to_owned()
    }
}

/// Flattens a value into the string forms used for matching: a scalar becomes
/// one element, a sequence its flattened elements, anything else nothing.
pub fn value_strings(v: &Datum) -> (r: Vec<String>)
    ensures
        texts(r@) == string_forms(v@),
    decreases v,
{
    let mut out: Vec<String> = Vec::new();
    match v {
        Datum::Text(s) => {
            out.push(s.clone());
        },
        Datum::Bool(b) => {
            out.push(bool_string(*b));
        },
        Datum::Number(n) => {
            out.push(n.clone());
        },
        Datum::Sequence(items) => {
            let ghost models = v@->Sequence_0;
            let mut i: usize = 0;
            while i < items.len()
                invariant
                    i <= items@.len(),
                    *v == Datum::Sequence(*items),
                    models == v@->Sequence_0,
                    models.len() == items@.len(),
                    texts(out@) == all_string_forms(models.take(i as int)),
                decreases items@.len() - i,
            {
                let mut more = value_strings(&items[i]);
                let ghost before = out@;
                let ghost added = more@;
                out.append(&mut more);
                assert(texts(out@) == texts(before) + texts(added));
                assert(models.take(i + 1).drop_last() == models.take(i as int));
                assert(models.take(i + 1).last() == items@[i as int]@);
                i += 1;
            }
            assert(models.take(i as int) == models);
        },
        Datum::Null => {},
        Datum::Mapping(_) => {},
        Datum::Tagged(_, _) => {},
    }
    assert(v@ is Sequence || texts(out@) =~= string_forms(v@));
    out
}

/// The string forms of a value in a rule file.
pub fn yaml_strings(v: &Datum) -> (r: Vec<String>)
    ensures
        texts(r@) == string_forms(v@),
{
    value_strings(v)
}

/// The text of a scalar value; nothing for a sequence, a mapping or null.
pub fn yaml_scalar(v: &Datum) -> (r: Option<String>)
    ensures
        crate::text::opt_text(r) == scalar_form(v@),
{
    match v {
        Datum::Text(s) => Some(s.clone()),
        Datum::Bool(b) => Some(bool_string(*b)),
        Datum::Number(n) => Some(n.clone()),
        _ => None,
    }
}

/// The first position from `i` on at which a mapping has the string key `k`.
pub open spec fn key_position(items: Seq<(DatumModel, DatumModel)>, k: Seq<char>, i: int) -> Option<int>
    decreases items.len() - i,
{
    if i < 0 || i >= items.len() {
        None
    } else if items[i].0 == DatumModel::Text(k) {
        Some(i)
    } else {
        key_position(items, k, i + 1)
    }
}

/// What stands behind the tags of a value, if it has any.
pub open spec fn untagged(v: DatumModel) -> DatumModel
    decreases v,
{
    match v {
        DatumModel::Tagged(_, inner) => untagged(*inner),
        _ => v,
    }
}

/// The value of a mapping under a string key; nothing for any other value. A tag in
/// front of the mapping does not matter, and a tagged key is not a string.
pub open spec fn member(v: DatumModel, k: Seq<char>) -> Option<DatumModel> {
    match untagged(v) {
        DatumModel::Mapping(items) => match key_position(items, k, 0) {
            Some(i) => Some(items[i].1),
            None => None,
        },
        _ => None,
    }
}

/// A copy of the value.
fn copy_value(v: &Datum) -> (r: Datum)
    ensures
        r@ == v@,
    decreases v,
{
    match v {
        Datum::Null => Datum::Null,
        Datum::Bool(b) => Datum::Bool(*b),
        Datum::Number(n) => Datum::Number(n.clone()),
        Datum::Text(s) => Datum::Text(s.clone()),
        Datum::Sequence(items) => {
            let mut out: Vec<Datum> = Vec::new();
            let mut i: usize = 0;
            while i < items.len()
                invariant
                    i <= items@.len(),
                    out@.len() == i,
                    *v == Datum::Sequence(*items),
                    forall|k: int| 0 <= k < i ==> (#[trigger] out@[k])@ == items@[k]@,
                decreases items@.len() - i,
            {
                assert(decreases_to!(v => v->Sequence_0));
                out.push(copy_value(&items[i]));
                i += 1;
            }
            let r = Datum::Sequence(out);
            assert(r@->Sequence_0 =~= v@->Sequence_0);
            r
        },
        Datum::Mapping(items) => {
            let mut out: Vec<(Datum, Datum)> = Vec::new();
            let mut i: usize = 0;
            while i < items.len()
                invariant
                    i <= items@.len(),
                    out@.len() == i,
                    *v == Datum::Mapping(*items),
                    forall|k: int|
                        0 <= k < i ==> (#[trigger] out@[k]).0@ == items@[k].0@ && out@[k].1@
                            == items@[k].1@,
                decreases items@.len() - i,
            {
                assert(decreases_to!(v => v->Mapping_0));
                assert(decreases_to!(items@[i as int] => items@[i as int].0));
                assert(decreases_to!(items@[i as int] => items@[i as int].1));
                let k = copy_value(&items[i].0);
                let w = copy_value(&items[i].1);
                out.push((k, w));
                i += 1;
            }
            let r = Datum::Mapping(out);
            assert(r@->Mapping_0 =~= v@->Mapping_0);
            r
        },
        Datum::Tagged(tag, inner) => Datum::Tagged(tag.clone(), Box::new(copy_value(inner))),
    }
}

impl Datum {
    /// What stands behind the tags of the value.
    pub fn untag(&self) -> (r: &Datum)
        ensures
            r@ == untagged(self@),
        decreases self,
    {
        match self {
            Datum::Tagged(_, inner) => inner.untag(),
            _ => self,
        }
    }

    /// The value of a mapping under a string key.
    pub fn get(&self, key: &str) -> (r: Option<&Datum>)
        ensures
            match r {
                Some(v) => member(self@, key@) == Some(v@),
                None => member(self@, key@) is None,
            },
    {
        let bare = self.untag();
        if let Datum::Mapping(items) = bare {
            let ghost models = bare@->Mapping_0;
            let mut i: usize = 0;
            while i < items.len()
                invariant
                    i <= items@.len(),
                    *bare == Datum::Mapping(*items),
                    bare@ == untagged(self@),
                    models == bare@->Mapping_0,
                    models.len() == items@.len(),
                    key_position(models, key@, 0) == key_position(models, key@, i as int),
                decreases items@.len() - i,
            {
                assert(models[i as int] == (value_model(items@[i as int].0), value_model(items@[i as int].1)));
                if let Datum::Text(s) = &items[i].0 {
                    if same(s.as_str(), key) {
                        return Some(&items[i].1);
                    }
                }
                i += 1;
            }
        }
        None
    }

    /// A copy of the value.
    pub fn duplicate(&self) -> (r: Datum)
        ensures
            r@ == self@,
    {
        copy_value(self)
    }

    /// The text of a string value, behind its tags.
    pub fn as_str(&self) -> (r: Option<&str>)
        ensures
            match r {
                Some(s) => untagged(self@) == DatumModel::Text(s@),
                None => !(untagged(self@) is Text),
            },
    {
        match self.untag() {
            Datum::Text(s) => Some(s.as_str()),
            _ => None,
        }
    }
}

/// Whether JSON can hold a value as it is: numbers are decimal numerals of 64 bits,
/// the keys of a mapping are strings of which no two are equal, and nothing is tagged.
pub open spec fn json_ready(v: DatumModel) -> bool
    decreases v,
{
    match v {
        DatumModel::Number(n) => exists|k: u64| n == decimal_of(k as nat),
        DatumModel::Sequence(items) => forall|i: int|
            0 <= i < items.len() ==> json_ready(#[trigger] items[i]),
        DatumModel::Mapping(items) => {
            &&& forall|i: int|
                0 <= i < items.len() ==> (#[trigger] items[i]).0 is Text && json_ready(items[i].1)
            &&& forall|i: int, j: int|
                0 <= i < j < items.len() ==> (#[trigger] items[i]).0 != (#[trigger] items[j]).0
        },
        DatumModel::Tagged(_, _) => false,
        _ => true,
    }
}

} // verus!
