//! The stages of a pipeline query and the text each one is written as.

use crate::field::FloatText;
use crate::text::{decimal, join, join_strings, push_char, push_decimal, push_signed_decimal, signed_decimal};
use vstd::prelude::*;
use vstd::string::StringExecFns;

verus! {

/// `s` between double quotes, nothing escaped.
pub open spec fn quoted(s: Seq<char>) -> Seq<char> {
    seq!['"'] + s + seq!['"']
}

/// A list: the items between square brackets, with a comma and a space
/// between each two neighbours.
pub open spec fn list_text(items: Seq<Seq<char>>) -> Seq<char> {
    seq!['['] + join(items, seq![',', ' ']) + seq![']']
}

/// A list of strings: each one between double quotes.
pub open spec fn quoted_list(items: Seq<Seq<char>>) -> Seq<char> {
    list_text(Seq::new(items.len(), |i: int| quoted(items[i])))
}

/// One parameter of a stage: its key, a colon, a space and its value.
pub open spec fn param(key: Seq<char>, value: Seq<char>) -> Seq<char> {
    key + seq![':', ' '] + value
}

/// A stage: its name, and between round brackets its parameters, with a
/// comma and a space between each two neighbours.
pub open spec fn call(name: Seq<char>, params: Seq<Seq<char>>) -> Seq<char> {
    name + seq!['('] + join(params, seq![',', ' ']) + seq![')']
}

/// The parameter `key` with the value `value`, if there is one.
pub open spec fn optional(key: Seq<char>, value: Option<Seq<char>>) -> Seq<Seq<char>> {
    match value {
        Some(v) => seq![param(key, v)],
        None => Seq::empty(),
    }
}

/// What a filter does with a table that it leaves empty.
#[derive(Debug, Clone, Copy, PartialEq, Eq)]
pub enum OnEmpty {
    Keep,
    Drop,
}

impl OnEmpty {
    /// The word that stands for the choice.
    pub open spec fn word(self) -> Seq<char> {
        match self {
            OnEmpty::Keep => "keep"@,
            OnEmpty::Drop => "drop"@,
        }
    }

    /// The word that stands for the choice.
    pub fn as_str(&self) -> (r: &'static str)
        ensures
            r@ == self.word(),
    {
        match self {
            OnEmpty::Keep => "keep",
            OnEmpty::Drop => "drop",
        }
    }
}

/// Whether a group goes by the columns given or by all others.
#[derive(Debug, Clone, Copy, PartialEq, Eq)]
pub enum GroupMode {
    By,
    Except,
}

impl GroupMode {
    /// The word that stands for the mode.
    pub open spec fn word(self) -> Seq<char> {
        match self {
            GroupMode::By => "by"@,
            GroupMode::Except => "except"@,
        }
    }

    /// The word that stands for the mode.
    pub fn as_str(&self) -> (r: &'static str)
        ensures
            r@ == self.word(),
    {
        match self {
            GroupMode::By => "by",
            GroupMode::Except => "except",
        }
    }
}

/// A scalar value in a query.
#[derive(Debug, Clone, PartialEq)]
pub enum TypeValue {
    Bool(bool),
    Integer(i128),
    UInteger(u128),
    /// A float, held as its decimal text.
    Float(FloatText),
    String(String),
    /// A time, in epoch units.
    Time(i64),
}

impl TypeValue {
    /// The text of the value: a bool as `true` or `false`, a number or a
    /// time in decimal, a float as its decimal text, a string between double
    /// quotes.
    pub open spec fn text(self) -> Seq<char> {
        match self {
            TypeValue::Bool(b) => if b {
                "true"@
            } else {
                "false"@
            },
            TypeValue::Integer(i) => signed_decimal(i as int),
            TypeValue::UInteger(n) => decimal(n as nat),
            TypeValue::Float(t) => t@,
            TypeValue::String(s) => quoted(s@),
            TypeValue::Time(t) => signed_decimal(t as int),
        }
    }

    /// Writes the value as text.
    pub fn to_string(&self) -> (r: String)
        ensures
            r@ == self.text(),
    {
        match self {
            TypeValue::Bool(b) => if *b {
                "true".to_owned()
            } else {
                "false".to_owned()
            },
            TypeValue::Integer(i) => signed_decimal_string(*i),
            TypeValue::UInteger(n) => decimal_string(*n),
            TypeValue::Float(t) => t.as_str().to_owned(),
            TypeValue::String(s) => quote(s.as_str()),
            TypeValue::Time(t) => signed_decimal_string(*t as i128),
        }
    }
}

/// What a keep or a drop goes by: columns by name, or a predicate on the
/// column.
#[derive(Debug, Clone, PartialEq)]
pub enum Selection {
    Columns(Vec<String>),
    Predicate(String),
}

impl Selection {
    /// The one parameter that the selection is written as.
    pub open spec fn param_text(self) -> Seq<char> {
        match self {
            Selection::Columns(columns) => param("columns"@, quoted_list(columns.deep_view())),
            Selection::Predicate(predicate) => param("fn"@, quoted(predicate@)),
        }
    }

    fn to_param(&self) -> (r: String)
        ensures
            r@ == self.param_text(),
    {
        match self {
            Selection::Columns(columns) => make_param("columns", quote_list(columns).as_str()),
            Selection::Predicate(predicate) => make_param("fn", quote(predicate.as_str()).as_str()),
        }
    }
}

fn decimal_string(v: u128) -> (r: String)
    ensures
        r@ == decimal(v as nat),
{
    let mut out = String::new();
    push_decimal(&mut out, v);
    proof {
        assert(Seq::<char>::empty() + decimal(v as nat) =~= decimal(v as nat));
    }
    out
}

fn signed_decimal_string(v: i128) -> (r: String)
    ensures
        r@ == signed_decimal(v as int),
{
    let mut out = String::new();
    push_signed_decimal(&mut out, v);
    proof {
        assert(Seq::<char>::empty() + signed_decimal(v as int) =~= signed_decimal(v as int));
    }
    out
}

fn quote(s: &str) -> (r: String)
    ensures
        r@ == quoted(s@),
{
    let mut out = String::new();
    push_char(&mut out, '"');
    out.append(s);
    push_char(&mut out, '"');
    proof {
        assert(out@ =~= quoted(s@));
    }
    out
}

fn make_list(items: &Vec<String>) -> (r: String)
    ensures
        r@ == list_text(items.deep_view()),
{
    let mut out = String::new();
    push_char(&mut out, '[');
    proof {
        reveal_strlit(", ");
        assert(", "@ =~= seq![',', ' ']);
    }
    let inner = join_strings(items, ", ");
    out.append(inner.as_str());
    push_char(&mut out, ']');
    proof {
        assert(out@ =~= list_text(items.deep_view()));
    }
    out
}

fn quote_list(items: &Vec<String>) -> (r: String)
    ensures
        r@ == quoted_list(items.deep_view()),
{
    let mut parts: Vec<String> = Vec::new();
    let mut i: usize = 0;
    while i < items.len()
        invariant
            i <= items@.len(),
            parts@.len() == i,
            forall|k: int| 0 <= k < i ==> (#[trigger] parts@[k])@ == quoted(items@[k]@),
        decreases items@.len() - i,
    {
        parts.push(quote(items[i].as_str()));
        i = i + 1;
    }
    proof {
        assert(parts.deep_view() =~= Seq::new(
            items.deep_view().len(),
            |i: int| quoted(items.deep_view()[i]),
        ));
    }
    make_list(&parts)
}

fn make_param(key: &str, value: &str) -> (r: String)
    ensures
        r@ == param(key@, value@),
{
    let mut out = key.to_owned();
    push_char(&mut out, ':');
    push_char(&mut out, ' ');
    out.append(value);
    proof {
        assert(out@ =~= param(key@, value@));
    }
    out
}

fn make_call(name: &str, params: &Vec<String>) -> (r: String)
    ensures
        r@ == call(name@, params.deep_view()),
{
    let mut out = name.to_owned();
    push_char(&mut out, '(');
    proof {
        reveal_strlit(", ");
        assert(", "@ =~= seq![',', ' ']);
    }
    let inner = join_strings(params, ", ");
    out.append(inner.as_str());
    push_char(&mut out, ')');
    proof {
        assert(out@ =~= call(name@, params.deep_view()));
    }
    out
}

/// One stage of a pipeline query.
#[allow(inconsistent_fields)]
#[derive(Debug, Clone, PartialEq)]
pub enum Stage {
    From { bucket: String },
    Range { start: i64, stop: Option<i64> },
    /// `predicate` is a ready expression: it is written as it stands.
    Filter { predicate: String, on_empty: Option<OnEmpty> },
    Group { columns: Vec<String>, mode: Option<GroupMode> },
    Yield { name: String },
    Keep(Selection),
    Drop(Selection),
    Tail { n: u64, offset: Option<u64> },
    /// The members of `set` are expected to be of the kind of `value`.
    Contains { value: TypeValue, set: Vec<TypeValue> },
    Distinct { column: String },
    Max,
    Min,
    Limit { n: u64, offset: Option<u64> },
    SetValue { key: String, value: String },
    Sort { columns: Option<Vec<String>>, desc: Option<bool> },
    Count { column: Option<String> },
    Buckets,
    /// `unit` is a duration: it is written as it stands.
    Integral { unit: String, column: Option<String>, time_column: Option<String> },
    Duplicate { column: String, as_name: String },
    Keys { column: Option<String> },
    Pivot { row_key: Vec<String>, column_key: Vec<String>, value_column: String },
}

/// The text of a bool.
pub open spec fn bool_text(b: bool) -> Seq<char> {
    if b {
        "true"@
    } else {
        "false"@
    }
}

/// The texts of scalar values, in order.
pub open spec fn scalar_texts(set: Seq<TypeValue>) -> Seq<Seq<char>> {
    Seq::new(set.len(), |i: int| set[i].text())
}

/// A string between double quotes, if there is one.
pub open spec fn quoted_option(s: Option<String>) -> Option<Seq<char>> {
    match s {
        Some(s) => Some(quoted(s@)),
        None => None,
    }
}

/// The decimal numeral of a number, if there is one.
pub open spec fn decimal_option(n: Option<u64>) -> Option<Seq<char>> {
    match n {
        Some(n) => Some(decimal(n as nat)),
        None => None,
    }
}

impl Stage {
    /// The name of the stage and its parameters, each as its text. A
    /// parameter that was not given is left out.
    pub open spec fn parts(self) -> (Seq<char>, Seq<Seq<char>>) {
        match self {
            Stage::From { bucket } => ("from"@, seq![param("bucket"@, quoted(bucket@))]),
            Stage::Range { start, stop } => (
                "range"@,
                seq![param("start"@, signed_decimal(start as int))] + optional(
                    "stop"@,
                    match stop {
                        Some(t) => Some(signed_decimal(t as int)),
                        None => None,
                    },
                ),
            ),
            Stage::Filter { predicate, on_empty } => (
                "filter"@,
                seq![param("fn"@, predicate@)] + optional(
                    "onEmpty"@,
                    match on_empty {
                        Some(e) => Some(quoted(e.word())),
                        None => None,
                    },
                ),
            ),
            Stage::Group { columns, mode } => (
                "group"@,
                seq![param("columns"@, quoted_list(columns.deep_view()))] + optional(
                    "mode"@,
                    match mode {
                        Some(m) => Some(quoted(m.word())),
                        None => None,
                    },
                ),
            ),
            Stage::Yield { name } => ("yield"@, seq![param("name"@, quoted(name@))]),
            Stage::Keep(selection) => ("keep"@, seq![selection.param_text()]),
            Stage::Drop(selection) => ("drop"@, seq![selection.param_text()]),
            Stage::Tail { n, offset } => (
                "tail"@,
                seq![param("n"@, decimal(n as nat))] + optional("offset"@, decimal_option(offset)),
            ),
            Stage::Contains { value, set } => (
                "contains"@,
                seq![param("value"@, value.text()), param("set"@, list_text(scalar_texts(set@)))],
            ),
            Stage::Distinct { column } => ("distinct"@, seq![param("column"@, quoted(column@))]),
            Stage::Max => ("max"@, Seq::empty()),
            Stage::Min => ("min"@, Seq::empty()),
            Stage::Limit { n, offset } => (
                "limit"@,
                seq![param("n"@, decimal(n as nat))] + optional("offset"@, decimal_option(offset)),
            ),
            Stage::SetValue { key, value } => (
                "set"@,
                seq![param("key"@, quoted(key@)), param("value"@, quoted(value@))],
            ),
            Stage::Sort { columns, desc } => (
                "sort"@,
                optional(
                    "columns"@,
                    match columns {
                        Some(c) => Some(quoted_list(c.deep_view())),
                        None => None,
                    },
                ) + optional(
                    "desc"@,
                    match desc {
                        Some(d) => Some(bool_text(d)),
                        None => None,
                    },
                ),
            ),
            Stage::Count { column } => ("count"@, optional("column"@, quoted_option(column))),
            Stage::Buckets => ("buckets"@, Seq::empty()),
            Stage::Integral { unit, column, time_column } => (
                "integral"@,
                seq![param("unit"@, unit@)] + optional("column"@, quoted_option(column)) + optional(
                    "timeColumn"@,
                    quoted_option(time_column),
                ),
            ),
            Stage::Duplicate { column, as_name } => (
                "duplicate"@,
                seq![param("column"@, quoted(column@)), param("as"@, quoted(as_name@))],
            ),
            Stage::Keys { column } => ("keys"@, optional("column"@, quoted_option(column))),
            Stage::Pivot { row_key, column_key, value_column } => (
                "pivot"@,
                seq![
                    param("rowKey"@, quoted_list(row_key.deep_view())),
                    param("columnKey"@, quoted_list(column_key.deep_view())),
                    param("valueColumn"@, quoted(value_column@)),
                ],
            ),
        }
    }

    /// The text of the stage.
    pub open spec fn text(self) -> Seq<char> {
        call(self.parts().0, self.parts().1)
    }

    /// Writes the stage as text.
    pub fn to_string(&self) -> (r: String)
        ensures
            r@ == self.text(),
    {
        let mut params: Vec<String> = Vec::new();
        let ghost none = params.deep_view();
        proof {
            assert(none =~= Seq::<Seq<char>>::empty());
        }
        let name = match self {
            Stage::From { bucket } => {
                push_param(&mut params, "bucket", quote(bucket.as_str()).as_str());
                "from"
            },
            Stage::Range { start, stop } => {
                push_param(&mut params, "start", signed_decimal_string(*start as i128).as_str());
                let stop_text = match stop {
                    Some(t) => Some(signed_decimal_string(*t as i128)),
                    None => None,
                };
                push_optional(&mut params, "stop", &stop_text);
                "range"
            },
            Stage::Filter { predicate, on_empty } => {
                push_param(&mut params, "fn", predicate.as_str());
                let on_empty_text = match on_empty {
                    Some(e) => Some(quote(e.as_str())),
                    None => None,
                };
                push_optional(&mut params, "onEmpty", &on_empty_text);
                "filter"
            },
            Stage::Group { columns, mode } => {
                push_param(&mut params, "columns", quote_list(columns).as_str());
                let mode_text = match mode {
                    Some(m) => Some(quote(m.as_str())),
                    None => None,
                };
                push_optional(&mut params, "mode", &mode_text);
                "group"
            },
            Stage::Yield { name } => {
                push_param(&mut params, "name", quote(name.as_str()).as_str());
                "yield"
            },
            Stage::Keep(selection) => {
                params.push(selection.to_param());
                proof {
                    assert(params.deep_view() =~= none + seq![selection.param_text()]);
                }
                "keep"
            },
            Stage::Drop(selection) => {
                params.push(selection.to_param());
                proof {
                    assert(params.deep_view() =~= none + seq![selection.param_text()]);
                }
                "drop"
            },
            Stage::Tail { n, offset } => {
                push_param(&mut params, "n", decimal_string(*n as u128).as_str());
                push_optional(&mut params, "offset", &decimal_of_option(offset));
                "tail"
            },
            Stage::Contains { value, set } => {
                push_param(&mut params, "value", value.to_string().as_str());
                push_param(&mut params, "set", make_list(&scalar_strings(set)).as_str());
                "contains"
            },
            Stage::Distinct { column } => {
                push_param(&mut params, "column", quote(column.as_str()).as_str());
                "distinct"
            },
            Stage::Max => "max",
            Stage::Min => "min",
            Stage::Limit { n, offset } => {
                push_param(&mut params, "n", decimal_string(*n as u128).as_str());
                push_optional(&mut params, "offset", &decimal_of_option(offset));
                "limit"
            },
            Stage::SetValue { key, value } => {
                push_param(&mut params, "key", quote(key.as_str()).as_str());
                push_param(&mut params, "value", quote(value.as_str()).as_str());
                "set"
            },
            Stage::Sort { columns, desc } => {
                let columns_text = match columns {
                    Some(c) => Some(quote_list(c)),
                    None => None,
                };
                push_optional(&mut params, "columns", &columns_text);
                let desc_text = match desc {
                    Some(d) => Some(
                        if *d {
                            "true".to_owned()
                        } else {
                            "false".to_owned()
                        },
                    ),
                    None => None,
                };
                push_optional(&mut params, "desc", &desc_text);
                "sort"
            },
            Stage::Count { column } => {
                push_optional(&mut params, "column", &quote_option(column));
                "count"
            },
            Stage::Buckets => "buckets",
            Stage::Integral { unit, column, time_column } => {
                push_param(&mut params, "unit", unit.as_str());
                push_optional(&mut params, "column", &quote_option(column));
                push_optional(&mut params, "timeColumn", &quote_option(time_column));
                "integral"
            },
            Stage::Duplicate { column, as_name } => {
                push_param(&mut params, "column", quote(column.as_str()).as_str());
                push_param(&mut params, "as", quote(as_name.as_str()).as_str());
                "duplicate"
            },
            Stage::Keys { column } => {
                push_optional(&mut params, "column", &quote_option(column));
                "keys"
            },
            Stage::Pivot { row_key, column_key, value_column } => {
                push_param(&mut params, "rowKey", quote_list(row_key).as_str());
                push_param(&mut params, "columnKey", quote_list(column_key).as_str());
                push_param(&mut params, "valueColumn", quote(value_column.as_str()).as_str());
                "pivot"
            },
        };
        proof {
            assert(name@ == self.parts().0);
            assert(params.deep_view() =~= self.parts().1);
        }
        make_call(name, &params)
    }

    /// A keep stage, by columns or by a predicate: exactly one of the two
    /// is given.
    pub fn keep(columns: Option<Vec<String>>, predicate: Option<String>) -> (r: Stage)
        requires
            columns is Some != predicate is Some,
        ensures
            r == Stage::Keep(selection_of(columns, predicate)),
    {
        Stage::Keep(select(columns, predicate))
    }

    /// A drop stage, by columns or by a predicate: exactly one of the two
    /// is given.
    pub fn drop(columns: Option<Vec<String>>, predicate: Option<String>) -> (r: Stage)
        requires
            columns is Some != predicate is Some,
        ensures
            r == Stage::Drop(selection_of(columns, predicate)),
    {
        Stage::Drop(select(columns, predicate))
    }
}

/// Whether exactly one of the two is given.
pub fn one_of(columns: &Option<Vec<String>>, predicate: &Option<String>) -> (r: bool)
    ensures
        r == (columns is Some != predicate is Some),
{
    columns.is_some() != predicate.is_some()
}

/// The selection that the one of the two that is given stands for.
pub open spec fn selection_of(columns: Option<Vec<String>>, predicate: Option<String>) -> Selection {
    match columns {
        Some(c) => Selection::Columns(c),
        None => Selection::Predicate(predicate->0),
    }
}

fn select(columns: Option<Vec<String>>, predicate: Option<String>) -> (r: Selection)
    requires
        columns is Some != predicate is Some,
    ensures
        r == selection_of(columns, predicate),
{
    match (columns, predicate) {
        (Some(c), None) => Selection::Columns(c),
        (None, Some(p)) => Selection::Predicate(p),
        _ => vstd::pervasive::unreached(),
    }
}

/// The view of a string, if there is one.
pub open spec fn text_option(s: Option<String>) -> Option<Seq<char>> {
    match s {
        Some(s) => Some(s@),
        None => None,
    }
}

fn push_param(params: &mut Vec<String>, key: &str, value: &str)
    ensures
        final(params).deep_view() == old(params).deep_view() + seq![param(key@, value@)],
{
    params.push(make_param(key, value));
    proof {
        assert(params.deep_view() =~= old(params).deep_view() + seq![param(key@, value@)]);
    }
}

fn push_optional(params: &mut Vec<String>, key: &str, value: &Option<String>)
    ensures
        final(params).deep_view() == old(params).deep_view() + optional(key@, text_option(*value)),
{
    match value {
        Some(v) => {
            push_param(params, key, v.as_str());
        },
        None => {
            proof {
                assert(params.deep_view() =~= params.deep_view() + Seq::<Seq<char>>::empty());
            }
        },
    }
}

fn quote_option(s: &Option<String>) -> (r: Option<String>)
    ensures
        text_option(r) == quoted_option(*s),
{
    match s {
        Some(s) => Some(quote(s.as_str())),
        None => None,
    }
}

fn decimal_of_option(n: &Option<u64>) -> (r: Option<String>)
    ensures
        text_option(r) == decimal_option(*n),
{
    match n {
        Some(n) => Some(decimal_string(*n as u128)),
        None => None,
    }
}

fn scalar_strings(set: &Vec<TypeValue>) -> (r: Vec<String>)
    ensures
        r.deep_view() == scalar_texts(set@),
{
    let mut parts: Vec<String> = Vec::new();
    let mut i: usize = 0;
    while i < set.len()
        invariant
            i <= set@.len(),
            parts@.len() == i,
            forall|k: int| 0 <= k < i ==> (#[trigger] parts@[k])@ == set@[k].text(),
        decreases set@.len() - i,
    {
        parts.push(set[i].to_string());
        i = i + 1;
    }
    proof {
        assert(parts.deep_view() =~= scalar_texts(set@));
    }
    parts
}

} // verus!
