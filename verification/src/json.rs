//! JSON values as the importers read them.

use crate::text;
use vstd::prelude::*;
use vstd::string::*;

verus! {

/// A value of `serde_json`.
#[verifier::external_type_specification]
#[verifier::external_body]
pub struct ExValue(serde_json::Value);

/// A number of `serde_json`.
#[verifier::external_type_specification]
#[verifier::external_body]
pub struct ExNumber(serde_json::Number);

/// An error of `serde_json`.
#[verifier::external_type_specification]
#[verifier::external_body]
pub struct ExError(serde_json::Error);

/// A JSON value.
pub enum Json {
    Null,
    Bool(bool),
    Number(serde_json::Number),
    Text(String),
    Array(Vec<Json>),
    /// An object as its keys and values; of two equal keys the later one counts.
    Object(Vec<(String, Json)>),
}

/// What a JSON value is.
pub enum JsonView {
    Null,
    Bool(bool),
    Number(serde_json::Number),
    Text(Seq<char>),
    Array(Seq<JsonView>),
    Object(Map<Seq<char>, JsonView>),
}

/// The object with the given keys and values, a later key replacing an equal one before it.
pub open spec fn object_of(fields: Seq<(Seq<char>, JsonView)>) -> Map<Seq<char>, JsonView>
    decreases fields.len(),
{
    if fields.len() == 0 {
        Map::empty()
    } else {
        object_of(fields.drop_last()).insert(fields.last().0, fields.last().1)
    }
}

/// The views of `items`.
pub open spec fn items_view(items: Seq<Json>) -> Seq<JsonView>
    decreases items,
{
    if items.len() == 0 {
        Seq::empty()
    } else {
        items_view(items.drop_last()).push(json_view(items.last()))
    }
}

/// The keys and the views of the values of `fields`.
pub open spec fn fields_view(fields: Seq<(String, Json)>) -> Seq<(Seq<char>, JsonView)>
    decreases fields,
{
    if fields.len() == 0 {
        Seq::empty()
    } else {
        fields_view(fields.drop_last()).push((fields.last().0@, json_view(fields.last().1)))
    }
}

/// What `value` is.
pub open spec fn json_view(value: Json) -> JsonView
    decreases value,
{
    match value {
        Json::Null => JsonView::Null,
        Json::Bool(b) => JsonView::Bool(b),
        Json::Number(n) => JsonView::Number(n),
        Json::Text(s) => JsonView::Text(s@),
        Json::Array(items) => JsonView::Array(items_view(items@)),
        Json::Object(fields) => JsonView::Object(object_of(fields_view(fields@))),
    }
}

impl View for Json {
    type V = JsonView;

    open spec fn view(&self) -> JsonView {
        json_view(*self)
    }
}

/// What a value of `serde_json` holds.
pub uninterp spec fn value_view(value: serde_json::Value) -> JsonView;

/// The value that `serde_json` reads from a text, if the text is JSON to it.
pub uninterp spec fn parsed_json(text: Seq<char>) -> Option<JsonView>;

/// One level of a JSON value, with what is nested in it still as values of `serde_json`.
pub enum JsonNode {
    Null,
    Bool(bool),
    Number(serde_json::Number),
    Text(String),
    Array(Vec<serde_json::Value>),
    Object(Vec<(String, serde_json::Value)>),
}

/// The keys and what the values of `fields` hold.
pub open spec fn node_fields(fields: Seq<(String, serde_json::Value)>) -> Seq<
    (Seq<char>, JsonView),
> {
    Seq::new(fields.len(), |i: int| (fields[i].0@, value_view(fields[i].1)))
}

/// What the value with this outermost level is.
pub open spec fn node_view(node: JsonNode) -> JsonView {
    match node {
        JsonNode::Null => JsonView::Null,
        JsonNode::Bool(b) => JsonView::Bool(b),
        JsonNode::Number(n) => JsonView::Number(n),
        JsonNode::Text(s) => JsonView::Text(s@),
        JsonNode::Array(items) => JsonView::Array(
            Seq::new(items@.len(), |i: int| value_view(items@[i])),
        ),
        JsonNode::Object(fields) => JsonView::Object(object_of(node_fields(fields@))),
    }
}

/// Whether no key stands twice in `fields`.
pub open spec fn distinct_keys(fields: Seq<(Seq<char>, JsonView)>) -> bool {
    forall|i: int, j: int| 0 <= i < j < fields.len() ==> fields[i].0 != fields[j].0
}

/// `serde_json::from_str`, reading a `serde_json::Value`: whether the text is read, and the value
/// then read, is a matter of the text alone.
#[verifier::external_body]
fn parse_value(text: &str) -> (r: Result<serde_json::Value, serde_json::Error>)
    ensures
        match r {
            Ok(value) => parsed_json(text@) == Some(value_view(value)),
            Err(_) => parsed_json(text@) is None,
        },
{
    serde_json::from_str(text)
}

/// Tells the variants of a `serde_json::Value` apart. The keys of an object differ, since
/// `serde_json::Map` is a map.
#[verifier::external_body]
fn value_node(value: serde_json::Value) -> (r: JsonNode)
    ensures
        node_view(r) == value_view(value),
        r matches JsonNode::Object(fields) ==> distinct_keys(node_fields(fields@)),
{
    match value {
        serde_json::Value::Null => JsonNode::Null,
        serde_json::Value::Bool(b) => JsonNode::Bool(b),
        serde_json::Value::Number(n) => JsonNode::Number(n),
        serde_json::Value::String(s) => JsonNode::Text(s),
        serde_json::Value::Array(items) => JsonNode::Array(items),
        serde_json::Value::Object(fields) => JsonNode::Object(fields.into_iter().collect()),
    }
}

/// An object made of distinct keys holds the value of each.
proof fn lemma_object_of_distinct(fields: Seq<(Seq<char>, JsonView)>)
    requires
        distinct_keys(fields),
    ensures
        forall|i: int|
            0 <= i < fields.len() ==> object_of(fields).dom().contains(#[trigger] fields[i].0)
                && object_of(fields)[fields[i].0] == fields[i].1,
        object_of(fields).dom().finite(),
    decreases fields.len(),
{
    if fields.len() > 0 {
        lemma_object_of_distinct(fields.drop_last());
        assert forall|i: int| 0 <= i < fields.len() implies object_of(fields).dom().contains(
            #[trigger] fields[i].0,
        ) && object_of(fields)[fields[i].0] == fields[i].1 by {
            if i < fields.len() - 1 {
                assert(fields.drop_last()[i] == fields[i]);
            }
        }
    }
}

/// An object has the keys that it is made of.
proof fn lemma_object_of_keys(fields: Seq<(Seq<char>, JsonView)>, key: Seq<char>)
    ensures
        object_of(fields).dom().contains(key) <==> exists|i: int|
            0 <= i < fields.len() && (#[trigger] fields[i]).0 == key,
    decreases fields.len(),
{
    if fields.len() > 0 {
        let rest = fields.drop_last();
        lemma_object_of_keys(rest, key);
        if object_of(rest).dom().contains(key) {
            let i = choose|i: int| 0 <= i < rest.len() && (#[trigger] rest[i]).0 == key;
            assert(fields[i].0 == key);
        }
        if exists|i: int| 0 <= i < fields.len() && (#[trigger] fields[i]).0 == key {
            let i = choose|i: int| 0 <= i < fields.len() && (#[trigger] fields[i]).0 == key;
            if i < rest.len() {
                assert(rest[i].0 == key);
            }
        }
        assert(fields[fields.len() - 1] == fields.last());
    }
}

/// Whether one of `fields` has the key `key`.
fn has_field(fields: &Vec<(String, serde_json::Value)>, key: &str) -> (r: bool)
    ensures
        r <==> exists|i: int|
            0 <= i < fields@.len() && (#[trigger] node_fields(fields@)[i]).0 == key@,
{
    for i in 0..fields.len()
        invariant
            forall|j: int| 0 <= j < i ==> (#[trigger] node_fields(fields@)[j]).0 != key@,
    {
        if text::same_text(fields[i].0.as_str(), key) {
            assert(node_fields(fields@)[i as int].0 == key@);
            return true;
        }
    }
    false
}

/// The JSON value that a value of `serde_json` is.
fn from_value(value: serde_json::Value) -> (r: Json)
    ensures
        r@ == value_view(value),
    decreases value_view(value),
{
    let ghost whole_view = value_view(value);
    match value_node(value) {
        JsonNode::Null => Json::Null,
        JsonNode::Bool(b) => Json::Bool(b),
        JsonNode::Number(n) => Json::Number(n),
        JsonNode::Text(s) => Json::Text(s),
        JsonNode::Array(items) => {
            let ghost all = items@;
            let ghost views = whole_view->Array_0;
            let mut out: Vec<Json> = Vec::new();
            for item in it: items
                invariant
                    it.seq() == all,
                    whole_view == value_view(value),
                    whole_view == JsonView::Array(views),
                    views == Seq::new(all.len(), |i: int| value_view(all[i])),
                    items_view(out@) == views.take(it.index()),
            {
                let ghost k = it.index();
                assert(value_view(item) == views[k]);
                assert(decreases_to!(whole_view => whole_view->Array_0));
                assert(decreases_to!(views => views[k]));
                let ghost before = out@;
                let converted = from_value(item);
                out.push(converted);
                assert(out@.drop_last() == before);
                assert(views.take(k + 1) == views.take(k).push(views[k]));
            }
            assert(views.take(views.len() as int) == views);
            Json::Array(out)
        },
        JsonNode::Object(fields) => {
            let ghost all = fields@;
            let ghost views = node_fields(all);
            let mut out: Vec<(String, Json)> = Vec::new();
            proof {
                lemma_object_of_distinct(views);
            }
            for field in it: fields
                invariant
                    it.seq() == all,
                    whole_view == value_view(value),
                    whole_view == JsonView::Object(object_of(views)),
                    views == node_fields(all),
                    object_of(views).dom().finite(),
                    forall|i: int|
                        0 <= i < views.len() ==> object_of(views).dom().contains(
                            #[trigger] views[i].0,
                        ) && object_of(views)[views[i].0] == views[i].1,
                    fields_view(out@) == views.take(it.index()),
            {
                let ghost k = it.index();
                let (key, nested) = field;
                assert(views[k] == (key@, value_view(nested)));
                assert(object_of(views).dom().contains(views[k].0));
                assert(decreases_to!(whole_view => whole_view->Object_0));
                assert(decreases_to!(object_of(views) => object_of(views)[key@]));
                let ghost before = out@;
                let converted = from_value(nested);
                out.push((key, converted));
                assert(out@.drop_last() == before);
                assert(views.take(k + 1) == views.take(k).push(views[k]));
            }
            assert(views.take(views.len() as int) == views);
            Json::Object(out)
        },
    }
}

/// Reads a text as JSON.
pub fn parse_json(text: &str) -> (r: Result<Json, serde_json::Error>)
    ensures
        match r {
            Ok(value) => parsed_json(text@) == Some(value@),
            Err(_) => parsed_json(text@) is None,
        },
{
    match parse_value(text) {
        Ok(value) => Ok(from_value(value)),
        Err(error) => Err(error),
    }
}

/// The text that `serde_json` writes for a value.
pub uninterp spec fn json_text(value: JsonView) -> Seq<char>;

/// The value of a number of `serde_json` that is an integer from `i64::MIN` to `i64::MAX`.
pub uninterp spec fn number_i64(number: serde_json::Number) -> Option<i64>;

/// `Number::as_i64`, which gives the value of an integer that fits, and nothing for any other
/// number.
pub assume_specification[ serde_json::Number::as_i64 ](number: &serde_json::Number) -> (r: Option<
    i64,
>)
    ensures
        r == number_i64(*number),
;

/// `Number::clone`, which makes an equal number.
pub assume_specification[ <serde_json::Number as Clone>::clone ](number: &serde_json::Number) -> (r:
    serde_json::Number)
    ensures
        r == *number,
;

/// Builds the `serde_json::Value` with the given outermost level. The fields of an object, whose
/// keys have to differ, are collected into a `serde_json::Map`, which then holds each of them.
#[verifier::external_body]
fn value_of_node(node: JsonNode) -> (r: serde_json::Value)
    requires
        node matches JsonNode::Object(fields) ==> distinct_keys(node_fields(fields@)),
    ensures
        value_view(r) == node_view(node),
{
    match node {
        JsonNode::Null => serde_json::Value::Null,
        JsonNode::Bool(b) => serde_json::Value::Bool(b),
        JsonNode::Number(n) => serde_json::Value::Number(n),
        JsonNode::Text(s) => serde_json::Value::String(s),
        JsonNode::Array(items) => serde_json::Value::Array(items),
        JsonNode::Object(fields) => serde_json::Value::Object(fields.into_iter().collect()),
    }
}

/// `Value::to_string`, which writes a value as JSON without white space between the tokens. The
/// text is a matter of the value alone: an object is a sorted map, so its keys come in their order.
#[verifier::external_body]
fn value_text(value: &serde_json::Value) -> (r: String)
    ensures
        r@ == json_text(value_view(*value)),
{
    value.to_string()
}

/// One view for each item, at the item's index.
pub proof fn lemma_items_view(items: Seq<Json>)
    ensures
        items_view(items).len() == items.len(),
        forall|i: int| 0 <= i < items.len() ==> #[trigger] items_view(items)[i] == items[i]@,
    decreases items.len(),
{
    if items.len() > 0 {
        lemma_items_view(items.drop_last());
        assert forall|i: int| 0 <= i < items.len() implies #[trigger] items_view(items)[i]
            == items[i]@ by {
            if i < items.len() - 1 {
                assert(items_view(items)[i] == items_view(items.drop_last())[i]);
            }
        }
    }
}

/// One key and view for each field, at the field's index.
proof fn lemma_fields_view(fields: Seq<(String, Json)>)
    ensures
        fields_view(fields).len() == fields.len(),
        forall|i: int|
            0 <= i < fields.len() ==> #[trigger] fields_view(fields)[i] == (
                fields[i].0@,
                fields[i].1@,
            ),
    decreases fields.len(),
{
    if fields.len() > 0 {
        lemma_fields_view(fields.drop_last());
        assert forall|i: int| 0 <= i < fields.len() implies #[trigger] fields_view(fields)[i] == (
            fields[i].0@,
            fields[i].1@,
        ) by {
            if i < fields.len() - 1 {
                assert(fields_view(fields)[i] == fields_view(fields.drop_last())[i]);
            }
        }
    }
}

/// The value of `key` in an object.
pub open spec fn field(value: JsonView, key: Seq<char>) -> Option<JsonView> {
    match value {
        JsonView::Object(fields) => if fields.dom().contains(key) {
            Some(fields[key])
        } else {
            None
        },
        _ => None,
    }
}

/// The text that a value is, if it is one.
pub open spec fn text_of(value: JsonView) -> Option<Seq<char>> {
    match value {
        JsonView::Text(s) => Some(s),
        _ => None,
    }
}

/// The truth value that a value is, if it is one.
pub open spec fn bool_of(value: JsonView) -> Option<bool> {
    match value {
        JsonView::Bool(b) => Some(b),
        _ => None,
    }
}

/// The items of a value that is an array.
pub open spec fn items_of(value: JsonView) -> Option<Seq<JsonView>> {
    match value {
        JsonView::Array(items) => Some(items),
        _ => None,
    }
}

/// The integer that a value is, if it is one that fits in 64 bits.
pub open spec fn integer_of(value: JsonView) -> Option<i64> {
    match value {
        JsonView::Number(n) => number_i64(n),
        _ => None,
    }
}

/// The text under `key`.
pub open spec fn text_field(value: JsonView, key: Seq<char>) -> Option<Seq<char>> {
    match field(value, key) {
        Some(inner) => text_of(inner),
        None => None,
    }
}

/// The truth value under `key`.
pub open spec fn bool_field(value: JsonView, key: Seq<char>) -> Option<bool> {
    match field(value, key) {
        Some(inner) => bool_of(inner),
        None => None,
    }
}

impl Json {
    /// The value of `key` in an object.
    pub fn get(&self, key: &str) -> (r: Option<&Json>)
        ensures
            match r {
                Some(inner) => field(self@, key@) == Some(inner@),
                None => field(self@, key@) is None,
            },
    {
        match self {
            Json::Object(fields) => {
                let mut i: usize = fields.len();
                assert(fields@.take(i as int) == fields@);
                while i > 0
                    invariant
                        i <= fields@.len(),
                        self@ == JsonView::Object(object_of(fields_view(fields@))),
                        field(self@, key@) == field(
                            JsonView::Object(object_of(fields_view(fields@.take(i as int)))),
                            key@,
                        ),
                    decreases i,
                {
                    let ghost part = fields@.take(i as int);
                    i = i - 1;
                    assert(part.drop_last() == fields@.take(i as int));
                    assert(part.last() == fields@[i as int]);
                    assert(fields_view(part).drop_last() == fields_view(part.drop_last()));
                    assert(fields_view(part).last() == (
                        fields@[i as int].0@,
                        fields@[i as int].1@,
                    ));
                    if text::same_text(fields[i].0.as_str(), key) {
                        return Some(&fields[i].1);
                    }
                }
                assert(fields@.take(0) == Seq::<(String, Json)>::empty());
                None
            },
            _ => None,
        }
    }

    /// The text that this value is, if it is one.
    pub fn as_str(&self) -> (r: Option<&String>)
        ensures
            match r {
                Some(text) => text_of(self@) == Some(text@),
                None => text_of(self@) is None,
            },
    {
        match self {
            Json::Text(s) => Some(s),
            _ => None,
        }
    }

    /// The truth value that this value is, if it is one.
    pub fn as_bool(&self) -> (r: Option<bool>)
        ensures
            r == bool_of(self@),
    {
        match self {
            Json::Bool(b) => Some(*b),
            _ => None,
        }
    }

    /// The items of a value that is an array.
    pub fn as_array(&self) -> (r: Option<&Vec<Json>>)
        ensures
            match r {
                Some(items) => items_of(self@) == Some(items_view(items@)),
                None => items_of(self@) is None,
            },
    {
        match self {
            Json::Array(items) => Some(items),
            _ => None,
        }
    }

    /// The integer that this value is, if it is one that fits in 64 bits.
    pub fn as_i64(&self) -> (r: Option<i64>)
        ensures
            r == integer_of(self@),
    {
        match self {
            Json::Number(n) => n.as_i64(),
            _ => None,
        }
    }

    /// The text under `key`.
    pub fn get_str(&self, key: &str) -> (r: Option<&String>)
        ensures
            match r {
                Some(text) => text_field(self@, key@) == Some(text@),
                None => text_field(self@, key@) is None,
            },
    {
        match self.get(key) {
            Some(inner) => inner.as_str(),
            None => None,
        }
    }

    /// A copy of the text under `key`.
    pub fn get_text(&self, key: &str) -> (r: Option<String>)
        ensures
            r.deep_view() == text_field(self@, key@),
    {
        match self.get_str(key) {
            Some(text) => Some(text.clone()),
            None => None,
        }
    }

    /// The truth value under `key`.
    pub fn get_bool(&self, key: &str) -> (r: Option<bool>)
        ensures
            r == bool_field(self@, key@),
    {
        match self.get(key) {
            Some(inner) => inner.as_bool(),
            None => None,
        }
    }

    /// A value equal to this one.
    pub fn duplicate(&self) -> (r: Json)
        ensures
            r@ == self@,
        decreases self,
    {
        match self {
            Json::Null => Json::Null,
            Json::Bool(b) => Json::Bool(*b),
            Json::Number(n) => Json::Number(n.clone()),
            Json::Text(s) => Json::Text(s.clone()),
            Json::Array(items) => {
                let mut out: Vec<Json> = Vec::new();
                for i in 0..items.len()
                    invariant
                        *self == Json::Array(*items),
                        items_view(out@) == items_view(items@.take(i as int)),
                {
                    let ghost before = out@;
                    assert(decreases_to!(self => self->Array_0));
                    assert(decreases_to!(items => items@));
                    assert(decreases_to!(items@ => items@[i as int]));
                    out.push(items[i].duplicate());
                    assert(out@.drop_last() == before);
                    assert(items@.take(i + 1).drop_last() == items@.take(i as int));
                }
                assert(items@.take(items@.len() as int) == items@);
                Json::Array(out)
            },
            Json::Object(fields) => {
                let mut out: Vec<(String, Json)> = Vec::new();
                for i in 0..fields.len()
                    invariant
                        *self == Json::Object(*fields),
                        fields_view(out@) == fields_view(fields@.take(i as int)),
                {
                    let ghost before = out@;
                    assert(decreases_to!(self => self->Object_0));
                    assert(decreases_to!(fields => fields@));
                    assert(decreases_to!(fields@ => fields@[i as int]));
                    assert(decreases_to!(fields@[i as int] => fields@[i as int].1));
                    out.push((fields[i].0.clone(), fields[i].1.duplicate()));
                    assert(out@.drop_last() == before);
                    assert(fields@.take(i + 1).drop_last() == fields@.take(i as int));
                }
                assert(fields@.take(fields@.len() as int) == fields@);
                Json::Object(out)
            },
        }
    }

    /// This value as a value of `serde_json`.
    pub fn to_value(&self) -> (r: serde_json::Value)
        ensures
            value_view(r) == self@,
        decreases self,
    {
        match self {
            Json::Null => value_of_node(JsonNode::Null),
            Json::Bool(b) => value_of_node(JsonNode::Bool(*b)),
            Json::Number(n) => value_of_node(JsonNode::Number(n.clone())),
            Json::Text(s) => value_of_node(JsonNode::Text(s.clone())),
            Json::Array(items) => {
                let mut out: Vec<serde_json::Value> = Vec::new();
                for i in 0..items.len()
                    invariant
                        *self == Json::Array(*items),
                        out@.len() == i,
                        forall|j: int| 0 <= j < i ==> value_view(out@[j]) == items@[j]@,
                {
                    assert(decreases_to!(self => self->Array_0));
                    assert(decreases_to!(items => items@));
                    assert(decreases_to!(items@ => items@[i as int]));
                    out.push(items[i].to_value());
                }
                proof {
                    lemma_items_view(items@);
                    assert(Seq::new(out@.len(), |i: int| value_view(out@[i])) =~= items_view(
                        items@,
                    ));
                }
                value_of_node(JsonNode::Array(out))
            },
            Json::Object(fields) => {
                let ghost views = fields_view(fields@);
                let mut out: Vec<(String, serde_json::Value)> = Vec::new();
                let mut i: usize = fields.len();
                proof {
                    lemma_fields_view(fields@);
                    assert(node_fields(out@) =~= Seq::empty());
                    assert(views.take(i as int) == views);
                    assert(object_of(views).union_prefer_right(Map::empty()) =~= object_of(views));
                }
                while i > 0
                    invariant
                        *self == Json::Object(*fields),
                        i <= fields@.len(),
                        views.len() == fields@.len(),
                        forall|j: int|
                            0 <= j < views.len() ==> #[trigger] views[j] == (
                                fields@[j].0@,
                                fields@[j].1@,
                            ),
                        distinct_keys(node_fields(out@)),
                        object_of(views.take(i as int)).union_prefer_right(
                            object_of(node_fields(out@)),
                        ) == object_of(views),
                    decreases i,
                {
                    let ghost before = node_fields(out@);
                    let ghost rest = object_of(views.take(i - 1));
                    assert(views.take(i as int).drop_last() == views.take(i - 1));
                    i = i - 1;
                    let key = fields[i].0.as_str();
                    assert(decreases_to!(self => self->Object_0));
                    assert(decreases_to!(fields => fields@));
                    assert(decreases_to!(fields@ => fields@[i as int]));
                    assert(decreases_to!(fields@[i as int] => fields@[i as int].1));
                    let replaced = has_field(&out, key);
                    proof {
                        lemma_object_of_distinct(before);
                        lemma_object_of_keys(before, key@);
                    }
                    if !replaced {
                        let value = fields[i].1.to_value();
                        out.push((fields[i].0.clone(), value));
                        assert(node_fields(out@) =~= before.push(views[i as int]));
                        assert(node_fields(out@).drop_last() =~= before);
                        assert(distinct_keys(node_fields(out@)));
                    }
                    assert(rest.union_prefer_right(object_of(node_fields(out@)))
                        =~= rest.insert(views[i as int].0, views[i as int].1).union_prefer_right(
                        object_of(before),
                    ));
                }
                assert(object_of(views.take(0)).union_prefer_right(object_of(node_fields(out@)))
                    =~= object_of(node_fields(out@)));
                value_of_node(JsonNode::Object(out))
            },
        }
    }

    /// The text of this value as JSON.
    pub fn render(&self) -> (r: String)
        ensures
            r@ == json_text(self@),
    {
        let value = self.to_value();
        value_text(&value)
    }
}

/// The values in those of `lines` that are JSON.
pub open spec fn parsed_lines(lines: Seq<Seq<char>>) -> Seq<JsonView>
    decreases lines.len(),
{
    if lines.len() == 0 {
        Seq::empty()
    } else {
        let line = text::trimmed(lines.last());
        match parsed_json(line) {
            Some(value) => if line.len() > 0 {
                parsed_lines(lines.drop_last()).push(value)
            } else {
                parsed_lines(lines.drop_last())
            },
            None => parsed_lines(lines.drop_last()),
        }
    }
}

/// Reads those of `lines` from index `from` on as JSON. Lines that are blank or not JSON are
/// skipped.
pub fn parse_json_lines(lines: &Vec<String>, from: usize) -> (r: Vec<Json>)
    requires
        from <= lines@.len(),
    ensures
        items_view(r@) == parsed_lines(lines.deep_view().skip(from as int)),
{
    let ghost views = lines.deep_view().skip(from as int);
    let mut out: Vec<Json> = Vec::new();
    for i in from..lines.len()
        invariant
            from <= lines@.len(),
            views == lines.deep_view().skip(from as int),
            items_view(out@) == parsed_lines(views.take(i - from)),
    {
        assert(views.take(i + 1 - from).drop_last() == views.take(i - from));
        assert(views.take(i + 1 - from).last() == lines@[i as int]@);
        let line = text::trim(lines[i].as_str());
        if !line.is_empty() {
            if let Ok(value) = parse_json(line) {
                let ghost before = out@;
                out.push(value);
                assert(out@.drop_last() == before);
            }
        }
    }
    assert(views.take(views.len() as int) == views);
    out
}

/// A line that is blank or not JSON makes no difference.
pub proof fn unreadable_line_is_skipped(
    before: Seq<Seq<char>>,
    line: Seq<char>,
    after: Seq<Seq<char>>,
)
    requires
        text::trimmed(line).len() == 0 || parsed_json(text::trimmed(line)) is None,
    ensures
        parsed_lines(before + seq![line] + after) == parsed_lines(before + after),
    decreases after.len(),
{
    let with = before + seq![line] + after;
    let without = before + after;
    if after.len() == 0 {
        assert(with.drop_last() == without);
        assert(with.last() == line);
    } else {
        unreadable_line_is_skipped(before, line, after.drop_last());
        assert(with.drop_last() == before + seq![line] + after.drop_last());
        assert(without.drop_last() == before + after.drop_last());
        assert(with.last() == after.last());
        assert(without.last() == after.last());
    }
}

/// An object has under a key what the last field with that key holds, and nothing under a key that
/// no field has.
pub proof fn last_field_counts(fields: Seq<(Seq<char>, JsonView)>, key: Seq<char>)
    ensures
        match field(JsonView::Object(object_of(fields)), key) {
            Some(value) => exists|i: int|
                0 <= i < fields.len() && (#[trigger] fields[i]).0 == key && fields[i].1 == value
                    && forall|j: int| i < j < fields.len() ==> (#[trigger] fields[j]).0 != key,
            None => forall|i: int| 0 <= i < fields.len() ==> (#[trigger] fields[i]).0 != key,
        },
    decreases fields.len(),
{
    if fields.len() > 0 {
        let rest = fields.drop_last();
        let last = fields.len() - 1;
        last_field_counts(rest, key);
        assert(fields[last] == fields.last());
        assert forall|j: int| 0 <= j < rest.len() implies #[trigger] rest[j] == fields[j] by {}
        if fields.last().0 == key {
            assert(fields[last].1 == fields.last().1);
        } else {
            match field(JsonView::Object(object_of(rest)), key) {
                Some(value) => {
                    let i = choose|i: int|
                        0 <= i < rest.len() && (#[trigger] rest[i]).0 == key && rest[i].1 == value
                            && forall|j: int| i < j < rest.len() ==> (#[trigger] rest[j]).0 != key;
                    assert(fields[i].0 == key && fields[i].1 == value);
                    assert forall|j: int| i < j < fields.len() implies (#[trigger] fields[j]).0
                        != key by {
                        if j < last {
                            assert(rest[j] == fields[j]);
                        }
                    }
                },
                None => {
                    assert forall|i: int| 0 <= i < fields.len() implies (#[trigger] fields[i]).0
                        != key by {
                        if i < last {
                            assert(rest[i] == fields[i]);
                        }
                    }
                },
            }
        }
    }
}

/// A value is a text, a truth value or an array of items only where it is one, and it is then just
/// that; what is no object has no fields.
pub proof fn values_are_what_they_hold(value: JsonView, key: Seq<char>)
    ensures
        forall|s: Seq<char>| #[trigger]
            text_of(JsonView::Text(s)) == Some(s),
        text_of(value) is Some <==> value is Text,
        forall|b: bool| #[trigger]
            bool_of(JsonView::Bool(b)) == Some(b),
        bool_of(value) is Some <==> value is Bool,
        forall|items: Seq<JsonView>| #[trigger]
            items_of(JsonView::Array(items)) == Some(items),
        items_of(value) is Some <==> value is Array,
        forall|n: serde_json::Number| #[trigger]
            integer_of(JsonView::Number(n)) == number_i64(n),
        integer_of(value) is Some ==> value is Number,
        value !is Object ==> field(value, key) is None,
        field(value, key) is None ==> text_field(value, key) is None && bool_field(
            value,
            key,
        ) is None,
        field(value, key) matches Some(inner) ==> text_field(value, key) == text_of(inner)
            && bool_field(value, key) == bool_of(inner),
{
}

/// A JSON value is what its variant says, with its items and fields in their order.
pub proof fn views_follow_the_variants(
    flag: bool,
    number: serde_json::Number,
    text: String,
    items: Vec<Json>,
    fields: Vec<(String, Json)>,
)
    ensures
        Json::Null@ == JsonView::Null,
        Json::Bool(flag)@ == JsonView::Bool(flag),
        Json::Number(number)@ == JsonView::Number(number),
        Json::Text(text)@ == JsonView::Text(text@),
        Json::Array(items)@ matches JsonView::Array(views) && views.len() == items@.len()
            && forall|i: int| 0 <= i < items@.len() ==> #[trigger] views[i] == items@[i]@,
        Json::Object(fields)@ == JsonView::Object(
            object_of(
                Seq::new(fields@.len(), |i: int| (fields@[i].0@, fields@[i].1@)),
            ),
        ),
{
    lemma_items_view(items@);
    lemma_fields_view(fields@);
    assert(fields_view(fields@) =~= Seq::new(
        fields@.len(),
        |i: int| (fields@[i].0@, fields@[i].1@),
    ));
}

/// A line that is JSON, but for white space around it, gives its value, between those of the lines
/// before it and those of the lines after it.
pub proof fn readable_line_is_read(
    before: Seq<Seq<char>>,
    line: Seq<char>,
    after: Seq<Seq<char>>,
    value: JsonView,
)
    requires
        text::trimmed(line).len() > 0,
        parsed_json(text::trimmed(line)) == Some(value),
    ensures
        parsed_lines(before + seq![line] + after) == parsed_lines(before) + seq![value]
            + parsed_lines(after),
    decreases after.len(),
{
    let all = before + seq![line] + after;
    if after.len() == 0 {
        assert(all.drop_last() == before);
        assert(all.last() == line);
        assert(parsed_lines(all) =~= parsed_lines(before) + seq![value] + parsed_lines(after));
    } else {
        readable_line_is_read(before, line, after.drop_last(), value);
        assert(all.drop_last() == before + seq![line] + after.drop_last());
        assert(all.last() == after.last());
        assert(parsed_lines(all) =~= parsed_lines(before) + seq![value] + parsed_lines(after));
    }
}

} // verus!
