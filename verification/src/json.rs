//! JSON values: the library's own tree, and how a text becomes one.

use crate::text::number::{decimal, decimal_spec};
use crate::text::same;
use crate::text::search::opt_text;
use vstd::prelude::*;
use vstd::string::*;

verus! {

/// A JSON value. A number keeps what the library reads of it: its value where it
/// is an unsigned integer, and its notation. The fields of an object stand in the
/// order in which the parser gives them.
#[derive(Debug)]
pub enum Json {
    Null,
    Bool(bool),
    Number(Option<u64>, String),
    Text(String),
    List(Vec<Json>),
    Object(Vec<(String, Json)>),
}

/// What a JSON value holds.
pub enum JsonView {
    Null,
    Bool(bool),
    Number(Option<u64>, Seq<char>),
    Text(Seq<char>),
    List(Seq<JsonView>),
    Object(Seq<(Seq<char>, JsonView)>),
}

impl View for Json {
    type V = JsonView;

    open spec fn view(&self) -> JsonView {
        json_view(*self)
    }
}

pub open spec fn json_view(j: Json) -> JsonView
    decreases j,
{
    match j {
        Json::Null => JsonView::Null,
        Json::Bool(b) => JsonView::Bool(b),
        Json::Number(n, s) => JsonView::Number(n, s@),
        Json::Text(s) => JsonView::Text(s@),
        Json::List(v) => JsonView::List(
            Seq::new(
                v@.len(),
                |i: int|
                    if 0 <= i < v@.len() {
                        json_view(v@[i])
                    } else {
                        JsonView::Null
                    },
            ),
        ),
        Json::Object(v) => JsonView::Object(
            Seq::new(
                v@.len(),
                |i: int|
                    if 0 <= i < v@.len() {
                        (v@[i].0@, json_view(v@[i].1))
                    } else {
                        (Seq::empty(), JsonView::Null)
                    },
            ),
        ),
    }
}

/// `serde_json::Value`, as the parser returns it.
#[verifier::external_type_specification]
#[verifier::external_body]
pub struct ExValue(serde_json::Value);

/// The tree that a `serde_json::Value` holds.
pub uninterp spec fn value_tree(v: serde_json::Value) -> JsonView;

/// What `serde_json::from_str` makes of a text: the tree that it denotes, or the
/// words of the error.
pub uninterp spec fn parsed(text: Seq<char>) -> Result<JsonView, Seq<char>>;

/// One level of a `serde_json::Value`.
enum Layer {
    Null,
    Bool(bool),
    Number(Option<u64>, String),
    Text(String),
    List(Vec<serde_json::Value>),
    Object(Vec<(String, serde_json::Value)>),
}

spec fn layer_tree(l: Layer) -> JsonView {
    match l {
        Layer::Null => JsonView::Null,
        Layer::Bool(b) => JsonView::Bool(b),
        Layer::Number(n, s) => JsonView::Number(n, s@),
        Layer::Text(s) => JsonView::Text(s@),
        Layer::List(v) => JsonView::List(v@.map_values(|x: serde_json::Value| value_tree(x))),
        Layer::Object(v) => JsonView::Object(
            v@.map_values(|f: (String, serde_json::Value)| (f.0@, value_tree(f.1))),
        ),
    }
}

/// `serde_json::from_str` into a `serde_json::Value`: the value holds the tree
/// that the text denotes, and where the text is refused the error says why.
/// Which texts it accepts is the crate's own grammar and is not stated here.
#[verifier::external_body]
fn read_value(text: &str) -> (r: Result<serde_json::Value, String>)
    ensures
        match r {
            Ok(v) => parsed(text@) == Ok::<JsonView, Seq<char>>(value_tree(v)),
            Err(e) => parsed(text@) == Err::<JsonView, Seq<char>>(e@),
        },
{
    serde_json::from_str::<serde_json::Value>(text).map_err(|e| e.to_string())
}

/// The variants of `serde_json::Value`, with `Number::as_u64` and the number's
/// notation for a number and the fields of an object in the map's order: one
/// level of the tree that the value holds.
#[verifier::external_body]
fn open_value(v: serde_json::Value) -> (r: Layer)
    ensures
        layer_tree(r) == value_tree(v),
{
    match v {
        serde_json::Value::Null => Layer::Null,
        serde_json::Value::Bool(b) => Layer::Bool(b),
        serde_json::Value::Number(n) => Layer::Number(n.as_u64(), n.to_string()),
        serde_json::Value::String(s) => Layer::Text(s),
        serde_json::Value::Array(a) => Layer::List(a),
        serde_json::Value::Object(m) => Layer::Object(m.into_iter().collect()),
    }
}

fn build(v: serde_json::Value) -> (r: Json)
    ensures
        r@ == value_tree(v),
    decreases value_tree(v),
{
    let ghost tree = value_tree(v);
    match open_value(v) {
        Layer::Null => Json::Null,
        Layer::Bool(b) => Json::Bool(b),
        Layer::Number(n, s) => Json::Number(n, s),
        Layer::Text(s) => Json::Text(s),
        Layer::List(items) => {
            let ghost all = items@;
            let mut out: Vec<Json> = Vec::new();
            for x in it: items
                invariant
                    it.seq() == all,
                    tree == value_tree(v),
                    tree == JsonView::List(all.map_values(|x: serde_json::Value| value_tree(x))),
                    out@.len() == it.index(),
                    forall|k: int| 0 <= k < out@.len() ==> json_view(out@[k]) == value_tree(all[k]),
            {
                proof {
                    let i = it.index() as int;
                    assert(tree->List_0[i] == value_tree(x));
                    assert(decreases_to!(tree => tree->List_0));
                    assert(decreases_to!(tree->List_0 => tree->List_0[i]));
                }
                out.push(build(x));
            }
            let r = Json::List(out);
            assert(r@->List_0 =~= tree->List_0);
            r
        },
        Layer::Object(fields) => {
            let ghost all = fields@;
            let mut out: Vec<(String, Json)> = Vec::new();
            for f in it: fields
                invariant
                    it.seq() == all,
                    tree == value_tree(v),
                    tree == JsonView::Object(
                        all.map_values(|f: (String, serde_json::Value)| (f.0@, value_tree(f.1))),
                    ),
                    out@.len() == it.index(),
                    forall|k: int|
                        0 <= k < out@.len() ==> (#[trigger] out@[k]).0@ == all[k].0@,
                    forall|k: int|
                        0 <= k < out@.len() ==> json_view((#[trigger] out@[k]).1) == value_tree(
                            all[k].1,
                        ),
            {
                proof {
                    let i = it.index() as int;
                    assert(tree->Object_0[i] == (f.0@, value_tree(f.1)));
                    assert(decreases_to!(tree => tree->Object_0));
                    assert(decreases_to!(tree->Object_0 => tree->Object_0[i]));
                    assert(decreases_to!(tree->Object_0[i] => tree->Object_0[i].1));
                }
                let (name, value) = f;
                let entry = (name, build(value));
                out.push(entry);
            }
            let r = Json::Object(out);
            assert(r@->Object_0 =~= tree->Object_0);
            r
        },
    }
}

/// The value of the first field with the name `key`.
pub open spec fn find_field(fields: Seq<(Seq<char>, JsonView)>, key: Seq<char>) -> JsonView
    decreases fields.len(),
{
    if fields.len() == 0 {
        JsonView::Null
    } else if fields[0].0 == key {
        fields[0].1
    } else {
        find_field(fields.drop_first(), key)
    }
}

/// The field `key` of an object; null where there is none.
pub open spec fn field_of(j: JsonView, key: Seq<char>) -> JsonView {
    match j {
        JsonView::Object(fields) => find_field(fields, key),
        _ => JsonView::Null,
    }
}

/// The item `i` of a list; null where there is none.
pub open spec fn item_of(j: JsonView, i: int) -> JsonView {
    match j {
        JsonView::List(items) if 0 <= i < items.len() => items[i],
        _ => JsonView::Null,
    }
}

/// The text that a value is.
pub open spec fn text_of(j: JsonView) -> Option<Seq<char>> {
    match j {
        JsonView::Text(s) => Some(s),
        _ => None,
    }
}

/// The unsigned integer that a value is.
pub open spec fn unsigned_of(j: JsonView) -> Option<u64> {
    match j {
        JsonView::Number(n, _) => n,
        _ => None,
    }
}

/// The notation of the number that a value is.
pub open spec fn notation_of(j: JsonView) -> Option<Seq<char>> {
    match j {
        JsonView::Number(_, s) => Some(s),
        _ => None,
    }
}

/// The items of the list that a value is; none where it is no list.
pub open spec fn items_of(j: JsonView) -> Seq<JsonView> {
    match j {
        JsonView::List(items) => items,
        _ => Seq::empty(),
    }
}

impl Json {
    /// Reads a text.
    pub fn parse(text: &str) -> (r: Result<Json, String>)
        ensures
            match r {
                Ok(j) => parsed(text@) == Ok::<JsonView, Seq<char>>(j@),
                Err(e) => parsed(text@) == Err::<JsonView, Seq<char>>(e@),
            },
    {
        match read_value(text) {
            Ok(v) => Ok(build(v)),
            Err(e) => Err(e),
        }
    }

    /// The field `key`, where there is one.
    pub fn field(&self, key: &str) -> (r: Option<&Json>)
        ensures
            match r {
                Some(j) => field_of(self@, key@) == j@,
                None => field_of(self@, key@) == JsonView::Null,
            },
    {
        match self {
            Json::Object(fields) => {
                let ghost all = self@->Object_0;
                let mut i: usize = 0;
                assert(all.skip(0) =~= all);
                while i < fields.len()
                    invariant
                        i <= fields@.len(),
                        *self == Json::Object(*fields),
                        all == self@->Object_0,
                        find_field(all, key@) == find_field(all.skip(i as int), key@),
                    decreases fields@.len() - i,
                {
                    let ghost rest = all.skip(i as int);
                    assert(rest[0] == (fields@[i as int].0@, json_view(fields@[i as int].1)));
                    assert(rest.drop_first() =~= all.skip(i as int + 1));
                    if same(fields[i].0.as_str(), key) {
                        return Some(&fields[i].1);
                    }
                    i += 1;
                }
                assert(all.skip(i as int).len() == 0);
                None
            },
            _ => None,
        }
    }

    /// The item `i`, where there is one.
    pub fn item(&self, i: usize) -> (r: Option<&Json>)
        ensures
            match r {
                Some(j) => item_of(self@, i as int) == j@,
                None => item_of(self@, i as int) == JsonView::Null,
            },
    {
        match self {
            Json::List(items) => {
                if i < items.len() {
                    assert(self@->List_0[i as int] == json_view(items@[i as int]));
                    Some(&items[i])
                } else {
                    None
                }
            },
            _ => None,
        }
    }

    /// The text that the value is.
    pub fn as_str(&self) -> (r: Option<String>)
        ensures
            opt_text(r) == text_of(self@),
    {
        match self {
            Json::Text(s) => Some(s.clone()),
            _ => None,
        }
    }

    /// The unsigned integer that the value is.
    pub fn as_u64(&self) -> (r: Option<u64>)
        ensures
            r == unsigned_of(self@),
    {
        match self {
            Json::Number(n, _) => *n,
            _ => None,
        }
    }

    /// The notation of the number that the value is.
    pub fn as_notation(&self) -> (r: Option<String>)
        ensures
            opt_text(r) == notation_of(self@),
    {
        match self {
            Json::Number(_, s) => Some(s.clone()),
            _ => None,
        }
    }

    /// The text of the field `key`.
    pub fn field_str(&self, key: &str) -> (r: Option<String>)
        ensures
            opt_text(r) == text_of(field_of(self@, key@)),
    {
        match self.field(key) {
            Some(j) => j.as_str(),
            None => None,
        }
    }

    /// The unsigned integer of the field `key`.
    pub fn field_u64(&self, key: &str) -> (r: Option<u64>)
        ensures
            r == unsigned_of(field_of(self@, key@)),
    {
        match self.field(key) {
            Some(j) => j.as_u64(),
            None => None,
        }
    }

    /// The items of a list, as references.
    pub fn items(&self) -> (r: Vec<&Json>)
        ensures
            r@.len() == items_of(self@).len(),
            forall|k: int| 0 <= k < r@.len() ==> (#[trigger] r@[k])@ == items_of(self@)[k],
    {
        let mut out: Vec<&Json> = Vec::new();
        match self {
            Json::List(items) => {
                let mut i: usize = 0;
                while i < items.len()
                    invariant
                        i <= items@.len(),
                        *self == Json::List(*items),
                        out@.len() == i,
                        forall|k: int|
                            0 <= k < i ==> (#[trigger] out@[k])@ == items_of(self@)[k],
                    decreases items@.len() - i,
                {
                    out.push(&items[i]);
                    assert(items_of(self@)[i as int] == json_view(items@[i as int]));
                    i += 1;
                }
            },
            _ => {},
        }
        out
    }
}

/// What a list of fields holds.
pub open spec fn fields_view(v: Seq<(String, Json)>) -> Seq<(Seq<char>, JsonView)> {
    v.map_values(|f: (String, Json)| (f.0@, f.1@))
}

/// What a list of values holds.
pub open spec fn items_view(v: Seq<Json>) -> Seq<JsonView> {
    v.map_values(|j: Json| j@)
}

/// Adds a field to the fields of an object.
pub fn push_field(fields: &mut Vec<(String, Json)>, name: &str, value: Json)
    ensures
        fields_view(final(fields)@) == fields_view(old(fields)@).push((name@, value@)),
{
    let ghost before = fields@;
    let entry = (name.to_string(), value);
    fields.push(entry);
    assert(fields_view(fields@) =~= fields_view(before).push((name@, value@)));
}

/// The object with the given fields.
pub fn object(fields: Vec<(String, Json)>) -> (r: Json)
    ensures
        r@ == JsonView::Object(fields_view(fields@)),
{
    let r = Json::Object(fields);
    assert(r@->Object_0 =~= fields_view(fields@));
    r
}

/// The list with the given items.
pub fn list(items: Vec<Json>) -> (r: Json)
    ensures
        r@ == JsonView::List(items_view(items@)),
{
    let r = Json::List(items);
    assert(r@->List_0 =~= items_view(items@));
    r
}

/// A text as a value.
pub fn text(s: &str) -> (r: Json)
    ensures
        r@ == JsonView::Text(s@),
{
    Json::Text(s.to_string())
}

/// An unsigned integer as a value.
pub fn unsigned(n: u64) -> (r: Json)
    ensures
        r@ == JsonView::Number(Some(n), decimal_spec(n as nat)),
{
    Json::Number(Some(n), decimal(n as u128))
}

/// A field is found by its name: the first one of that name gives the value.
pub proof fn fields_are_found(fields: Seq<(Seq<char>, JsonView)>, key: Seq<char>, k: int)
    requires
        0 <= k < fields.len(),
        fields[k].0 == key,
        forall|j: int| 0 <= j < k ==> (#[trigger] fields[j]).0 != key,
    ensures
        field_of(JsonView::Object(fields), key) == fields[k].1,
    decreases k,
{
    if k > 0 {
        assert(fields[0].0 != key);
        let rest = fields.drop_first();
        assert forall|j: int| 0 <= j < k - 1 implies (#[trigger] rest[j]).0 != key by {
            assert(fields[j + 1].0 != key);
        }
        fields_are_found(rest, key, k - 1);
    }
}

/// A field that no one has given is null, and so is every field of a value that is
/// no object.
pub proof fn absent_fields_are_null(j: JsonView, key: Seq<char>)
    requires
        j matches JsonView::Object(fields) ==> forall|k: int|
            0 <= k < fields.len() ==> (#[trigger] fields[k]).0 != key,
    ensures
        field_of(j, key) == JsonView::Null,
    decreases j->Object_0.len(),
{
    if let JsonView::Object(fields) = j {
        if fields.len() > 0 {
            assert(fields[0].0 != key);
            let rest = fields.drop_first();
            assert forall|k: int| 0 <= k < rest.len() implies (#[trigger] rest[k]).0 != key by {
                assert(fields[k + 1].0 != key);
            }
            absent_fields_are_null(JsonView::Object(rest), key);
        }
    }
}

/// A value is read as what it is and as nothing else: a text as its characters, a
/// number as its value and its notation, a list as its items.
pub proof fn values_are_read_as_they_are(j: JsonView, i: int)
    ensures
        forall|s: Seq<char>| text_of(j) == Some(s) <==> j == JsonView::Text(s),
        forall|n: u64|
            unsigned_of(j) == Some(n) <==> (j matches JsonView::Number(m, _) && m == Some(n)),
        forall|s: Seq<char>|
            notation_of(j) == Some(s) <==> (j matches JsonView::Number(_, t) && t == s),
        j matches JsonView::List(items) ==> items_of(j) == items && (0 <= i < items.len()
            ==> item_of(j, i) == items[i]),
        !(j is List) ==> items_of(j).len() == 0 && item_of(j, i) == JsonView::Null,
{
}

/// A tree holds what the value holds, piece by piece: nothing is left out, added or
/// moved.
pub proof fn trees_hold_their_values(v: Vec<Json>, f: Vec<(String, Json)>, s: String, n: Option<u64>, b: bool, i: int)
    ensures
        Json::Null@ == JsonView::Null,
        Json::Bool(b)@ == JsonView::Bool(b),
        Json::Text(s)@ == JsonView::Text(s@),
        Json::Number(n, s)@ == JsonView::Number(n, s@),
        Json::List(v)@ is List && Json::List(v)@->List_0.len() == v@.len(),
        0 <= i < v@.len() ==> Json::List(v)@->List_0[i] == v@[i]@,
        Json::Object(f)@ is Object && Json::Object(f)@->Object_0.len() == f@.len(),
        0 <= i < f@.len() ==> Json::Object(f)@->Object_0[i] == (f@[i].0@, f@[i].1@),
{
}

/// A value is built of what it is given: an object of all its fields in order, a list
/// of all its items, a text of its characters, and a number of its decimal notation.
pub proof fn values_are_built_whole(
    fields: Vec<(String, Json)>,
    items: Vec<Json>,
    s: &str,
    n: u64,
    o: Json,
    l: Json,
    t: Json,
    u: Json,
    i: int,
    name: &str,
    value: Json,
)
    requires
        call_ensures(object, (fields,), o),
        call_ensures(list, (items,), l),
        call_ensures(text, (s,), t),
        call_ensures(unsigned, (n,), u),
    ensures
        o@ is Object && o@->Object_0.len() == fields@.len(),
        0 <= i < fields@.len() ==> o@->Object_0[i] == (fields@[i].0@, fields@[i].1@),
        l@ is List && l@->List_0.len() == items@.len(),
        0 <= i < items@.len() ==> l@->List_0[i] == items@[i]@,
        t@ == JsonView::Text(s@),
        u@ == JsonView::Number(Some(n), decimal_spec(n as nat)),
        forall|v: &mut Vec<(String, Json)>|
            #[trigger] call_ensures(push_field, (v, name, value), ()) ==> final(v)@.len() == v@.len()
                + 1 && final(v)@.last().0@ == name@ && final(v)@.last().1@ == value@ && (forall|
                k: int,
            |
                0 <= k < v@.len() ==> (#[trigger] final(v)@[k]).0@ == v@[k].0@ && final(v)@[k].1@
                    == v@[k].1@),
{
    assert forall|v: &mut Vec<(String, Json)>| #[trigger]
        call_ensures(push_field, (v, name, value), ()) implies final(v)@.len() == v@.len() + 1
        && final(v)@.last().0@ == name@ && final(v)@.last().1@ == value@ && (forall|k: int|
        0 <= k < v@.len() ==> (#[trigger] final(v)@[k]).0@ == v@[k].0@ && final(v)@[k].1@
            == v@[k].1@) by {
        let a = fields_view(v@);
        let z = fields_view(final(v)@);
        assert(z.len() == final(v)@.len());
        assert(a.len() == v@.len());
        assert(z[v@.len() as int] == (final(v)@[v@.len() as int].0@, final(v)@[v@.len() as int].1@));
        assert forall|k: int| 0 <= k < v@.len() implies (#[trigger] final(v)@[k]).0@ == v@[k].0@
            && final(v)@[k].1@ == v@[k].1@ by {
            assert(z[k] == (final(v)@[k].0@, final(v)@[k].1@));
            assert(a[k] == (v@[k].0@, v@[k].1@));
        }
    }
}

}  // verus!
