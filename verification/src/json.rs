//! JSON documents, as far as Herdr's replies are read.
use crate::text::same_text;
use vstd::prelude::*;

verus! {

/// A JSON value. Of a number only its reading as a natural number is kept, where
/// it has one that fits 64 bits.
#[derive(Debug, PartialEq, Eq)]
pub enum Json {
    Null,
    Bool(bool),
    Number(Option<u64>),
    Text(String),
    Array(Vec<Json>),
    Object(Vec<(String, Json)>),
}

/// `Json`, with its strings and rows as sequences.
pub enum JsonView {
    Null,
    Bool(bool),
    Number(Option<u64>),
    Text(Seq<char>),
    Array(Seq<JsonView>),
    Object(Seq<(Seq<char>, JsonView)>),
}

/// The view of a value.
pub open spec fn view_of(json: Json) -> JsonView
    decreases json,
{
    match json {
        Json::Null => JsonView::Null,
        Json::Bool(b) => JsonView::Bool(b),
        Json::Number(n) => JsonView::Number(n),
        Json::Text(s) => JsonView::Text(s@),
        Json::Array(items) => JsonView::Array(views_of(items@)),
        Json::Object(members) => JsonView::Object(member_views(members@)),
    }
}

/// The views of a row of values.
pub open spec fn views_of(items: Seq<Json>) -> Seq<JsonView>
    decreases items,
{
    if items.len() == 0 {
        seq![]
    } else {
        views_of(items.drop_last()).push(view_of(items.last()))
    }
}

/// The views of the members of an object.
pub open spec fn member_views(members: Seq<(String, Json)>) -> Seq<(Seq<char>, JsonView)>
    decreases members,
{
    if members.len() == 0 {
        seq![]
    } else {
        member_views(members.drop_last()).push((members.last().0@, view_of(members.last().1)))
    }
}

impl View for Json {
    type V = JsonView;

    open spec fn view(&self) -> JsonView {
        view_of(*self)
    }
}

pub proof fn lemma_views(items: Seq<Json>)
    ensures
        views_of(items).len() == items.len(),
        forall|i: int| 0 <= i < items.len() ==> #[trigger] views_of(items)[i] == items[i]@,
    decreases items.len(),
{
    if items.len() > 0 {
        lemma_views(items.drop_last());
    }
}

proof fn lemma_member_views(members: Seq<(String, Json)>)
    ensures
        member_views(members).len() == members.len(),
        forall|i: int|
            0 <= i < members.len() ==> #[trigger] member_views(members)[i] == (
                members[i].0@,
                members[i].1@,
            ),
    decreases members.len(),
{
    if members.len() > 0 {
        lemma_member_views(members.drop_last());
    }
}

/// A value as the JSON reader holds it.
#[verifier::external_type_specification]
#[verifier::external_body]
pub struct ExJsonValue(serde_json::Value);

/// The error of the JSON reader, which is carried as it comes.
#[verifier::external_type_specification]
#[verifier::external_body]
pub struct ExJsonError(serde_json::Error);

/// What a value of the JSON reader holds.
pub uninterp spec fn json_contents(value: serde_json::Value) -> JsonView;

/// What `serde_json::from_slice` reads from bytes as a value, or nothing where they
/// are no JSON document.
pub uninterp spec fn json_document(bytes: Seq<u8>) -> Option<JsonView>;

/// `serde_json::from_slice`, for a value: the document, which is named
/// `json_document` here, or the reader's error.
#[verifier::external_body]
fn read_json(bytes: &[u8]) -> (r: Result<serde_json::Value, serde_json::Error>)
    ensures
        r is Ok == json_document(bytes@) is Some,
        r matches Ok(value) ==> json_document(bytes@) == Some(json_contents(value)),
{
    serde_json::from_slice(bytes)
}

/// The outermost layer of a value: its variant, with what lies below still as the
/// JSON reader holds it.
enum Layer<'a> {
    Null,
    Bool(bool),
    Number(Option<u64>),
    Text(&'a String),
    Array(&'a Vec<serde_json::Value>),
    Object(Vec<(&'a String, &'a serde_json::Value)>),
}

/// What a layer and all below it hold.
spec fn layer_contents(layer: Layer) -> JsonView {
    match layer {
        Layer::Null => JsonView::Null,
        Layer::Bool(b) => JsonView::Bool(b),
        Layer::Number(n) => JsonView::Number(n),
        Layer::Text(s) => JsonView::Text(s@),
        Layer::Array(items) => JsonView::Array(
            items@.map_values(|v: serde_json::Value| json_contents(v)),
        ),
        Layer::Object(members) => JsonView::Object(
            members@.map_values(
                |m: (&String, &serde_json::Value)| (m.0@, json_contents(*m.1)),
            ),
        ),
    }
}

/// The variants of `serde_json::Value`: what a value holds is what its variant
/// holds. Of a number it is what `serde_json::Number::as_u64` reads, of an object
/// its members in the order in which the map is walked.
#[verifier::external_body]
fn outer_layer(value: &serde_json::Value) -> (layer: Layer<'_>)
    ensures
        layer_contents(layer) == json_contents(*value),
{
    match value {
        serde_json::Value::Null => Layer::Null,
        serde_json::Value::Bool(b) => Layer::Bool(*b),
        serde_json::Value::Number(n) => Layer::Number(n.as_u64()),
        serde_json::Value::String(s) => Layer::Text(s),
        serde_json::Value::Array(items) => Layer::Array(items),
        serde_json::Value::Object(map) => Layer::Object(map.iter().collect()),
    }
}

/// A value of the JSON reader as plain values.
fn plain_json(value: &serde_json::Value) -> (json: Json)
    ensures
        json@ == json_contents(*value),
    decreases json_contents(*value),
{
    match outer_layer(value) {
        Layer::Null => Json::Null,
        Layer::Bool(b) => Json::Bool(b),
        Layer::Number(n) => Json::Number(n),
        Layer::Text(s) => Json::Text(s.clone()),
        Layer::Array(items) => {
            let mut plain: Vec<Json> = Vec::new();
            for i in 0..items.len()
                invariant
                    json_contents(*value) == layer_contents(Layer::Array(items)),
                    plain@.len() == i,
                    forall|j: int| 0 <= j < i ==> (#[trigger] plain@[j])@ == json_contents(items@[j]),
            {
                assert(json_contents(*value)->Array_0[i as int] == json_contents(items@[i as int]));
                plain.push(plain_json(&items[i]));
            }
            let json = Json::Array(plain);
            proof {
                lemma_views(plain@);
            }
            assert(json@->Array_0 =~= json_contents(*value)->Array_0);
            json
        },
        Layer::Object(members) => {
            let mut plain: Vec<(String, Json)> = Vec::new();
            for i in 0..members.len()
                invariant
                    json_contents(*value) == layer_contents(Layer::Object(members)),
                    plain@.len() == i,
                    forall|j: int|
                        0 <= j < i ==> (#[trigger] plain@[j]).0@ == members@[j].0@ && plain@[j].1@
                            == json_contents(*members@[j].1),
            {
                assert(json_contents(*value)->Object_0[i as int] == (
                    members@[i as int].0@,
                    json_contents(*members@[i as int].1),
                ));
                assert(decreases_to!(json_contents(*value) => json_contents(*value)->Object_0));
                assert(decreases_to!(json_contents(*value)->Object_0 => json_contents(*value)->Object_0[i as int]));
                assert(decreases_to!(json_contents(*value)->Object_0[i as int] => json_contents(*value)->Object_0[i as int].1));
                plain.push((members[i].0.clone(), plain_json(members[i].1)));
            }
            let json = Json::Object(plain);
            proof {
                lemma_member_views(plain@);
            }
            assert(json@->Object_0 =~= json_contents(*value)->Object_0);
            json
        },
    }
}

/// Reads a JSON document.
pub fn parse_json(bytes: &[u8]) -> (r: Result<Json, serde_json::Error>)
    ensures
        match json_document(bytes@) {
            Some(document) => r matches Ok(json) && json@ == document,
            None => r is Err,
        },
{
    match read_json(bytes) {
        Ok(value) => Ok(plain_json(&value)),
        Err(e) => Err(e),
    }
}

// ------------------------------------------------------------------- navigation

/// The value of a name among the members of an object.
pub open spec fn member_of(members: Seq<(Seq<char>, JsonView)>, name: Seq<char>) -> Option<JsonView>
    decreases members.len(),
{
    if members.len() == 0 {
        None
    } else if members[0].0 == name {
        Some(members[0].1)
    } else {
        member_of(members.skip(1), name)
    }
}

/// The member of a value by its name; a value that is no object has none.
pub open spec fn member(value: JsonView, name: Seq<char>) -> Option<JsonView> {
    match value {
        JsonView::Object(members) => member_of(members, name),
        _ => None,
    }
}

/// The text that a member holds, where it is one.
pub open spec fn text_member(value: JsonView, name: Seq<char>) -> Option<Seq<char>> {
    match member(value, name) {
        Some(JsonView::Text(s)) => Some(s),
        _ => None,
    }
}

/// The natural number that a member holds, where it is one.
pub open spec fn number_member(value: JsonView, name: Seq<char>) -> Option<u64> {
    match member(value, name) {
        Some(JsonView::Number(n)) => n,
        _ => None,
    }
}

/// Whether a member holds `true`.
pub open spec fn flag_member(value: JsonView, name: Seq<char>) -> bool {
    member(value, name) == Some(JsonView::Bool(true))
}

/// The row that a member holds, where it is one.
pub open spec fn array_member(value: JsonView, name: Seq<char>) -> Option<Seq<JsonView>> {
    match member(value, name) {
        Some(JsonView::Array(items)) => Some(items),
        _ => None,
    }
}

impl Json {
    /// The member of a value by its name; a value that is no object has none.
    pub fn get(&self, name: &str) -> (r: Option<&Json>)
        ensures
            match member(self@, name@) {
                Some(value) => r matches Some(json) && json@ == value,
                None => r is None,
            },
    {
        match self {
            Json::Object(members) => {
                let ghost all = member_views(members@);
                proof {
                    lemma_member_views(members@);
                }
                assert(all.skip(0) =~= all);
                for i in 0..members.len()
                    invariant
                        self@ == JsonView::Object(all),
                        all.len() == members@.len(),
                        forall|j: int|
                            0 <= j < all.len() ==> #[trigger] all[j] == (
                                members@[j].0@,
                                members@[j].1@,
                            ),
                        member_of(all, name@) == member_of(all.skip(i as int), name@),
                {
                    assert(all.skip(i as int)[0] == (members@[i as int].0@, members@[i as int].1@));
                    assert(all.skip(i as int).skip(1) =~= all.skip(i + 1));
                    if same_text(members[i].0.as_str(), name) {
                        return Some(&members[i].1);
                    }
                }
                None
            },
            _ => None,
        }
    }

    /// The text that a member holds, where it is one.
    pub fn get_text(&self, name: &str) -> (r: Option<String>)
        ensures
            match text_member(self@, name@) {
                Some(text) => r matches Some(s) && s@ == text,
                None => r is None,
            },
    {
        match self.get(name) {
            Some(Json::Text(s)) => Some(s.clone()),
            _ => None,
        }
    }

    /// The natural number that a member holds, where it is one.
    pub fn get_number(&self, name: &str) -> (r: Option<u64>)
        ensures
            r == number_member(self@, name@),
    {
        match self.get(name) {
            Some(Json::Number(n)) => *n,
            _ => None,
        }
    }

    /// Whether a member holds `true`.
    pub fn get_flag(&self, name: &str) -> (b: bool)
        ensures
            b == flag_member(self@, name@),
    {
        match self.get(name) {
            Some(Json::Bool(b)) => *b,
            _ => false,
        }
    }

    /// The row that a member holds, where it is one.
    pub fn get_array(&self, name: &str) -> (r: Option<&Vec<Json>>)
        ensures
            match array_member(self@, name@) {
                Some(items) => r matches Some(row) && views_of(row@) == items,
                None => r is None,
            },
    {
        match self.get(name) {
            Some(Json::Array(items)) => {
                proof {
                    lemma_views(items@);
                }
                Some(items)
            },
            _ => None,
        }
    }
}

// ---------------------------------------------------------------------------- laws

/// A member is found by its name, wherever it stands: the first of that name is the
/// one. A name that no member has gives nothing, and so does a value that is no
/// object.
pub proof fn law_members_are_found_by_name(
    members: Seq<(Seq<char>, JsonView)>,
    name: Seq<char>,
    i: int,
)
    ensures
        0 <= i < members.len() && members[i].0 == name && (forall|j: int|
            0 <= j < i ==> (#[trigger] members[j]).0 != name) ==> member(
            JsonView::Object(members),
            name,
        ) == Some(members[i].1),
        (forall|j: int| 0 <= j < members.len() ==> (#[trigger] members[j]).0 != name) ==> member(
            JsonView::Object(members),
            name,
        ) is None,
        member(JsonView::Null, name) is None,
    decreases members.len(),
{
    if members.len() > 0 {
        let rest = members.skip(1);
        law_members_are_found_by_name(rest, name, i - 1);
        if 0 <= i < members.len() && members[i].0 == name && (forall|j: int|
            0 <= j < i ==> (#[trigger] members[j]).0 != name) {
            if i > 0 {
                assert(members[0].0 != name);
                assert(rest[i - 1] == members[i]);
                assert forall|j: int| 0 <= j < i - 1 implies (#[trigger] rest[j]).0 != name by {
                    assert(rest[j] == members[j + 1]);
                }
            }
        }
        if forall|j: int| 0 <= j < members.len() ==> (#[trigger] members[j]).0 != name {
            assert(members[0].0 != name);
            assert forall|j: int| 0 <= j < rest.len() implies (#[trigger] rest[j]).0 != name by {
                assert(rest[j] == members[j + 1]);
            }
        }
    }
}

/// A text, a number, a flag and a row are read only from members that are such; a flag
/// that is missing is not set.
pub proof fn law_members_are_read_by_their_types(value: JsonView, name: Seq<char>)
    ensures
        text_member(value, name) matches Some(s) ==> member(value, name) == Some(JsonView::Text(s)),
        member(value, name) matches Some(JsonView::Text(s)) ==> text_member(value, name) == Some(s),
        number_member(value, name) matches Some(n) ==> member(value, name) == Some(
            JsonView::Number(Some(n)),
        ),
        member(value, name) matches Some(JsonView::Number(n)) ==> number_member(value, name) == n,
        flag_member(value, name) <==> member(value, name) == Some(JsonView::Bool(true)),
        array_member(value, name) matches Some(items) ==> member(value, name) == Some(
            JsonView::Array(items),
        ),
        member(value, name) matches Some(JsonView::Array(items)) ==> array_member(value, name)
            == Some(items),
{
}

} // verus!
