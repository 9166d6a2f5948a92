//! JSON documents: the values that the commands read out of API answers and
//! stored library documents.

use vstd::prelude::*;
use crate::text::parse_up_to;
use crate::text::same;
use crate::text::unsigned_value;

verus! {

/// A JSON value, with its texts as characters.
pub enum JsonView {
    /// `null`.
    Null,
    /// `true` or `false`.
    Bool(bool),
    /// A number, as `serde_json::Number` displays it: `1.50` in a document is `1.5`.
    Number(Seq<char>),
    /// A string.
    Text(Seq<char>),
    /// A list of values.
    Array(Seq<JsonView>),
    /// Members by name, no name twice.
    Object(Seq<(Seq<char>, JsonView)>),
}

/// A JSON value.
#[derive(Debug)]
pub enum Json {
    /// `null`.
    Null,
    /// `true` or `false`.
    Bool(bool),
    /// A number, as `serde_json::Number` displays it: `1.50` in a document is `1.5`.
    Number(String),
    /// A string.
    Text(String),
    /// A list of values.
    Array(Vec<Json>),
    /// Members by name.
    Object(Vec<(String, Json)>),
}

/// What a JSON value stands for.
pub open spec fn json_view(json: Json) -> JsonView
    decreases json,
{
    match json {
        Json::Null => JsonView::Null,
        Json::Bool(flag) => JsonView::Bool(flag),
        Json::Number(digits) => JsonView::Number(digits@),
        Json::Text(chars) => JsonView::Text(chars@),
        Json::Array(list) => JsonView::Array(
            Seq::new(
                list@.len(),
                |i: int|
                    if 0 <= i < list@.len() {
                        json_view(list@[i])
                    } else {
                        JsonView::Null
                    },
            ),
        ),
        Json::Object(list) => JsonView::Object(
            Seq::new(
                list@.len(),
                |i: int|
                    if 0 <= i < list@.len() {
                        (list@[i].0@, json_view(list@[i].1))
                    } else {
                        (Seq::empty(), JsonView::Null)
                    },
            ),
        ),
    }
}

impl View for Json {
    type V = JsonView;

    open spec fn view(&self) -> JsonView {
        json_view(*self)
    }
}

/// A JSON value as `serde_json` holds it.
#[verifier::external_type_specification]
#[verifier::external_body]
pub struct ExValue(serde_json::Value);

/// What a `serde_json::Value` holds.
pub uninterp spec fn held(value: serde_json::Value) -> JsonView;

/// What `serde_json::from_slice` makes of the bytes of a document; where they
/// are no JSON document, the words of its error.
pub uninterp spec fn reading(bytes: Seq<u8>) -> Result<JsonView, Seq<char>>;

/// The document that bytes are; nothing where they are none.
pub open spec fn document(bytes: Seq<u8>) -> Option<JsonView> {
    match reading(bytes) {
        Ok(json) => Some(json),
        Err(_) => None,
    }
}

/// `serde_json::from_slice`: the value, or the words of the error (its
/// `Display`), depends on the bytes alone and is named `reading`.
#[verifier::external_body]
pub(crate) fn value_from_bytes(bytes: &[u8]) -> (value: Result<serde_json::Value, String>)
    ensures
        match value {
            Ok(v) => reading(bytes@) == Ok::<JsonView, Seq<char>>(held(v)),
            Err(words) => reading(bytes@) == Err::<JsonView, Seq<char>>(words@),
        },
{
    match serde_json::from_slice(bytes) {
        Ok(value) => Ok(value),
        Err(error) => Err(error.to_string()),
    }
}

/// Takes a `serde_json::Value` apart, variant by variant; a number becomes its
/// JSON text (`Number`'s `Display`), and members keep their order.
#[verifier::external_body]
pub(crate) fn json_of(value: serde_json::Value) -> (json: Json)
    ensures
        json@ == held(value),
{
    match value {
        serde_json::Value::Null => Json::Null,
        serde_json::Value::Bool(flag) => Json::Bool(flag),
        serde_json::Value::Number(number) => Json::Number(number.to_string()),
        serde_json::Value::String(text) => Json::Text(text),
        serde_json::Value::Array(items) => Json::Array(items.into_iter().map(json_of).collect()),
        serde_json::Value::Object(members) => Json::Object(
            members.into_iter().map(|(name, value)| (name, json_of(value))).collect(),
        ),
    }
}

/// What `serde_json::to_string_pretty` writes for a value.
pub uninterp spec fn pretty_text(json: JsonView) -> Seq<char>;

/// `serde_json::to_string_pretty`: the text depends on what the value holds
/// alone and is named `pretty_text`.
#[verifier::external_body]
pub(crate) fn pretty(value: &serde_json::Value) -> (text: String)
    ensures
        text@ == pretty_text(held(*value)),
{
    serde_json::to_string_pretty(value).unwrap_or_default()
}

/// The text of a document as it is written to a file: laid out over lines.
pub fn document_text(doc: &serde_json::Value) -> (text: String)
    ensures
        text@ == pretty_text(held(*doc)),
{
    pretty(doc)
}

/// What `serde_json::to_string` writes for a value.
pub uninterp spec fn compact_text(json: JsonView) -> Seq<char>;

/// `serde_json::to_string`: the text depends on what the value holds alone and
/// is named `compact_text`.
#[verifier::external_body]
pub(crate) fn compact(value: &serde_json::Value) -> (text: String)
    ensures
        text@ == compact_text(held(*value)),
{
    serde_json::to_string(value).unwrap_or_default()
}

/// The items of a `serde_json::Value::Array`, in their order; nothing for any
/// other variant.
#[verifier::external_body]
pub(crate) fn value_items(value: serde_json::Value) -> (list: Option<Vec<serde_json::Value>>)
    ensures
        match list {
            Some(found) => items(held(value)) == Some(held_all(found@)),
            None => items(held(value)) is None,
        },
{
    match value {
        serde_json::Value::Array(found) => Some(found),
        _ => None,
    }
}

/// What a list of `serde_json::Value`s holds.
pub open spec fn held_all(list: Seq<serde_json::Value>) -> Seq<JsonView> {
    list.map_values(|value: serde_json::Value| held(value))
}

/// `serde_json::Value::get` with a name: the member of an object, nothing where
/// it has none or the value is no object.
#[verifier::external_body]
pub(crate) fn value_field(value: &serde_json::Value, name: &str) -> (found: Option<
    serde_json::Value,
>)
    ensures
        match found {
            Some(v) => field(held(*value), name@) == Some(held(v)),
            None => field(held(*value), name@) is None,
        },
{
    value.get(name).cloned()
}

/// The value of a member of an object.
pub open spec fn member(members: Seq<(Seq<char>, JsonView)>, name: Seq<char>) -> Option<JsonView>
    decreases members.len(),
{
    if members.len() == 0 {
        None
    } else if members[0].0 == name {
        Some(members[0].1)
    } else {
        member(members.drop_first(), name)
    }
}

/// The member of a value, where it is an object that has it.
pub open spec fn field(json: JsonView, name: Seq<char>) -> Option<JsonView> {
    match json {
        JsonView::Object(members) => member(members, name),
        _ => None,
    }
}

/// The characters of a string value.
pub open spec fn text(json: JsonView) -> Option<Seq<char>> {
    match json {
        JsonView::Text(chars) => Some(chars),
        _ => None,
    }
}

/// The items of a list value.
pub open spec fn items(json: JsonView) -> Option<Seq<JsonView>> {
    match json {
        JsonView::Array(list) => Some(list),
        _ => None,
    }
}

/// The members of an object value.
pub open spec fn object_members(json: JsonView) -> Option<Seq<(Seq<char>, JsonView)>> {
    match json {
        JsonView::Object(list) => Some(list),
        _ => None,
    }
}

/// The string member of an object.
pub open spec fn text_field(json: JsonView, name: Seq<char>) -> Option<Seq<char>> {
    match field(json, name) {
        Some(value) => text(value),
        None => None,
    }
}

/// The list member of an object.
pub open spec fn list_field(json: JsonView, name: Seq<char>) -> Option<Seq<JsonView>> {
    match field(json, name) {
        Some(value) => items(value),
        None => None,
    }
}

/// The boolean member of an object.
pub open spec fn flag_field(json: JsonView, name: Seq<char>) -> Option<bool> {
    match field(json, name) {
        Some(JsonView::Bool(flag)) => Some(flag),
        _ => None,
    }
}

/// The whole number, not below zero, that a value holds.
pub open spec fn whole(json: JsonView) -> Option<int> {
    match json {
        JsonView::Number(digits) => unsigned_value(digits, u64::MAX as int),
        _ => None,
    }
}

/// The whole number member of an object.
pub open spec fn whole_field(json: JsonView, name: Seq<char>) -> Option<int> {
    match field(json, name) {
        Some(value) => whole(value),
        None => None,
    }
}

proof fn lemma_object_view(json: Json)
    ensures
        json matches Json::Object(list) ==> json@ == JsonView::Object(member_views(list@)),
{
    if let Json::Object(list) = json {
        let seen = json@->Object_0;
        let want = member_views(list@);
        assert(seen.len() == want.len());
        assert forall|i: int| 0 <= i < want.len() implies seen[i] == want[i] by {
            assert(seen[i] == (list@[i].0@, json_view(list@[i].1)));
        }
        assert(seen =~= want);
    }
}

/// A list value.
pub fn array_of(list: Vec<Json>) -> (json: Json)
    ensures
        json@ == JsonView::Array(views(list@)),
{
    let json = Json::Array(list);
    assert(json@->Array_0 =~= views(list@));
    json
}

/// An object value with these members.
pub fn object_of(list: Vec<(String, Json)>) -> (json: Json)
    ensures
        json@ == JsonView::Object(member_views(list@)),
{
    let json = Json::Object(list);
    proof {
        lemma_object_view(json);
    }
    json
}

/// Puts a member behind those of an object.
pub fn push_member(list: &mut Vec<(String, Json)>, name: &str, value: Json)
    ensures
        member_views(final(list)@) == member_views(old(list)@).push((name@, value@)),
{
    let ghost before = member_views(list@);
    list.push((String::from_str(name), value));
    assert(member_views(list@) =~= before.push((name@, value@)));
}

/// Puts a string member behind those of an object.
pub fn push_text_member(list: &mut Vec<(String, Json)>, name: &str, value: &str)
    ensures
        member_views(final(list)@) == member_views(old(list)@).push(
            (name@, JsonView::Text(value@)),
        ),
{
    push_member(list, name, Json::Text(String::from_str(value)));
}

impl Json {
    /// Reads a JSON document; what is wrong with the bytes where they are none.
    pub fn read(bytes: &[u8]) -> (json: Result<Json, String>)
        ensures
            match json {
                Ok(j) => reading(bytes@) == Ok::<JsonView, Seq<char>>(j@),
                Err(words) => reading(bytes@) == Err::<JsonView, Seq<char>>(words@),
            },
    {
        match value_from_bytes(bytes) {
            Ok(value) => Ok(json_of(value)),
            Err(words) => Err(words),
        }
    }

    /// Reads a JSON document; nothing where the bytes are none.
    pub fn parse(bytes: &[u8]) -> (json: Option<Json>)
        ensures
            match json {
                Some(j) => document(bytes@) == Some(j@),
                None => document(bytes@) is None,
            },
    {
        match value_from_bytes(bytes) {
            Ok(value) => Some(json_of(value)),
            Err(_) => None,
        }
    }

    /// The member of an object.
    pub fn get(&self, name: &str) -> (value: Option<&Json>)
        ensures
            match value {
                Some(json) => field(self@, name@) == Some(json@),
                None => field(self@, name@) is None,
            },
    {
        match self {
            Json::Object(list) => {
                let members = list;
                let ghost all = member_views(members@);
                proof {
                    lemma_object_view(*self);
                }
                let mut i: usize = 0;
                assert(all.subrange(0, all.len() as int) =~= all);
                while i < members.len()
                    invariant
                        i <= members@.len(),
                        all.len() == members@.len(),
                        self@ == JsonView::Object(all),
                        forall|k: int|
                            0 <= k < all.len() ==> #[trigger] all[k] == (members@[k].0@, members@[k].1@),
                        member(all, name@) == member(all.subrange(i as int, all.len() as int), name@),
                    decreases members.len() - i,
                {
                    let ghost rest = all.subrange(i as int, all.len() as int);
                    assert(rest[0] == all[i as int]);
                    if same(members[i].0.as_str(), name) {
                        return Some(&members[i].1);
                    }
                    assert(rest.drop_first() =~= all.subrange(i + 1, all.len() as int));
                    i = i + 1;
                }
                None
            },
            _ => None,
        }
    }

    /// The characters of a string.
    pub fn as_str(&self) -> (value: Option<&str>)
        ensures
            match value {
                Some(chars) => text(self@) == Some(chars@),
                None => text(self@) is None,
            },
    {
        match self {
            Json::Text(chars) => Some(chars.as_str()),
            _ => None,
        }
    }

    /// The items of a list.
    pub fn as_array(&self) -> (value: Option<&Vec<Json>>)
        ensures
            match value {
                Some(list) => items(self@) == Some(views(list@)),
                None => items(self@) is None,
            },
    {
        match self {
            Json::Array(list) => {
                assert(self@->Array_0 =~= views(list@));
                Some(list)
            },
            _ => None,
        }
    }

    /// The members of an object.
    pub fn as_object(&self) -> (value: Option<&Vec<(String, Json)>>)
        ensures
            match value {
                Some(list) => object_members(self@) == Some(member_views(list@)),
                None => object_members(self@) is None,
            },
    {
        match self {
            Json::Object(list) => {
                proof {
                    lemma_object_view(*self);
                }
                Some(list)
            },
            _ => None,
        }
    }

    /// The whole number, not below zero, that the value holds.
    pub fn as_u64(&self) -> (value: Option<u64>)
        ensures
            match value {
                Some(n) => whole(self@) == Some(n as int),
                None => whole(self@) is None,
            },
    {
        match self {
            Json::Number(digits) => parse_up_to(digits.as_str(), u64::MAX),
            _ => None,
        }
    }

    /// The string member of an object.
    pub fn get_str(&self, name: &str) -> (value: Option<&str>)
        ensures
            match value {
                Some(chars) => text_field(self@, name@) == Some(chars@),
                None => text_field(self@, name@) is None,
            },
    {
        match self.get(name) {
            Some(value) => value.as_str(),
            None => None,
        }
    }

    /// The list member of an object.
    pub fn get_array(&self, name: &str) -> (value: Option<&Vec<Json>>)
        ensures
            match value {
                Some(list) => list_field(self@, name@) == Some(views(list@)),
                None => list_field(self@, name@) is None,
            },
    {
        match self.get(name) {
            Some(value) => value.as_array(),
            None => None,
        }
    }

    /// The boolean member of an object.
    pub fn get_bool(&self, name: &str) -> (value: Option<bool>)
        ensures
            value == flag_field(self@, name@),
    {
        match self.get(name) {
            Some(Json::Bool(flag)) => Some(*flag),
            _ => None,
        }
    }

    /// The whole number member of an object.
    pub fn get_u64(&self, name: &str) -> (value: Option<u64>)
        ensures
            match value {
                Some(n) => whole_field(self@, name@) == Some(n as int),
                None => whole_field(self@, name@) is None,
            },
    {
        match self.get(name) {
            Some(value) => value.as_u64(),
            None => None,
        }
    }
}

/// The names and values of a list of members.
pub open spec fn member_views(list: Seq<(String, Json)>) -> Seq<(Seq<char>, JsonView)> {
    list.map_values(|pair: (String, Json)| (pair.0@, pair.1@))
}

/// The values of a list.
pub open spec fn views(list: Seq<Json>) -> Seq<JsonView> {
    list.map_values(|json: Json| json@)
}

/// The member of an object is the value behind its name; where the name stands
/// oftener, the first; and nothing where it does not stand there. Nothing but an
/// object has members, and each kind of value is read as what it is.
pub proof fn law_members_are_found_by_name(
    members: Seq<(Seq<char>, JsonView)>,
    name: Seq<char>,
    i: int,
)
    requires
        0 <= i <= members.len(),
        forall|k: int| 0 <= k < i ==> (#[trigger] members[k]).0 != name,
    ensures
        i < members.len() && members[i].0 == name ==> {
            &&& field(JsonView::Object(members), name) == Some(members[i].1)
            &&& members[i].1 matches JsonView::Text(chars) ==> text_field(
                JsonView::Object(members),
                name,
            ) == Some(chars)
            &&& members[i].1 matches JsonView::Bool(flag) ==> flag_field(
                JsonView::Object(members),
                name,
            ) == Some(flag)
            &&& members[i].1 matches JsonView::Array(list) ==> list_field(
                JsonView::Object(members),
                name,
            ) == Some(list)
            &&& members[i].1 matches JsonView::Number(digits) ==> whole_field(
                JsonView::Object(members),
                name,
            ) == unsigned_value(digits, u64::MAX as int)
            &&& !(members[i].1 is Text) ==> text_field(JsonView::Object(members), name) is None
            &&& !(members[i].1 is Bool) ==> flag_field(JsonView::Object(members), name) is None
            &&& !(members[i].1 is Array) ==> list_field(JsonView::Object(members), name) is None
        },
        i == members.len() ==> field(JsonView::Object(members), name) is None && text_field(
            JsonView::Object(members),
            name,
        ) is None,
    decreases members.len(),
{
    if i > 0 {
        let rest = members.drop_first();
        assert(members[0].0 != name);
        assert forall|k: int| 0 <= k < i - 1 implies (#[trigger] rest[k]).0 != name by {
            assert(rest[k] == members[k + 1]);
        }
        law_members_are_found_by_name(rest, name, i - 1);
        if i < members.len() {
            assert(rest[i - 1] == members[i]);
        }
    }
}

} // verus!
