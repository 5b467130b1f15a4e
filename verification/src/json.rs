//! JSON documents as plain values, read with `serde_json`.

use vstd::prelude::*;
use crate::text::{lemma_views_push, same_text, views};

verus! {

/// A JSON value. A number is held as the text that `serde_json` prints for
/// the number it read, not as it was written: `1e2` is held as `100.0`. The
/// members of an object stand in the order in which the parser hands them
/// out, each key once.
#[derive(Debug)]
pub enum Json {
    Null,
    Bool(bool),
    Number(String),
    Text(String),
    Array(Vec<Json>),
    Object(Vec<(String, Json)>),
}

/// `serde_json::Value`, as a value that is handed on.
#[verifier::external_type_specification]
#[verifier::external_body]
pub struct ExJsonValue(serde_json::Value);

/// `serde_json::Error`, as a value that is handed on.
#[verifier::external_type_specification]
#[verifier::external_body]
pub struct ExJsonError(serde_json::Error);

/// The document that `serde_json` reads from a text; `None` where the text is
/// not JSON.
pub uninterp spec fn json_of_text(text: Seq<char>) -> Option<Json>;

/// What a `serde_json::Value` holds.
pub uninterp spec fn value_model(value: serde_json::Value) -> Json;

/// `serde_json::from_str` at type `serde_json::Value`: the value of a text,
/// which depends on the text alone, or the parser's error.
#[verifier::external_body]
fn read_value(text: &str) -> (r: Result<serde_json::Value, serde_json::Error>)
    ensures
        match r {
            Ok(value) => json_of_text(text@) == Some(value_model(value)),
            Err(_) => json_of_text(text@) is None,
        },
{
    serde_json::from_str::<serde_json::Value>(text)
}

/// Moves a `serde_json::Value` into a `Json`, variant by variant: a number as
/// the text that its `Display` prints, the items of an array and the members
/// of an object in the order of their iterators.
#[verifier::external_body]
fn json_from_value(value: serde_json::Value) -> (r: Json)
    ensures
        r == value_model(value),
{
    match value {
        serde_json::Value::Null => Json::Null,
        serde_json::Value::Bool(b) => Json::Bool(b),
        serde_json::Value::Number(n) => Json::Number(n.to_string()),
        serde_json::Value::String(s) => Json::Text(s),
        serde_json::Value::Array(a) => Json::Array(a.into_iter().map(json_from_value).collect()),
        serde_json::Value::Object(m) => Json::Object(
            m.into_iter().map(|(k, v)| (k, json_from_value(v))).collect(),
        ),
    }
}

/// The value of the first member of `members` whose key is `key`.
pub open spec fn member_of(members: Seq<(String, Json)>, key: Seq<char>) -> Option<Json>
    decreases members.len(),
{
    if members.len() == 0 {
        None
    } else if members[0].0@ == key {
        Some(members[0].1)
    } else {
        member_of(members.drop_first(), key)
    }
}

/// The texts that the items of a list hold under `key`: for each item that is
/// an object with a string under `key`, that string, in the order of the
/// list.
pub open spec fn texts_under(items: Seq<Json>, key: Seq<char>) -> Seq<Seq<char>>
    decreases items.len(),
{
    if items.len() == 0 {
        Seq::empty()
    } else {
        let rest = texts_under(items.drop_last(), key);
        match items.last().member(key) {
            Some(value) => match value.text() {
                Some(t) => rest.push(t),
                None => rest,
            },
            None => rest,
        }
    }
}

/// The texts that the items of the list `list` of the object `section` of a
/// document hold under `key`; none where the document has no such section or
/// list.
pub open spec fn listed_texts(document: Json, section: Seq<char>, list: Seq<char>, key: Seq<char>)
    -> Seq<Seq<char>> {
    match document.member(section) {
        Some(inner) => match inner.member(list) {
            Some(value) => match value.items() {
                Some(items) => texts_under(items, key),
                None => Seq::empty(),
            },
            None => Seq::empty(),
        },
        None => Seq::empty(),
    }
}

impl Json {
    /// The texts that the items of a list hold under `key`.
    pub fn collect_texts(items: &Vec<Json>, key: &str) -> (r: Vec<String>)
        ensures
            views(r@) == texts_under(items@, key@),
    {
        let mut found: Vec<String> = Vec::new();
        let mut i: usize = 0;
        assert(views(found@) =~= Seq::<Seq<char>>::empty());
        assert(items@.take(0) =~= Seq::<Json>::empty());
        while i < items.len()
            invariant
                i <= items@.len(),
                views(found@) == texts_under(items@.take(i as int), key@),
            decreases items@.len() - i,
        {
            proof {
                assert(items@.take(i + 1).drop_last() =~= items@.take(i as int));
                assert(items@.take(i + 1).last() == items@[i as int]);
            }
            match items[i].get(key) {
                Some(value) => match value.as_str() {
                    Some(t) => {
                        let text = t.clone();
                        proof {
                            lemma_views_push(found@, text);
                        }
                        found.push(text);
                    },
                    None => {},
                },
                None => {},
            }
            i += 1;
        }
        assert(items@.take(items@.len() as int) =~= items@);
        found
    }

    /// The texts that the items of the list `list` of the object `section`
    /// hold under `key`.
    pub fn collect_listed_texts(&self, section: &str, list: &str, key: &str) -> (r: Vec<String>)
        ensures
            views(r@) == listed_texts(*self, section@, list@, key@),
    {
        match self.get(section) {
            Some(inner) => match inner.get(list) {
                Some(value) => match value.as_array() {
                    Some(items) => {
                        return Self::collect_texts(items, key);
                    },
                    None => {},
                },
                None => {},
            },
            None => {},
        }
        let found: Vec<String> = Vec::new();
        assert(views(found@) =~= Seq::<Seq<char>>::empty());
        found
    }

    /// Reads a JSON text.
    pub fn parse(text: &str) -> (r: Option<Json>)
        ensures
            r == json_of_text(text@),
    {
        match read_value(text) {
            Ok(value) => Some(json_from_value(value)),
            Err(_) => None,
        }
    }

    /// The member `key` of an object; `None` for what is no object or has no
    /// such member.
    pub open spec fn member(self, key: Seq<char>) -> Option<Json> {
        match self {
            Json::Object(members) => member_of(members@, key),
            _ => None,
        }
    }

    /// The characters of a JSON string; `None` for any other value.
    pub open spec fn text(self) -> Option<Seq<char>> {
        match self {
            Json::Text(t) => Some(t@),
            _ => None,
        }
    }

    /// The items of an array; `None` for any other value.
    pub open spec fn items(self) -> Option<Seq<Json>> {
        match self {
            Json::Array(items) => Some(items@),
            _ => None,
        }
    }

    /// The members of an object; `None` for any other value.
    pub open spec fn members(self) -> Option<Seq<(String, Json)>> {
        match self {
            Json::Object(members) => Some(members@),
            _ => None,
        }
    }

    /// The truth value of a JSON boolean; `None` for any other value.
    pub open spec fn truth(self) -> Option<bool> {
        match self {
            Json::Bool(b) => Some(b),
            _ => None,
        }
    }

    /// The member `key` of an object.
    pub fn get(&self, key: &str) -> (r: Option<&Json>)
        ensures
            match r {
                Some(found) => self.member(key@) == Some(*found),
                None => self.member(key@) is None,
            },
    {
        match self {
            Json::Object(members) => {
                let mut i: usize = 0;
                assert(members@.skip(0) =~= members@);
                while i < members.len()
                    invariant
                        i <= members.len(),
                        self == Json::Object(*members),
                        member_of(members@, key@) == member_of(members@.skip(i as int), key@),
                    decreases members.len() - i,
                {
                    proof {
                        let rest = members@.skip(i as int);
                        assert(rest[0] == members@[i as int]);
                        assert(rest.drop_first() =~= members@.skip(i + 1));
                    }
                    if same_text(members[i].0.as_str(), key) {
                        return Some(&members[i].1);
                    }
                    i += 1;
                }
                None
            },
            _ => None,
        }
    }

    /// The string that the value is, if it is one.
    pub fn as_str(&self) -> (r: Option<&String>)
        ensures
            match r {
                Some(t) => self.text() == Some(t@),
                None => self.text() is None,
            },
    {
        match self {
            Json::Text(t) => Some(t),
            _ => None,
        }
    }

    /// The items of the array that the value is, if it is one.
    pub fn as_array(&self) -> (r: Option<&Vec<Json>>)
        ensures
            match r {
                Some(items) => self.items() == Some(items@),
                None => self.items() is None,
            },
    {
        match self {
            Json::Array(items) => Some(items),
            _ => None,
        }
    }

    /// The members of the object that the value is, if it is one.
    pub fn as_object(&self) -> (r: Option<&Vec<(String, Json)>>)
        ensures
            match r {
                Some(members) => self.members() == Some(members@),
                None => self.members() is None,
            },
    {
        match self {
            Json::Object(members) => Some(members),
            _ => None,
        }
    }

    /// The boolean that the value is, if it is one.
    pub fn as_bool(&self) -> (r: Option<bool>)
        ensures
            r == self.truth(),
    {
        match self {
            Json::Bool(b) => Some(*b),
            _ => None,
        }
    }

    /// Whether the value is an object.
    pub fn is_object(&self) -> (r: bool)
        ensures
            r == (self is Object),
    {
        match self {
            Json::Object(_) => true,
            _ => false,
        }
    }
}

} // verus!
