//! JSON values as the suggestion extractors read them.

use crate::text::same_text;
use vstd::prelude::*;

verus! {

/// A JSON value.
#[derive(Debug, PartialEq, Eq)]
pub enum Json {
    Null,
    Bool(bool),
    /// A number, by its text.
    Number(String),
    Text(String),
    Array(Vec<Json>),
    /// An object, by its fields in order. Where a key occurs more than once,
    /// its last field counts.
    Object(Vec<(String, Json)>),
}

/// The value of the field `key` among `fields`, if there is one.
pub open spec fn field_of(fields: Seq<(String, Json)>, key: Seq<char>) -> Option<Json>
    decreases fields.len(),
{
    if fields.len() == 0 {
        None
    } else if fields.last().0@ == key {
        Some(fields.last().1)
    } else {
        field_of(fields.drop_last(), key)
    }
}

impl Json {
    /// The text of a string value.
    pub open spec fn text_of(self) -> Option<Seq<char>> {
        match self {
            Json::Text(text) => Some(text@),
            _ => None,
        }
    }

    /// The items of an array.
    pub open spec fn items_of(self) -> Option<Seq<Json>> {
        match self {
            Json::Array(items) => Some(items@),
            _ => None,
        }
    }

    /// The item at `index` of an array.
    pub open spec fn item_of(self, index: int) -> Option<Json> {
        match self {
            Json::Array(items) => if 0 <= index < items@.len() {
                Some(items@[index])
            } else {
                None
            },
            _ => None,
        }
    }

    /// The value of the field `key` of an object.
    pub open spec fn member_of(self, key: Seq<char>) -> Option<Json> {
        match self {
            Json::Object(fields) => field_of(fields@, key),
            _ => None,
        }
    }

    /// The text of a string value; nothing for any other value.
    pub fn as_text(&self) -> (text: Option<&str>)
        ensures
            match text {
                Some(t) => self.text_of() == Some(t@),
                None => self.text_of() is None,
            },
    {
        match self {
            Json::Text(text) => Some(text.as_str()),
            _ => None,
        }
    }

    /// The items of an array; nothing for any other value.
    pub fn as_array(&self) -> (items: Option<&Vec<Json>>)
        ensures
            match items {
                Some(found) => self.items_of() == Some(found@),
                None => self.items_of() is None,
            },
    {
        match self {
            Json::Array(items) => Some(items),
            _ => None,
        }
    }

    /// The item at `index` of an array; nothing for any other value or
    /// beyond the end.
    pub fn item(&self, index: usize) -> (item: Option<&Json>)
        ensures
            match item {
                Some(found) => self.item_of(index as int) == Some(*found),
                None => self.item_of(index as int) is None,
            },
    {
        match self {
            Json::Array(items) => {
                if index < items.len() {
                    Some(&items[index])
                } else {
                    None
                }
            },
            _ => None,
        }
    }

    /// The value of the field `key` of an object; nothing for any other
    /// value or where there is no such field.
    pub fn member(&self, key: &str) -> (value: Option<&Json>)
        ensures
            match value {
                Some(found) => self.member_of(key@) == Some(*found),
                None => self.member_of(key@) is None,
            },
    {
        match self {
            Json::Object(fields) => {
                let mut i: usize = fields.len();
                assert(fields@.take(i as int) =~= fields@);
                while i > 0
                    invariant
                        i <= fields.len(),
                        self.member_of(key@) == field_of(fields@, key@),
                        field_of(fields@, key@) == field_of(fields@.take(i as int), key@),
                    decreases i,
                {
                    let ghost head = fields@.take(i as int);
                    proof {
                        assert(head.drop_last() =~= fields@.take(i - 1));
                        assert(head.last() == fields@[i - 1]);
                    }
                    if same_text(fields[i - 1].0.as_str(), key) {
                        assert(field_of(head, key@) == Some(fields@[i - 1].1));
                        return Some(&fields[i - 1].1);
                    }
                    i = i - 1;
                }
                assert(fields@.take(0).len() == 0);
                None
            },
            _ => None,
        }
    }
}

} // verus!
