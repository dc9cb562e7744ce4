//! JSON values.
use crate::text::{append, copy, decimal, maybe, push_decimal, same_text, string_views};
use vstd::prelude::*;

verus! {

/// A JSON value. A number that is not whole is kept as it is written.
#[derive(Debug, PartialEq, Eq)]
pub enum JsonValue {
    Null,
    Bool(bool),
    Unsigned(u64),
    Negative(i64),
    Fraction(String),
    Text(String),
    Array(Vec<JsonValue>),
    Object(Vec<(String, JsonValue)>),
}

/// What a JSON value is.
#[verifier::ext_equal]
pub enum JsonView {
    Null,
    Bool(bool),
    Unsigned(u64),
    Negative(i64),
    Fraction(Seq<char>),
    Text(Seq<char>),
    Array(Seq<JsonView>),
    Object(Seq<(Seq<char>, JsonView)>),
}

/// What a JSON value is.
pub open spec fn json_view(value: JsonValue) -> JsonView
    decreases value,
{
    match value {
        JsonValue::Null => JsonView::Null,
        JsonValue::Bool(b) => JsonView::Bool(b),
        JsonValue::Unsigned(n) => JsonView::Unsigned(n),
        JsonValue::Negative(n) => JsonView::Negative(n),
        JsonValue::Fraction(t) => JsonView::Fraction(t@),
        JsonValue::Text(t) => JsonView::Text(t@),
        JsonValue::Array(items) => JsonView::Array(
            Seq::new(
                items@.len(),
                |i: int|
                    if 0 <= i < items@.len() {
                        json_view(items@[i])
                    } else {
                        JsonView::Null
                    },
            ),
        ),
        JsonValue::Object(members) => JsonView::Object(
            Seq::new(
                members@.len(),
                |i: int|
                    (
                        members@[i].0@,
                        if 0 <= i < members@.len() {
                            json_view(members@[i].1)
                        } else {
                            JsonView::Null
                        },
                    ),
            ),
        ),
    }
}

impl View for JsonValue {
    type V = JsonView;

    open spec fn view(&self) -> JsonView {
        json_view(*self)
    }
}

/// What the values of a list are.
pub open spec fn json_views(list: Seq<JsonValue>) -> Seq<JsonView> {
    list.map_values(|v: JsonValue| v@)
}

/// What the members of an object are.
pub open spec fn member_views(list: Seq<(String, JsonValue)>) -> Seq<(Seq<char>, JsonView)> {
    list.map_values(|m: (String, JsonValue)| (m.0@, m.1@))
}

/// An array is made of what its items are, and an object of what its members are.
pub proof fn nested_views(value: JsonValue)
    ensures
        value matches JsonValue::Array(items) ==> value@ == JsonView::Array(json_views(items@)),
        value matches JsonValue::Object(members) ==> value@ == JsonView::Object(
            member_views(members@),
        ),
{
    match value {
        JsonValue::Array(items) => {
            assert(value@->Array_0 =~= json_views(items@));
        },
        JsonValue::Object(members) => {
            assert(value@->Object_0 =~= member_views(members@));
        },
        _ => {},
    }
}

/// The first member at or after `from` with a name.
pub open spec fn member_at(members: Seq<(Seq<char>, JsonView)>, name: Seq<char>, from: int) -> Option<
    int,
>
    decreases members.len() - from,
{
    if from >= members.len() {
        None
    } else if members[from].0 == name {
        Some(from)
    } else {
        member_at(members, name, from + 1)
    }
}

/// A member of an object, if it is one and has such a member.
pub open spec fn member(value: JsonView, name: Seq<char>) -> Option<JsonView> {
    match value {
        JsonView::Object(members) => match member_at(members, name, 0) {
            Some(i) => Some(members[i].1),
            None => None,
        },
        _ => None,
    }
}

/// The text that a value is.
pub open spec fn text_in(value: JsonView) -> Option<Seq<char>> {
    match value {
        JsonView::Text(text) => Some(text),
        _ => None,
    }
}

/// A text member of an object.
pub open spec fn text_member(value: JsonView, name: Seq<char>) -> Option<Seq<char>> {
    match member(value, name) {
        Some(found) => text_in(found),
        None => None,
    }
}

/// A member of an object that is a whole number and not negative.
pub open spec fn number_member(value: JsonView, name: Seq<char>) -> Option<int> {
    match member(value, name) {
        Some(JsonView::Unsigned(n)) => Some(n as int),
        _ => None,
    }
}

/// The items of an array member of an object, if it has such a member.
pub open spec fn array_member(value: JsonView, name: Seq<char>) -> Option<Seq<JsonView>> {
    match member(value, name) {
        Some(JsonView::Array(items)) => Some(items),
        _ => None,
    }
}

impl JsonValue {
    /// A member of an object, if it is one and has such a member.
    pub fn get(&self, name: &str) -> (r: Option<&JsonValue>)
        ensures
            match r {
                Some(value) => member(self@, name@) == Some(value@),
                None => member(self@, name@) is None,
            },
    {
        proof {
            nested_views(*self);
        }
        match self {
            JsonValue::Object(members) => {
                let ghost views = member_views(members@);
                let mut i: usize = 0;
                while i < members.len()
                    invariant
                        self@ == JsonView::Object(views),
                        views == member_views(members@),
                        i <= members@.len(),
                        member_at(views, name@, 0) == member_at(views, name@, i as int),
                    decreases members@.len() - i,
                {
                    if same_text(members[i].0.as_str(), name) {
                        assert(views[i as int] == (members@[i as int].0@, members@[i as int].1@));
                        return Some(&members[i].1);
                    }
                    i += 1;
                }
                None
            },
            _ => None,
        }
    }

    /// A text member of an object.
    pub fn get_text(&self, name: &str) -> (r: Option<&str>)
        ensures
            match r {
                Some(text) => text_member(self@, name@) == Some(text@),
                None => text_member(self@, name@) is None,
            },
    {
        match self.get(name) {
            Some(JsonValue::Text(text)) => Some(text.as_str()),
            _ => None,
        }
    }

    /// A copy of a text member of an object.
    pub fn copy_text(&self, name: &str) -> (r: Option<String>)
        ensures
            match r {
                Some(text) => text_member(self@, name@) == Some(text@),
                None => text_member(self@, name@) is None,
            },
    {
        match self.get_text(name) {
            Some(text) => Some(copy(text)),
            None => None,
        }
    }

    /// A member of an object that is a whole number and not negative.
    pub fn get_number(&self, name: &str) -> (r: Option<u64>)
        ensures
            match r {
                Some(n) => number_member(self@, name@) == Some(n as int),
                None => number_member(self@, name@) is None,
            },
    {
        match self.get(name) {
            Some(JsonValue::Unsigned(n)) => Some(*n),
            _ => None,
        }
    }

    /// An array member of an object.
    pub fn get_array(&self, name: &str) -> (r: Option<&Vec<JsonValue>>)
        ensures
            match r {
                Some(items) => array_member(self@, name@) == Some(json_views(items@)),
                None => array_member(self@, name@) is None,
            },
    {
        match self.get(name) {
            Some(value) => {
                proof {
                    nested_views(*value);
                }
                match value {
                    JsonValue::Array(items) => Some(items),
                    _ => None,
                }
            },
            None => None,
        }
    }
}

impl JsonValue {
    /// A copy of a value.
    pub fn duplicate(&self) -> (r: JsonValue)
        ensures
            r@ == self@,
        decreases self,
    {
        proof {
            nested_views(*self);
        }
        match self {
            JsonValue::Null => JsonValue::Null,
            JsonValue::Bool(b) => JsonValue::Bool(*b),
            JsonValue::Unsigned(n) => JsonValue::Unsigned(*n),
            JsonValue::Negative(n) => JsonValue::Negative(*n),
            JsonValue::Fraction(text) => JsonValue::Fraction(copy(text.as_str())),
            JsonValue::Text(text) => JsonValue::Text(copy(text.as_str())),
            JsonValue::Array(items) => {
                let ghost goal = json_views(items@);
                let mut list = no_items();
                let mut i: usize = 0;
                while i < items.len()
                    invariant
                        *self == JsonValue::Array(*items),
                        goal == json_views(items@),
                        i <= items@.len(),
                        json_views(list@) == goal.subrange(0, i as int),
                    decreases items@.len() - i,
                {
                    assert(decreases_to!(*self => self->Array_0));
                    assert(decreases_to!(items => items@));
                    assert(decreases_to!(items@ => items@[i as int]));
                    push_item(&mut list, items[i].duplicate());
                    assert(json_views(list@) =~= goal.subrange(0, i + 1));
                    i += 1;
                }
                assert(goal.subrange(0, i as int) =~= goal);
                array_value(list)
            },
            JsonValue::Object(members) => {
                let ghost goal = member_views(members@);
                let mut list = no_members();
                let mut i: usize = 0;
                while i < members.len()
                    invariant
                        *self == JsonValue::Object(*members),
                        goal == member_views(members@),
                        i <= members@.len(),
                        member_views(list@) == goal.subrange(0, i as int),
                    decreases members@.len() - i,
                {
                    assert(decreases_to!(*self => self->Object_0));
                    assert(decreases_to!(members => members@));
                    assert(decreases_to!(members@ => members@[i as int]));
                    assert(decreases_to!(members@[i as int] => members@[i as int].1));
                    push_member(&mut list, members[i].0.as_str(), members[i].1.duplicate());
                    assert(member_views(list@) =~= goal.subrange(0, i + 1));
                    i += 1;
                }
                assert(goal.subrange(0, i as int) =~= goal);
                object_value(list)
            },
        }
    }
}

/// The items of a list, or none.
pub open spec fn or_none(items: Option<Seq<JsonView>>) -> Seq<JsonView> {
    match items {
        Some(list) => list,
        None => Seq::empty(),
    }
}

/// A text value.
pub fn text_value(text: &str) -> (r: JsonValue)
    ensures
        r@ == JsonView::Text(text@),
{
    JsonValue::Text(copy(text))
}

/// A text value, or null without a text.
pub fn optional_text(text: &Option<String>) -> (r: JsonValue)
    ensures
        r@ == optional_json(maybe(*text)),
{
    match text {
        Some(t) => JsonValue::Text(copy(t.as_str())),
        None => JsonValue::Null,
    }
}

/// A text value, or null without a text.
pub open spec fn optional_json(text: Option<Seq<char>>) -> JsonView {
    match text {
        Some(t) => JsonView::Text(t),
        None => JsonView::Null,
    }
}

/// A whole number.
pub open spec fn integer_json(n: int) -> JsonView {
    if n >= 0 {
        JsonView::Unsigned(n as u64)
    } else {
        JsonView::Negative(n as i64)
    }
}

/// A whole number.
pub fn integer_value(n: i64) -> (r: JsonValue)
    ensures
        r@ == integer_json(n as int),
{
    if n >= 0 {
        JsonValue::Unsigned(n as u64)
    } else {
        JsonValue::Negative(n)
    }
}

/// An array of values.
pub fn array_value(items: Vec<JsonValue>) -> (r: JsonValue)
    ensures
        r@ == JsonView::Array(json_views(items@)),
{
    let r = JsonValue::Array(items);
    proof {
        nested_views(r);
    }
    r
}

/// An object with these members.
pub fn object_value(members: Vec<(String, JsonValue)>) -> (r: JsonValue)
    ensures
        r@ == JsonView::Object(member_views(members@)),
{
    let r = JsonValue::Object(members);
    proof {
        nested_views(r);
    }
    r
}

/// Adds a value to a list.
pub fn push_item(items: &mut Vec<JsonValue>, value: JsonValue)
    ensures
        json_views(final(items)@) == json_views(old(items)@).push(value@),
{
    items.push(value);
    assert(json_views(items@) =~= json_views(old(items)@).push(value@));
}

/// Adds a member to those of an object.
pub fn push_member(members: &mut Vec<(String, JsonValue)>, name: &str, value: JsonValue)
    ensures
        member_views(final(members)@) == member_views(old(members)@).push((name@, value@)),
{
    members.push((copy(name), value));
    assert(member_views(members@) =~= member_views(old(members)@).push((name@, value@)));
}

/// No members yet.
pub fn no_members() -> (r: Vec<(String, JsonValue)>)
    ensures
        member_views(r@) == Seq::<(Seq<char>, JsonView)>::empty(),
{
    let r: Vec<(String, JsonValue)> = Vec::new();
    assert(member_views(r@) =~= Seq::empty());
    r
}

/// No items yet.
pub fn no_items() -> (r: Vec<JsonValue>)
    ensures
        json_views(r@) == Seq::<JsonView>::empty(),
{
    let r: Vec<JsonValue> = Vec::new();
    assert(json_views(r@) =~= Seq::empty());
    r
}

/// An array of texts.
pub open spec fn texts_json(list: Seq<Seq<char>>) -> JsonView {
    JsonView::Array(list.map_values(|t: Seq<char>| JsonView::Text(t)))
}

/// An array of texts.
pub fn texts_value(list: &Vec<String>) -> (r: JsonValue)
    ensures
        r@ == texts_json(string_views(list@)),
{
    let mut items = no_items();
    let mut i: usize = 0;
    let ghost goal = texts_json(string_views(list@))->Array_0;
    while i < list.len()
        invariant
            goal == string_views(list@).map_values(|t: Seq<char>| JsonView::Text(t)),
            i <= list@.len(),
            json_views(items@) == goal.subrange(0, i as int),
        decreases list@.len() - i,
    {
        push_item(&mut items, text_value(list[i].as_str()));
        assert(json_views(items@) =~= goal.subrange(0, i + 1));
        i += 1;
    }
    assert(goal.subrange(0, i as int) =~= goal);
    array_value(items)
}

/// A text as it stands in JSON: in quotes, with escapes.
pub uninterp spec fn json_quoted(text: Seq<char>) -> Seq<char>;

/// `serde_json::to_string` of a text: the text in quotes, with escapes. Which characters it escapes
/// is not stated; it depends on the text alone.
#[verifier::external_body]
fn json_quote(text: &str) -> (r: String)
    ensures
        r@ == json_quoted(text@),
{
    serde_json::to_string(text).unwrap_or_default()
}

/// A value as it is written, without white space.
pub open spec fn json_text(value: JsonView) -> Seq<char>
    decreases value,
{
    match value {
        JsonView::Null => "null"@,
        JsonView::Bool(b) => if b {
            "true"@
        } else {
            "false"@
        },
        JsonView::Unsigned(n) => decimal(n as int),
        JsonView::Negative(n) => if n < 0 {
            "-"@ + decimal(-n)
        } else {
            decimal(n as int)
        },
        JsonView::Fraction(text) => text,
        JsonView::Text(text) => json_quoted(text),
        JsonView::Array(items) => "["@ + items_text(items, items.len() as int) + "]"@,
        JsonView::Object(members) => "{"@ + members_text(members, members.len() as int) + "}"@,
    }
}

/// The first `n` items of a list as they are written.
pub open spec fn items_text(items: Seq<JsonView>, n: int) -> Seq<char>
    decreases items, n,
{
    if n <= 0 || n > items.len() {
        Seq::empty()
    } else if n == 1 {
        json_text(items[0])
    } else {
        items_text(items, n - 1) + ","@ + json_text(items[n - 1])
    }
}

/// The first `n` members of an object as they are written.
pub open spec fn members_text(members: Seq<(Seq<char>, JsonView)>, n: int) -> Seq<char>
    decreases members, n,
{
    if n <= 0 || n > members.len() {
        Seq::empty()
    } else {
        let before = if n == 1 {
            Seq::empty()
        } else {
            members_text(members, n - 1) + ","@
        };
        before + json_quoted(members[n - 1].0) + ":"@ + json_text(members[n - 1].1)
    }
}

/// Writes a value behind a text.
fn push_json(out: &mut String, value: &JsonValue)
    ensures
        final(out)@ == old(out)@ + json_text(value@),
    decreases value,
{
    proof {
        nested_views(*value);
    }
    match value {
        JsonValue::Null => append(out, "null"),
        JsonValue::Bool(b) => if *b {
            append(out, "true")
        } else {
            append(out, "false")
        },
        JsonValue::Unsigned(n) => push_decimal(out, *n),
        JsonValue::Negative(n) => if *n < 0 {
            let size: i128 = -(*n as i128);
            append(out, "-");
            push_decimal(out, size as u64);
            assert(out@ =~= old(out)@ + json_text(value@));
        } else {
            push_decimal(out, *n as u64);
        },
        JsonValue::Fraction(text) => append(out, text.as_str()),
        JsonValue::Text(text) => {
            let quoted = json_quote(text.as_str());
            append(out, quoted.as_str());
        },
        JsonValue::Array(items) => {
            let ghost views = json_views(items@);
            append(out, "[");
            let ghost start = out@;
            let mut i: usize = 0;
            assert(start + items_text(views, 0) =~= start);
            while i < items.len()
                invariant
                    *value == JsonValue::Array(*items),
                    views == json_views(items@),
                    i <= items@.len(),
                    out@ == start + items_text(views, i as int),
                decreases items@.len() - i,
            {
                assert(decreases_to!(*value => value->Array_0));
                assert(decreases_to!(items => items@));
                assert(decreases_to!(items@ => items@[i as int]));
                assert(views[i as int] == items@[i as int]@);
                if i > 0 {
                    append(out, ",");
                }
                push_json(out, &items[i]);
                assert(out@ =~= start + items_text(views, i + 1));
                i += 1;
            }
            append(out, "]");
            assert(out@ =~= old(out)@ + json_text(value@));
        },
        JsonValue::Object(members) => {
            let ghost views = member_views(members@);
            append(out, "{");
            let ghost start = out@;
            let mut i: usize = 0;
            assert(start + members_text(views, 0) =~= start);
            while i < members.len()
                invariant
                    *value == JsonValue::Object(*members),
                    views == member_views(members@),
                    i <= members@.len(),
                    out@ == start + members_text(views, i as int),
                decreases members@.len() - i,
            {
                assert(decreases_to!(*value => value->Object_0));
                assert(decreases_to!(members => members@));
                assert(decreases_to!(members@ => members@[i as int]));
                assert(decreases_to!(members@[i as int] => members@[i as int].1));
                assert(views[i as int] == (members@[i as int].0@, members@[i as int].1@));
                if i > 0 {
                    append(out, ",");
                }
                let name = json_quote(members[i].0.as_str());
                append(out, name.as_str());
                append(out, ":");
                push_json(out, &members[i].1);
                assert(out@ =~= start + members_text(views, i + 1));
                i += 1;
            }
            append(out, "}");
            assert(out@ =~= old(out)@ + json_text(value@));
        },
    }
}

/// A value as it is written.
pub fn write_json(value: &JsonValue) -> (r: String)
    ensures
        r@ == json_text(value@),
{
    let mut out = String::new();
    push_json(&mut out, value);
    assert(out@ =~= json_text(value@));
    out
}

} // verus!
