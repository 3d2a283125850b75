//! JSON values, one level at a time: what lies deeper is carried along as it is.

use vstd::prelude::*;

use crate::text::same_string;

verus! {

// --------------------------------------------------------------------- values

/// What a JSON value holds.
pub enum JsonView {
    Null,
    Bool(bool),
    Int(i64),
    /// A number that is no signed 64-bit integer, by its notation.
    Number(Seq<char>),
    Str(Seq<char>),
    Arr(Seq<JsonView>),
    Obj(Map<Seq<char>, JsonView>),
}

/// A value of the `serde_json` crate. It is opaque here; `content` names what it holds.
#[verifier::external_type_specification]
#[verifier::external_body]
pub struct ExValue(serde_json::Value);

/// What a value of the `serde_json` crate holds.
pub uninterp spec fn content(v: serde_json::Value) -> JsonView;

/// A JSON value, opened by one level.
#[derive(Debug)]
pub enum Json {
    Null,
    Bool(bool),
    Int(i64),
    Str(String),
    Arr(Vec<serde_json::Value>),
    Obj(Vec<(String, serde_json::Value)>),
    /// Any other number.
    Other(serde_json::Value),
}

/// How many levels of lists and objects `serde_json::from_str` reads.
pub const MAX_DEPTH: usize = 127;

/// Whether a value is nested no deeper than a number of levels and holds no number but
/// signed 64-bit integers.
pub open spec fn is_plain(j: JsonView, depth: nat) -> bool
    decreases depth,
{
    match j {
        JsonView::Number(_) => false,
        JsonView::Arr(items) => depth > 0 && forall|i: int|
            0 <= i < items.len() ==> is_plain(#[trigger] items[i], (depth - 1) as nat),
        JsonView::Obj(m) => depth > 0 && forall|k: Seq<char>|
            m.contains_key(k) ==> is_plain(#[trigger] m[k], (depth - 1) as nat),
        _ => true,
    }
}

/// A value with a plain member set is plain.
pub proof fn lemma_plain_with_field(j: JsonView, key: Seq<char>, v: JsonView, depth: nat)
    requires
        depth > 0,
        is_plain(j, depth),
        is_plain(v, (depth - 1) as nat),
    ensures
        is_plain(with_field(j, key, v), depth),
{
    let m = match j {
        JsonView::Obj(m) => m,
        _ => Map::empty(),
    };
    let r = m.insert(key, v);
    assert forall|k: Seq<char>| r.contains_key(k) implies is_plain(
        #[trigger] r[k],
        (depth - 1) as nat,
    ) by {
        if k != key {
            assert(m.contains_key(k));
            assert(r[k] == m[k]);
        }
    }
}

/// An object of plain members is plain.
pub proof fn lemma_plain_object(fields: Seq<(Seq<char>, JsonView)>, depth: nat)
    requires
        depth > 0,
        forall|i: int|
            0 <= i < fields.len() ==> is_plain((#[trigger] fields[i]).1, (depth - 1) as nat),
    ensures
        is_plain(object(fields), depth),
    decreases fields.len(),
{
    if fields.len() > 0 {
        let front = fields.drop_last();
        assert forall|i: int| 0 <= i < front.len() implies is_plain(
            (#[trigger] front[i]).1,
            (depth - 1) as nat,
        ) by {
            assert(front[i] == fields[i]);
        }
        lemma_plain_object(front, depth);
        let last = fields[fields.len() - 1];
        lemma_plain_with_field(object(front), last.0, last.1, depth);
    }
}

/// What a list of values holds.
pub open spec fn contents(s: Seq<serde_json::Value>) -> Seq<JsonView> {
    s.map_values(|v: serde_json::Value| content(v))
}

/// What a list of members of an object holds; of members with the same name the last one
/// counts.
pub open spec fn members(s: Seq<(String, serde_json::Value)>) -> Map<Seq<char>, JsonView>
    decreases s.len(),
{
    if s.len() == 0 {
        Map::empty()
    } else {
        members(s.drop_last()).insert(s.last().0@, content(s.last().1))
    }
}

impl View for Json {
    type V = JsonView;

    open spec fn view(&self) -> JsonView {
        match *self {
            Json::Null => JsonView::Null,
            Json::Bool(b) => JsonView::Bool(b),
            Json::Int(n) => JsonView::Int(n),
            Json::Str(s) => JsonView::Str(s@),
            Json::Arr(v) => JsonView::Arr(contents(v@)),
            Json::Obj(f) => JsonView::Obj(members(f@)),
            Json::Other(v) => content(v),
        }
    }
}

// -------------------------------------------------------------- outside calls

/// Opens a `serde_json::Value` by one level. Claimed of it: the parts it is matched into
/// make up what the value holds, and what is left unopened is a number.
#[verifier::external_body]
pub(crate) fn open(v: serde_json::Value) -> (r: Json)
    ensures
        r@ == content(v),
        r is Other ==> r@ is Number,
{
    match v {
        serde_json::Value::Null => Json::Null,
        serde_json::Value::Bool(b) => Json::Bool(b),
        serde_json::Value::Number(n) => match n.as_i64() {
            Some(i) => Json::Int(i),
            None => Json::Other(serde_json::Value::Number(n)),
        },
        serde_json::Value::String(s) => Json::Str(s),
        serde_json::Value::Array(a) => Json::Arr(a),
        serde_json::Value::Object(o) => Json::Obj(o.into_iter().collect()),
    }
}

/// Makes a `serde_json::Value` of its parts. Claimed of it: the value holds what the parts
/// hold, and of members of an object with the same name the last one.
#[verifier::external_body]
pub(crate) fn close(j: Json) -> (r: serde_json::Value)
    ensures
        content(r) == j@,
{
    match j {
        Json::Null => serde_json::Value::Null,
        Json::Bool(b) => serde_json::Value::Bool(b),
        Json::Int(i) => serde_json::Value::from(i),
        Json::Str(s) => serde_json::Value::String(s),
        Json::Arr(a) => serde_json::Value::Array(a),
        Json::Obj(f) => serde_json::Value::Object(f.into_iter().collect()),
        Json::Other(v) => v,
    }
}

/// What `serde_json::from_str` reads a text as; nothing where the text is no JSON.
pub uninterp spec fn parsed(s: Seq<char>) -> Option<JsonView>;

/// `serde_json::from_str` for a `serde_json::Value`. Claimed of it: whether the text is
/// JSON, and what the value holds, depends on the text alone.
#[verifier::external_body]
fn read_value(s: &str) -> (r: Option<serde_json::Value>)
    ensures
        match r {
            Some(v) => parsed(s@) == Some(content(v)),
            None => parsed(s@) is None,
        },
{
    serde_json::from_str(s).ok()
}

/// The text that `serde_json::to_string_pretty` writes of what a value holds; nothing where
/// it fails.
pub uninterp spec fn printed(j: JsonView) -> Option<Seq<char>>;

/// `serde_json::to_string_pretty` for a `serde_json::Value`. Claimed of it: the text depends
/// on what the value holds alone, and a plain value is always written, as a text that
/// `serde_json::from_str` reads as the same value. Of values with other numbers, or nested
/// deeper than can be read, the second is not said.
#[verifier::external_body]
fn write_value(v: &serde_json::Value) -> (r: Option<String>)
    ensures
        match r {
            Some(t) => {
                &&& printed(content(*v)) == Some(t@)
                &&& is_plain(content(*v), MAX_DEPTH as nat) ==> parsed(t@) == Some(content(*v))
            },
            None => printed(content(*v)) is None && !is_plain(content(*v), MAX_DEPTH as nat),
        },
{
    serde_json::to_string_pretty(v).ok()
}

// ----------------------------------------------------------------------- code

/// Reads a text as JSON.
pub fn parse_json(s: &str) -> (r: Option<Json>)
    ensures
        r matches Some(Json::Other(v)) ==> content(v) is Number,
        match r {
            Some(j) => parsed(s@) == Some(j@),
            None => parsed(s@) is None,
        },
{
    match read_value(s) {
        Some(v) => Some(open(v)),
        None => None,
    }
}

/// Writes JSON with one member per line.
pub fn print_json(j: Json) -> (r: Option<String>)
    ensures
        match r {
            Some(t) => printed(j@) == Some(t@),
            None => printed(j@) is None,
        },
        is_plain(j@, MAX_DEPTH as nat) ==> (r matches Some(t) && parsed(t@) == Some(j@)),
{
    write_value(&close(j))
}

/// The member of an object with a name.
pub open spec fn field(j: JsonView, key: Seq<char>) -> Option<JsonView> {
    match j {
        JsonView::Obj(m) => if m.contains_key(key) {
            Some(m[key])
        } else {
            None
        },
        _ => None,
    }
}

/// The text that a value is, if it is one.
pub open spec fn as_text(j: Option<JsonView>) -> Option<Seq<char>> {
    match j {
        Some(JsonView::Str(s)) => Some(s),
        _ => None,
    }
}

/// The value with a member set.
pub open spec fn with_field(j: JsonView, key: Seq<char>, v: JsonView) -> JsonView {
    match j {
        JsonView::Obj(m) => JsonView::Obj(m.insert(key, v)),
        _ => JsonView::Obj(Map::empty().insert(key, v)),
    }
}

/// An object with the members of a list of names and values; of members with the same name
/// the last one counts.
pub open spec fn object(fields: Seq<(Seq<char>, JsonView)>) -> JsonView
    decreases fields.len(),
{
    if fields.len() == 0 {
        JsonView::Obj(Map::empty())
    } else {
        with_field(object(fields.drop_last()), fields.last().0, fields.last().1)
    }
}

/// Sets a member of an object.
pub fn set_member(fields: &mut Vec<(String, serde_json::Value)>, key: &str, v: Json)
    ensures
        members(final(fields)@) == members(old(fields)@).insert(key@, v@),
{
    let ghost before = fields@;
    let value: serde_json::Value = close(v);
    fields.push((key.to_owned(), value));
    assert(fields@.drop_last() == before);
}

/// Takes a member out of an object.
pub fn take_member(fields: Vec<(String, serde_json::Value)>, key: &str) -> (r: (
    Vec<(String, serde_json::Value)>,
    Option<serde_json::Value>,
))
    ensures
        members(r.0@) == members(fields@).remove(key@),
        match r.1 {
            Some(v) => members(fields@).contains_key(key@) && members(fields@)[key@] == content(v),
            None => !members(fields@).contains_key(key@),
        },
{
    let ghost all = fields@;
    let mut left: Vec<(String, serde_json::Value)> = fields;
    let mut back: Vec<(String, serde_json::Value)> = Vec::new();
    while left.len() > 0
        invariant
            left@.len() + back@.len() == all.len(),
            left@ == all.take(left@.len() as int),
            forall|i: int|
                0 <= i < back@.len() ==> #[trigger] back@[i] == all[all.len() - 1 - i],
        decreases left@.len(),
    {
        match left.pop() {
            Some(pair) => {
                back.push(pair);
            },
            None => {},
        }
    }
    let ghost turned = back@;
    let mut rest: Vec<(String, serde_json::Value)> = Vec::new();
    let mut found: Option<serde_json::Value> = None;
    assert(all.take(0).len() == 0);
    assert(members(rest@) =~= members(all.take(0)).remove(key@));
    while back.len() > 0
        invariant
            back@.len() <= all.len(),
            turned.len() == all.len(),
            back@ == turned.take(back@.len() as int),
            forall|i: int|
                0 <= i < turned.len() ==> #[trigger] turned[i] == all[all.len() - 1 - i],
            ({
                let m = members(all.take(all.len() - back@.len()));
                &&& members(rest@) == m.remove(key@)
                &&& match found {
                    Some(v) => m.contains_key(key@) && m[key@] == content(v),
                    None => !m.contains_key(key@),
                }
            }),
        decreases back@.len(),
    {
        let ghost k = all.len() - back@.len();
        let ghost so_far = members(all.take(k));
        assert(all.take(k + 1).drop_last() == all.take(k));
        assert(back@.last() == turned[back@.len() - 1]);
        match back.pop() {
            Some(pair) => {
                assert(pair == all[k]);
                let ghost m = members(all.take(k + 1));
                assert(m == so_far.insert(pair.0@, content(pair.1)));
                if same_string(pair.0.as_str(), key) {
                    found = Some(pair.1);
                    assert(m.remove(key@) =~= so_far.remove(key@));
                } else {
                    let ghost kept = rest@;
                    rest.push(pair);
                    assert(rest@.drop_last() == kept);
                    assert(m.remove(key@) =~= so_far.remove(key@).insert(
                        pair.0@,
                        content(pair.1),
                    ));
                }
            },
            None => {},
        }
    }
    assert(all.take(all.len() as int) == all);
    (rest, found)
}

/// Whether a member of an object is a certain text.
pub fn field_is(j: &serde_json::Value, key: &str, t: &str) -> (r: bool)
    ensures
        r == (as_text(field(content(*j), key@)) == Some(t@)),
{
    match text_field(j, key) {
        Some(s) => same_string(s.as_str(), t),
        None => false,
    }
}

/// `get` and `as_str` of `serde_json::Value`, and a copy of the text. Claimed of them: the
/// result is the text that the member with that name is, if there is one and it is a text.
#[verifier::external_body]
fn text_field(j: &serde_json::Value, key: &str) -> (r: Option<String>)
    ensures
        match r {
            Some(s) => as_text(field(content(*j), key@)) == Some(s@),
            None => as_text(field(content(*j), key@)) is None,
        },
{
    j.get(key).and_then(|v| v.as_str()).map(|s| s.to_owned())
}

} // verus!
