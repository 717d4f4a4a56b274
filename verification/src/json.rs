//! JSON values of session records, and the lookups that trace
//! reconstruction makes in them.
use vstd::prelude::*;

use crate::error::StackError;
use crate::text::{all_ws, lemma_trim_empty_iff_all_ws, trim_chars, chars_eq, chars_to_string, join, join_chars, opt_view, parse_u64, parse_u64_chars, slice_chars, split_whitespace, str_eq, str_to_chars, views, words};

verus! {

/// A JSON number: its text, and its value when it is a non-negative integer
/// that fits in 64 bits (`serde_json::Value::as_u64`).
#[derive(Debug, Clone)]
pub struct JsonNumber {
    pub text: String,
    pub unsigned: Option<u64>,
}

/// A JSON value. Object members keep their order; keys are distinct.
#[derive(Debug)]
pub enum JsonValue {
    Null,
    Bool(bool),
    Number(JsonNumber),
    Str(String),
    Array(Vec<JsonValue>),
    Object(Vec<JsonMember>),
}

#[derive(Debug)]
pub struct JsonMember {
    pub key: String,
    pub value: JsonValue,
}

/// One line of a session file: the value, its compact JSON text, and the
/// compact JSON text of its `data` member (`null` when it has none).
#[derive(Debug)]
pub struct TraceRecord {
    pub value: JsonValue,
    pub text: String,
    pub data_text: String,
}

pub open spec fn member_value(ms: Seq<JsonMember>, key: Seq<char>) -> Option<JsonValue>
    decreases ms.len(),
{
    if ms.len() == 0 {
        None
    } else if ms[0].key@ == key {
        Some(ms[0].value)
    } else {
        member_value(ms.drop_first(), key)
    }
}

/// `Value::get` with a key.
pub open spec fn json_get(v: JsonValue, key: Seq<char>) -> Option<JsonValue> {
    match v {
        JsonValue::Object(ms) => member_value(ms@, key),
        _ => None,
    }
}

/// One step of a path: a key that reads as an index selects an array
/// element, any other key an object member.
pub open spec fn json_step(v: JsonValue, key: Seq<char>) -> Option<JsonValue> {
    match parse_u64(key) {
        Some(i) => match v {
            JsonValue::Array(a) => if i < a@.len() {
                Some(a@[i as int])
            } else {
                None
            },
            _ => None,
        },
        None => json_get(v, key),
    }
}

pub open spec fn walk(v: JsonValue, path: Seq<Seq<char>>) -> Option<JsonValue>
    decreases path.len(),
{
    if path.len() == 0 {
        Some(v)
    } else {
        match json_step(v, path[0]) {
            Some(n) => walk(n, path.drop_first()),
            None => None,
        }
    }
}

/// A path of object members only.
pub open spec fn walk_get(v: JsonValue, path: Seq<Seq<char>>) -> Option<JsonValue>
    decreases path.len(),
{
    if path.len() == 0 {
        Some(v)
    } else {
        match json_get(v, path[0]) {
            Some(n) => walk_get(n, path.drop_first()),
            None => None,
        }
    }
}

pub open spec fn spec_string_at(v: JsonValue, path: Seq<Seq<char>>) -> Option<Seq<char>> {
    match walk(v, path) {
        Some(JsonValue::Str(s)) => Some(s@),
        _ => None,
    }
}

pub open spec fn spec_u64_at(v: JsonValue, path: Seq<Seq<char>>) -> Option<u64> {
    match walk_get(v, path) {
        Some(JsonValue::Number(n)) => n.unsigned,
        _ => None,
    }
}

pub open spec fn strs(path: Seq<&str>) -> Seq<Seq<char>> {
    path.map_values(|s: &str| s@)
}

fn member_lookup<'a>(ms: &'a Vec<JsonMember>, key: &Vec<char>) -> (r: Option<&'a JsonValue>)
    ensures
        match r {
            Some(x) => member_value(ms@, key@) == Some(*x),
            None => member_value(ms@, key@) is None,
        },
{
    let mut i: usize = 0;
    assert(ms@.subrange(0, ms.len() as int) =~= ms@);
    while i < ms.len()
        invariant
            i <= ms.len(),
            member_value(ms@, key@) == member_value(ms@.subrange(i as int, ms.len() as int), key@),
        decreases ms.len() - i,
    {
        let k = str_to_chars(ms[i].key.as_str());
        assert(ms@.subrange(i as int, ms.len() as int)[0] == ms@[i as int]);
        if chars_eq(&k, key) {
            return Some(&ms[i].value);
        }
        assert(ms@.subrange(i as int, ms.len() as int).drop_first() =~= ms@.subrange(
            i + 1,
            ms.len() as int,
        ));
        i = i + 1;
    }
    None
}

pub fn get_member<'a>(v: &'a JsonValue, key: &Vec<char>) -> (r: Option<&'a JsonValue>)
    ensures
        match r {
            Some(x) => json_get(*v, key@) == Some(*x),
            None => json_get(*v, key@) is None,
        },
{
    match v {
        JsonValue::Object(ms) => member_lookup(ms, key),
        _ => None,
    }
}

fn step<'a>(v: &'a JsonValue, key: &Vec<char>) -> (r: Option<&'a JsonValue>)
    ensures
        match r {
            Some(x) => json_step(*v, key@) == Some(*x),
            None => json_step(*v, key@) is None,
        },
{
    match parse_u64_chars(key) {
        Some(i) => match v {
            JsonValue::Array(a) => {
                if i < a.len() as u64 {
                    Some(&a[i as usize])
                } else {
                    None
                }
            },
            _ => None,
        },
        None => get_member(v, key),
    }
}

/// Follows a path of keys and indices.
pub fn walk_path<'a>(v: &'a JsonValue, path: &[&str]) -> (r: Option<&'a JsonValue>)
    ensures
        match r {
            Some(x) => walk(*v, strs(path@)) == Some(*x),
            None => walk(*v, strs(path@)) is None,
        },
{
    let mut current = v;
    let mut i: usize = 0;
    assert(strs(path@).subrange(0, path.len() as int) =~= strs(path@));
    while i < path.len()
        invariant
            i <= path.len(),
            walk(*v, strs(path@)) == walk(*current, strs(path@).subrange(i as int, path.len() as int)),
        decreases path.len() - i,
    {
        let key = str_to_chars(path[i]);
        let ghost rest = strs(path@).subrange(i as int, path.len() as int);
        assert(rest[0] == path@[i as int]@);
        assert(rest.drop_first() =~= strs(path@).subrange(i + 1, path.len() as int));
        match step(current, &key) {
            Some(n) => {
                current = n;
            },
            None => {
                return None;
            },
        }
        i = i + 1;
    }
    assert(strs(path@).subrange(i as int, path.len() as int) =~= Seq::<Seq<char>>::empty());
    Some(current)
}

/// Follows a path of object members.
pub fn walk_members<'a>(v: &'a JsonValue, path: &[&str]) -> (r: Option<&'a JsonValue>)
    ensures
        match r {
            Some(x) => walk_get(*v, strs(path@)) == Some(*x),
            None => walk_get(*v, strs(path@)) is None,
        },
{
    let mut current = v;
    let mut i: usize = 0;
    assert(strs(path@).subrange(0, path.len() as int) =~= strs(path@));
    while i < path.len()
        invariant
            i <= path.len(),
            walk_get(*v, strs(path@)) == walk_get(
                *current,
                strs(path@).subrange(i as int, path.len() as int),
            ),
        decreases path.len() - i,
    {
        let key = str_to_chars(path[i]);
        let ghost rest = strs(path@).subrange(i as int, path.len() as int);
        assert(rest[0] == path@[i as int]@);
        assert(rest.drop_first() =~= strs(path@).subrange(i + 1, path.len() as int));
        match get_member(current, &key) {
            Some(n) => {
                current = n;
            },
            None => {
                return None;
            },
        }
        i = i + 1;
    }
    assert(strs(path@).subrange(i as int, path.len() as int) =~= Seq::<Seq<char>>::empty());
    Some(current)
}

/// The text at a path, when the path ends at a string.
pub fn string_at(v: &JsonValue, path: &[&str]) -> (r: Option<String>)
    ensures
        opt_view(r) == spec_string_at(*v, strs(path@)),
{
    match walk_path(v, path) {
        Some(JsonValue::Str(s)) => Some(s.clone()),
        _ => None,
    }
}

/// The non-negative integer at a path of object members.
pub fn u64_at(v: &JsonValue, path: &[&str]) -> (r: Option<u64>)
    ensures
        r == spec_u64_at(*v, strs(path@)),
{
    match walk_members(v, path) {
        Some(JsonValue::Number(n)) => n.unsigned,
        _ => None,
    }
}

/// Whether the text at a path equals a given text.
pub fn string_at_is(v: &JsonValue, path: &[&str], expected: &str) -> (r: bool)
    ensures
        r == (spec_string_at(*v, strs(path@)) == Some(expected@)),
{
    match walk_path(v, path) {
        Some(JsonValue::Str(s)) => str_eq(s.as_str(), expected),
        _ => false,
    }
}

// ----- message text -----
pub open spec fn block_text(b: JsonValue) -> Option<Seq<char>> {
    match spec_string_at(b, seq!["text"@]) {
        Some(t) => Some(t),
        None => spec_string_at(b, seq!["content"@, "0"@, "text"@]),
    }
}

pub open spec fn block_texts(bs: Seq<JsonValue>) -> Seq<Seq<char>>
    decreases bs.len(),
{
    if bs.len() == 0 {
        Seq::empty()
    } else {
        let prev = block_texts(bs.drop_last());
        match block_text(bs.last()) {
            Some(t) => prev.push(t),
            None => prev,
        }
    }
}

pub open spec fn message_content(v: JsonValue) -> Option<JsonValue> {
    match walk_get(v, seq!["data"@, "message"@, "content"@]) {
        Some(x) => Some(x),
        None => walk_get(v, seq!["data"@, "content"@]),
    }
}

/// The text blocks of a message joined by newlines, when there are any.
pub open spec fn spec_message_text(v: JsonValue) -> Option<Seq<char>> {
    match message_content(v) {
        Some(JsonValue::Array(a)) => {
            let parts = block_texts(a@);
            if parts.len() == 0 {
                None
            } else {
                Some(join(parts, seq!['\n']))
            }
        },
        _ => None,
    }
}

pub fn message_text(v: &JsonValue) -> (r: Option<String>)
    ensures
        opt_view(r) == spec_message_text(*v),
{
    let content = match walk_members(v, &["data", "message", "content"]) {
        Some(x) => Some(x),
        None => walk_members(v, &["data", "content"]),
    };
    assert(strs(seq!["data", "message", "content"]) =~= seq!["data"@, "message"@, "content"@]);
    assert(strs(seq!["data", "content"]) =~= seq!["data"@, "content"@]);
    let blocks = match content {
        Some(JsonValue::Array(a)) => a,
        _ => {
            return None;
        },
    };
    let mut parts: Vec<Vec<char>> = Vec::new();
    let mut i: usize = 0;
    assert(blocks@.take(0) =~= Seq::<JsonValue>::empty());
    while i < blocks.len()
        invariant
            i <= blocks.len(),
            views(parts@) == block_texts(blocks@.take(i as int)),
        decreases blocks.len() - i,
    {
        let b = &blocks[i];
        assert(blocks@.take(i + 1).drop_last() =~= blocks@.take(i as int));
        assert(blocks@.take(i + 1).last() == *b);
        assert(strs(seq!["text"]) =~= seq!["text"@]);
        assert(strs(seq!["content", "0", "text"]) =~= seq!["content"@, "0"@, "text"@]);
        let p1: &[&str] = &["text"];
        let p2: &[&str] = &["content", "0", "text"];
        assert(p1@ =~= seq!["text"]);
        assert(p2@ =~= seq!["content", "0", "text"]);
        let text = match string_at(b, p1) {
            Some(t) => Some(t),
            None => string_at(b, p2),
        };
        assert(opt_view(text) == block_text(*b));
        match text {
            Some(t) => {
                let ghost before = views(parts@);
                let tc = str_to_chars(t.as_str());
                parts.push(tc);
                assert(views(parts@) =~= before.push(tc@));
            },
            None => {},
        }
        i = i + 1;
    }
    assert(blocks@.take(blocks.len() as int) =~= blocks@);
    if parts.len() == 0 {
        return None;
    }
    let mut nl: Vec<char> = Vec::new();
    nl.push('\n');
    assert(nl@ =~= seq!['\n']);
    let joined = join_chars(&parts, &nl);
    Some(chars_to_string(&joined))
}

// ----- compact text -----
/// Whitespace runs collapsed to single spaces, cut to `limit` characters
/// with a final `…` when longer.
pub open spec fn spec_compact_text(value: Seq<char>, limit: usize) -> Seq<char> {
    let v = join(words(value), seq![' ']);
    if v.len() <= limit {
        v
    } else {
        v.take(if limit >= 1 {
            limit - 1
        } else {
            0
        }).push('…')
    }
}

pub fn compact_chars(value: &Vec<char>, limit: usize) -> (r: Vec<char>)
    ensures
        r@ == spec_compact_text(value@, limit),
{
    let ws = split_whitespace(value);
    let mut sp: Vec<char> = Vec::new();
    sp.push(' ');
    assert(sp@ =~= seq![' ']);
    let v = join_chars(&ws, &sp);
    if v.len() <= limit {
        return v;
    }
    let keep = if limit >= 1 {
        limit - 1
    } else {
        0
    };
    let mut out = slice_chars(&v, 0, keep);
    out.push('…');
    assert(v@.subrange(0, keep as int) =~= v@.take(keep as int));
    out
}

pub fn compact_text(value: &str, limit: usize) -> (r: String)
    ensures
        r@ == spec_compact_text(value@, limit),
{
    let chars = str_to_chars(value);
    let out = compact_chars(&chars, limit);
    chars_to_string(&out)
}

/// The compact text never exceeds its limit (for a limit of at least one).
pub proof fn law_compact_text_bounded(value: Seq<char>, limit: usize)
    requires
        limit >= 1,
    ensures
        spec_compact_text(value, limit).len() <= limit,
{
}

/// The first 18 characters of an identifier.
pub open spec fn spec_short_id(value: Seq<char>) -> Seq<char> {
    if value.len() <= 18 {
        value
    } else {
        value.take(18)
    }
}

pub fn short_id(value: &str) -> (r: String)
    ensures
        r@ == spec_short_id(value@),
{
    let chars = str_to_chars(value);
    if chars.len() <= 18 {
        return chars_to_string(&chars);
    }
    let kept = slice_chars(&chars, 0, 18);
    assert(chars@.subrange(0, 18) =~= chars@.take(18));
    chars_to_string(&kept)
}


// ----- text -----
/// A JSON value as mathematics: numbers by their text and their value when
/// they are unsigned 64-bit integers, object members in order.
pub enum JsonV {
    Null,
    Bool(bool),
    Number(Seq<char>, Option<u64>),
    Str(Seq<char>),
    Array(Seq<JsonV>),
    Object(Seq<(Seq<char>, JsonV)>),
}

pub open spec fn json_view(v: JsonValue) -> JsonV
    decreases v,
{
    match v {
        JsonValue::Null => JsonV::Null,
        JsonValue::Bool(b) => JsonV::Bool(b),
        JsonValue::Number(n) => JsonV::Number(n.text@, n.unsigned),
        JsonValue::Str(s) => JsonV::Str(s@),
        JsonValue::Array(items) => JsonV::Array(
            Seq::new(items@.len(), |i: int| if 0 <= i < items@.len() { json_view(items@[i]) } else { JsonV::Null }),
        ),
        JsonValue::Object(ms) => JsonV::Object(
            Seq::new(
                ms@.len(),
                |i: int| if 0 <= i < ms@.len() { (ms@[i].key@, json_view(ms@[i].value)) } else { (Seq::empty(), JsonV::Null) },
            ),
        ),
    }
}


#[verifier::external_type_specification]
#[verifier::external_body]
pub struct ExSerdeValue(serde_json::Value);

/// `serde_json::Value` in the library's representation, variant by variant;
/// object members come in the map's order.
#[verifier::external_body]
fn from_serde(value: &serde_json::Value) -> JsonValue {
    match value {
        serde_json::Value::Null => JsonValue::Null,
        serde_json::Value::Bool(flag) => JsonValue::Bool(*flag),
        serde_json::Value::Number(n) => JsonValue::Number(JsonNumber { text: n.to_string(), unsigned: n.as_u64() }),
        serde_json::Value::String(text) => JsonValue::Str(text.clone()),
        serde_json::Value::Array(items) => JsonValue::Array(items.iter().map(from_serde).collect()),
        serde_json::Value::Object(ms) => JsonValue::Object(
            ms.iter().map(|(k, v)| JsonMember { key: k.clone(), value: from_serde(v) }).collect(),
        ),
    }
}

/// The library's representation back as a `serde_json::Value`, variant by
/// variant; a number is read back from its text.
#[verifier::external_body]
fn to_serde(value: &JsonValue) -> serde_json::Value {
    match value {
        JsonValue::Null => serde_json::Value::Null,
        JsonValue::Bool(flag) => serde_json::Value::Bool(*flag),
        JsonValue::Number(n) => n.text.parse::<serde_json::Number>().map_or(serde_json::Value::Null, serde_json::Value::Number),
        JsonValue::Str(text) => serde_json::Value::String(text.clone()),
        JsonValue::Array(items) => serde_json::Value::Array(items.iter().map(to_serde).collect()),
        JsonValue::Object(ms) => serde_json::Value::Object(
            ms.iter().map(|m| (m.key.clone(), to_serde(&m.value))).collect(),
        ),
    }
}

/// What `serde_json::from_str::<Value>` makes of a text: the value, or the
/// text of its error.
pub uninterp spec fn json_parse_result(text: Seq<char>) -> Result<JsonV, Seq<char>>;

/// What `serde_json::from_slice::<Value>` makes of some bytes.
pub uninterp spec fn json_parse_bytes_result(bytes: Seq<u8>) -> Result<JsonV, Seq<char>>;

/// The compact JSON text of a value (`Value`'s `Display`).
pub uninterp spec fn json_compact_text(v: JsonV) -> Seq<char>;

/// What `serde_json::to_vec_pretty` makes of a value.
pub uninterp spec fn json_pretty_result(v: JsonV) -> Result<Seq<u8>, Seq<char>>;

/// `serde_json::from_str` into a `Value`, converted; the JSON grammar is not
/// restated, the result is tied to the text through `json_parse_result`.
#[verifier::external_body]
pub fn parse_json_text(text: &str) -> (r: Result<JsonValue, String>)
    ensures
        match r {
            Ok(v) => json_parse_result(text@) == Ok::<JsonV, Seq<char>>(json_view(v)),
            Err(e) => json_parse_result(text@) == Err::<JsonV, Seq<char>>(e@),
        },
{
    match serde_json::from_str::<serde_json::Value>(text) {
        Ok(value) => Ok(from_serde(&value)),
        Err(error) => Err(error.to_string()),
    }
}

/// `serde_json::from_slice` into a `Value`, converted.
#[verifier::external_body]
pub fn parse_json_bytes(bytes: &[u8]) -> (r: Result<JsonValue, String>)
    ensures
        match r {
            Ok(v) => json_parse_bytes_result(bytes@) == Ok::<JsonV, Seq<char>>(json_view(v)),
            Err(e) => json_parse_bytes_result(bytes@) == Err::<JsonV, Seq<char>>(e@),
        },
{
    match serde_json::from_slice::<serde_json::Value>(bytes) {
        Ok(value) => Ok(from_serde(&value)),
        Err(error) => Err(error.to_string()),
    }
}

/// The compact JSON text of a value, through `Value`'s `Display`.
#[verifier::external_body]
pub fn json_text(value: &JsonValue) -> (r: String)
    ensures
        r@ == json_compact_text(json_view(*value)),
{
    to_serde(value).to_string()
}

/// `serde_json::to_vec_pretty` of a value.
#[verifier::external_body]
pub fn json_pretty(value: &JsonValue) -> (r: Result<Vec<u8>, String>)
    ensures
        match r {
            Ok(b) => json_pretty_result(json_view(*value)) == Ok::<Seq<u8>, Seq<char>>(b@),
            Err(e) => json_pretty_result(json_view(*value)) == Err::<Seq<u8>, Seq<char>>(e@),
        },
{
    match serde_json::to_vec_pretty(&to_serde(value)) {
        Ok(bytes) => Ok(bytes),
        Err(error) => Err(error.to_string()),
    }
}


/// `e` is the JSON error that a failed parse reports.
pub open spec fn is_json_error(e: StackError, parsed: Result<JsonV, Seq<char>>) -> bool {
    match (e, parsed) {
        (StackError::Json(m), Err(x)) => m@ == x,
        _ => false,
    }
}

/// The compact text of a record's `data` member, `null` when it has none.
pub open spec fn data_text_of(v: JsonValue) -> Seq<char> {
    match json_get(v, "data"@) {
        Some(d) => json_compact_text(json_view(d)),
        None => "null"@,
    }
}

/// One line of a session file: nothing for a blank line, otherwise the
/// parsed record with its compact text and that of its `data` member, or
/// the JSON error of the line.
pub fn trace_record_from_line(line: &str) -> (r: Result<Option<TraceRecord>, StackError>)
    ensures
        match r {
            Ok(None) => all_ws(line@),
            Ok(Some(rec)) => !all_ws(line@) && json_parse_result(line@) == Ok::<JsonV, Seq<char>>(
                json_view(rec.value),
            ) && rec.text@ == json_compact_text(json_view(rec.value)) && rec.data_text@ == data_text_of(
                rec.value,
            ),
            Err(e) => !all_ws(line@) && is_json_error(e, json_parse_result(line@)),
        },
{
    let chars = str_to_chars(line);
    let trimmed = trim_chars(&chars);
    proof {
        lemma_trim_empty_iff_all_ws(line@);
    }
    if trimmed.len() == 0 {
        return Ok(None);
    }
    let value = match parse_json_text(line) {
        Ok(v) => v,
        Err(e) => {
            return Err(StackError::Json(e));
        },
    };
    let text = json_text(&value);
    let key = str_to_chars("data");
    let data_text = match get_member(&value, &key) {
        Some(d) => json_text(d),
        None => String::from_str("null"),
    };
    Ok(Some(TraceRecord { value, text, data_text }))
}


/// The members of an object as pairs of key and value.
pub open spec fn pair_views(ms: Seq<JsonMember>) -> Seq<(Seq<char>, JsonV)> {
    ms.map_values(|m: JsonMember| (m.key@, json_view(m.value)))
}

pub proof fn lemma_object_view(ms: Vec<JsonMember>)
    ensures
        json_view(JsonValue::Object(ms)) == JsonV::Object(pair_views(ms@)),
{
    let v = JsonValue::Object(ms);
    let got = json_view(v)->Object_0;
    assert(got.len() == ms@.len());
    assert forall|i: int| 0 <= i < got.len() implies got[i] == pair_views(ms@)[i] by {
        assert(got[i] == (ms@[i].key@, json_view(ms@[i].value)));
    }
    assert(got =~= pair_views(ms@));
}

/// The first position of a key among pairs.
pub open spec fn key_index(ps: Seq<(Seq<char>, JsonV)>, key: Seq<char>) -> Option<nat>
    decreases ps.len(),
{
    if ps.len() == 0 {
        None
    } else if ps[0].0 == key {
        Some(0)
    } else {
        match key_index(ps.drop_first(), key) {
            Some(k) => Some(k + 1),
            None => None,
        }
    }
}

/// A member set as `Value`'s `value[key] = v` sets it: replaced where the
/// key is, added otherwise.
pub open spec fn set_pair(ps: Seq<(Seq<char>, JsonV)>, key: Seq<char>, v: JsonV) -> Seq<(Seq<char>, JsonV)> {
    match key_index(ps, key) {
        Some(k) => ps.update(k as int, (key, v)),
        None => ps.push((key, v)),
    }
}

/// `value[key] = v` on an object or on `null`, which becomes an object; it
/// is not defined on other values.
pub open spec fn with_member(jv: JsonV, key: Seq<char>, v: JsonV) -> Option<JsonV> {
    match jv {
        JsonV::Object(ps) => Some(JsonV::Object(set_pair(ps, key, v))),
        JsonV::Null => Some(JsonV::Object(seq![(key, v)])),
        _ => None,
    }
}

fn member_index(ms: &Vec<JsonMember>, key: &Vec<char>) -> (r: Option<usize>)
    ensures
        match r {
            Some(k) => k < ms.len() && key_index(pair_views(ms@), key@) == Some(k as nat),
            None => key_index(pair_views(ms@), key@) is None,
        },
{
    let ghost ps = pair_views(ms@);
    let mut i: usize = 0;
    assert(ps.subrange(0, ps.len() as int) =~= ps);
    while i < ms.len()
        invariant
            i <= ms.len(),
            ps == pair_views(ms@),
            key_index(ps, key@) == match key_index(ps.subrange(i as int, ps.len() as int), key@) {
                Some(k) => Some((k + i) as nat),
                None => None::<nat>,
            },
        decreases ms.len() - i,
    {
        let ghost rest = ps.subrange(i as int, ps.len() as int);
        assert(rest[0] == ps[i as int]);
        let k = str_to_chars(ms[i].key.as_str());
        if chars_eq(&k, key) {
            return Some(i);
        }
        assert(rest.drop_first() =~= ps.subrange(i + 1, ps.len() as int));
        i = i + 1;
    }
    assert(ps.subrange(i as int, ps.len() as int) =~= Seq::<(Seq<char>, JsonV)>::empty());
    None
}

/// Sets a string member of an object (or of `null`), as `value[key] =
/// Value::String(text)` does; `None` for any other value.
pub fn set_string_member(value: JsonValue, key: &str, text: String) -> (r: Option<JsonValue>)
    ensures
        match r {
            Some(v) => with_member(json_view(value), key@, JsonV::Str(text@)) == Some(json_view(v)),
            None => with_member(json_view(value), key@, JsonV::Str(text@)) is None,
        },
{
    let keyc = str_to_chars(key);
    let ghost tv = JsonV::Str(text@);
    match value {
        JsonValue::Object(ms) => {
            proof {
                lemma_object_view(ms);
            }
            let ghost before = pair_views(ms@);
            let mut ms = ms;
            let m = JsonMember { key: String::from_str(key), value: JsonValue::Str(text) };
            assert(json_view(m.value) == tv);
            match member_index(&ms, &keyc) {
                Some(k) => {
                    ms.set(k, m);
                    assert(pair_views(ms@) =~= before.update(k as int, (key@, tv)));
                },
                None => {
                    ms.push(m);
                    assert(pair_views(ms@) =~= before.push((key@, tv)));
                },
            }
            proof {
                lemma_object_view(ms);
            }
            Some(JsonValue::Object(ms))
        },
        JsonValue::Null => {
            let mut ms: Vec<JsonMember> = Vec::new();
            let m = JsonMember { key: String::from_str(key), value: JsonValue::Str(text) };
            assert(json_view(m.value) == tv);
            ms.push(m);
            proof {
                lemma_object_view(ms);
            }
            assert(pair_views(ms@) =~= seq![(key@, tv)]);
            Some(JsonValue::Object(ms))
        },
        _ => None,
    }
}

} // verus!
