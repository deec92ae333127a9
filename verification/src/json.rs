//! JSON values as plain data, and the two calls that read and write their text.

use crate::codec;
use crate::text;
use serde::de::IgnoredAny;
use serde_json::Value;
use vstd::prelude::*;

verus! {

/// A JSON number: an integer that fits 64 bits, or the text of any other number.
#[derive(Debug, PartialEq, Eq)]
pub enum JsonNumber {
    Unsigned(u64),
    Negative(i64),
    Other(String),
}

/// A JSON value. An object keeps its entries in order.
#[derive(Debug, PartialEq, Eq)]
pub enum Json {
    Null,
    Bool(bool),
    Number(JsonNumber),
    Text(String),
    Array(Vec<Json>),
    Object(Vec<(String, Json)>),
}

/// What a [`JsonNumber`] stands for.
pub enum NumberView {
    Unsigned(u64),
    Negative(i64),
    Other(Seq<char>),
}

/// What a [`Json`] stands for.
pub enum JsonView {
    Null,
    Bool(bool),
    Number(NumberView),
    Text(Seq<char>),
    Array(Seq<JsonView>),
    Object(Seq<(Seq<char>, JsonView)>),
}

impl View for JsonNumber {
    type V = NumberView;

    open spec fn view(&self) -> NumberView {
        match *self {
            JsonNumber::Unsigned(n) => NumberView::Unsigned(n),
            JsonNumber::Negative(n) => NumberView::Negative(n),
            JsonNumber::Other(s) => NumberView::Other(s@),
        }
    }
}

/// What the items of an array stand for.
pub open spec fn item_views(items: Seq<Json>) -> Seq<JsonView>
    decreases items,
{
    Seq::new(
        items.len(),
        |i: int|
            if 0 <= i < items.len() {
                items[i].view()
            } else {
                JsonView::Null
            },
    )
}

/// What the entries of an object stand for.
pub open spec fn entry_views(entries: Seq<(String, Json)>) -> Seq<(Seq<char>, JsonView)>
    decreases entries,
{
    Seq::new(
        entries.len(),
        |i: int|
            if 0 <= i < entries.len() {
                (entries[i].0@, entries[i].1.view())
            } else {
                (Seq::empty(), JsonView::Null)
            },
    )
}

impl View for Json {
    type V = JsonView;

    open spec fn view(&self) -> JsonView
        decreases self,
    {
        match self {
            Json::Null => JsonView::Null,
            Json::Bool(b) => JsonView::Bool(*b),
            Json::Number(n) => JsonView::Number(n@),
            Json::Text(s) => JsonView::Text(s@),
            Json::Array(items) => JsonView::Array(item_views(items@)),
            Json::Object(entries) => JsonView::Object(entry_views(entries@)),
        }
    }
}


// ── Reading ──────────────────────────────────────────────────────────────────

/// `serde_json`'s own value type.
#[verifier::external_type_specification]
#[verifier::external_body]
pub struct ExValue(serde_json::Value);

/// What a `serde_json::Value` holds.
pub uninterp spec fn value_contents(v: serde_json::Value) -> JsonView;

/// What `serde_json::from_str` reads from a text: a value, or why the text is not JSON.
pub uninterp spec fn reading(text: Seq<char>) -> Result<JsonView, Seq<char>>;

/// What `serde_json::from_slice` reads from bytes: a value, or why they are not JSON.
pub uninterp spec fn reading_bytes(bytes: Seq<u8>) -> Result<JsonView, Seq<char>>;

/// The value a text writes in JSON; nothing when it is not JSON.
pub open spec fn parsed(text: Seq<char>) -> Option<JsonView> {
    match reading(text) {
        Ok(v) => Some(v),
        Err(_) => None,
    }
}

/// Whether a value is a text or a 64-bit unsigned integer.
pub open spec fn is_plain(v: JsonView) -> bool {
    match v {
        JsonView::Text(_) => true,
        JsonView::Number(NumberView::Unsigned(_)) => true,
        _ => false,
    }
}

/// Where the first JSON value in bytes ends, blanks in front of it included, as `serde_json` finds
/// it when it skips the value; nothing when there is none.
pub uninterp spec fn value_end(bytes: Seq<u8>) -> Option<usize>;

/// What a read value holds.
pub open spec fn contents(r: Result<serde_json::Value, String>) -> Result<JsonView, Seq<char>> {
    match r {
        Ok(v) => Ok(value_contents(v)),
        Err(why) => Err(why@),
    }
}

/// Whether `result` is the text or integer whose compact form `bytes` are, if they are that of one.
pub open spec fn reads_back(bytes: Seq<u8>, result: Option<JsonView>) -> bool {
    forall|v: JsonView|
        is_plain(v) && bytes == codec::utf8(#[trigger] render(v)) ==> result == Some(v)
}

/// Whether what stands behind a value's compact form cannot be taken for more of it: a text ends
/// with its quote, and a number in front of a comma or a closing brace.
pub open spec fn is_set_off(v: JsonView, rest: Seq<u8>) -> bool {
    v is Text || (rest.len() > 0 && (rest[0] == 44 || rest[0] == 125))
}

/// Whether `end` is the length of the compact form that `bytes` begin with, if they begin with that
/// of a text or an integer that is set off from what follows.
pub open spec fn ends_behind(bytes: Seq<u8>, end: Option<usize>) -> bool {
    forall|v: JsonView, rest: Seq<u8>|
        is_plain(v) && is_set_off(v, rest) && bytes == #[trigger] (codec::utf8(render(v)) + rest)
            ==> end is Some && end->0 == codec::utf8(render(v)).len()
}

/// The value of a reading.
pub open spec fn value_of(r: Result<JsonView, Seq<char>>) -> Option<JsonView> {
    match r {
        Ok(v) => Some(v),
        Err(_) => None,
    }
}

/// Trusted: `serde_json::from_str::<serde_json::Value>`. What it gives, and the words of its error,
/// are a function of the text alone, named [`reading`].
#[verifier::external_body]
fn parse_value(text: &str) -> (r: Result<serde_json::Value, String>)
    ensures
        contents(r) == reading(text@),
{
    serde_json::from_str(text).map_err(|e| e.to_string())
}

/// Trusted: `serde_json::from_slice::<serde_json::Value>`. What it gives, and the words of its
/// error, are a function of the bytes alone, named [`reading_bytes`], and the compact form of a
/// text or of a 64-bit unsigned integer reads back as that value.
#[verifier::external_body]
fn parse_bytes(bytes: &[u8]) -> (r: Result<serde_json::Value, String>)
    ensures
        contents(r) == reading_bytes(bytes@),
        reads_back(bytes@, value_of(contents(r))),
{
    serde_json::from_slice(bytes).map_err(|e| e.to_string())
}

/// Trusted: the first value of a `serde_json::StreamDeserializer` over bytes, read as
/// `serde::de::IgnoredAny`, which skips a value without making one. Whether there is one and where
/// it ends are a function of the bytes alone, named [`value_end`]; a value takes at least one byte
/// and ends within them; and a text or a 64-bit unsigned integer in compact form ends where its
/// form does.
#[verifier::external_body]
pub(crate) fn skip_value(bytes: &[u8]) -> (r: Option<usize>)
    ensures
        r == value_end(bytes@),
        r is Some ==> 0 < r->0 <= bytes@.len(),
        ends_behind(bytes@, r),
{
    let mut values = serde_json::Deserializer::from_slice(bytes).into_iter::<IgnoredAny>();
    match values.next() {
        Some(Ok(_)) => Some(values.byte_offset()),
        _ => None,
    }
}

/// Trusted: the variants of `serde_json::Value`, each carried over with what it holds; an object's
/// entries keep the order in which its map is walked, which `preserve_order` makes the order in
/// which they were read.
#[verifier::external_body]
fn json_of(v: &Value) -> (r: Json)
    ensures
        r@ == value_contents(*v),
{
    match v {
        Value::Null => Json::Null,
        Value::Bool(b) => Json::Bool(*b),
        Value::Number(n) => match (n.as_u64(), n.as_i64()) {
            (Some(u), _) => Json::Number(JsonNumber::Unsigned(u)),
            (_, Some(i)) => Json::Number(JsonNumber::Negative(i)),
            _ => Json::Number(JsonNumber::Other(n.to_string()))
        },
        Value::String(s) => Json::Text(s.clone()),
        Value::Array(a) => Json::Array(a.iter().map(json_of).collect()),
        Value::Object(m) => Json::Object(m.iter().map(|(k, e)| (k.clone(), json_of(e))).collect()),
    }
}

/// What an optional value stands for.
pub open spec fn owned_view(o: Option<Json>) -> Option<JsonView> {
    match o {
        Some(j) => Some(j@),
        None => None,
    }
}

/// The value a text writes in JSON, or `None` when it is not JSON.
pub fn read(input: &str) -> (r: Option<Json>)
    ensures
        owned_view(r) == parsed(input@),
{
    match parse_value(input) {
        Ok(v) => Some(json_of(&v)),
        Err(_) => None,
    }
}

/// What a reading stands for.
pub open spec fn reading_view(r: Result<Json, String>) -> Result<JsonView, Seq<char>> {
    match r {
        Ok(v) => Ok(v@),
        Err(why) => Err(why@),
    }
}

/// The value a text writes in JSON, or why it is not JSON.
pub fn read_or_why(input: &str) -> (r: Result<Json, String>)
    ensures
        reading_view(r) == reading(input@),
{
    match parse_value(input) {
        Ok(v) => Ok(json_of(&v)),
        Err(why) => Err(why),
    }
}

/// The value bytes write in JSON, or why they are not JSON.
pub fn read_bytes(bytes: &[u8]) -> (r: Result<Json, String>)
    ensures
        reading_view(r) == reading_bytes(bytes@),
        reads_back(bytes@, value_of(reading_view(r))),
{
    match parse_bytes(bytes) {
        Ok(v) => Ok(json_of(&v)),
        Err(why) => Err(why),
    }
}

// ── Writing ──────────────────────────────────────────────────────────────────

/// How one character is written inside a JSON string.
pub open spec fn escaped(c: char) -> Seq<char> {
    if c == '"' {
        seq!['\\', '"']
    } else if c == '\\' {
        seq!['\\', '\\']
    } else if c == '\u{8}' {
        seq!['\\', 'b']
    } else if c == '\u{c}' {
        seq!['\\', 'f']
    } else if c == '\n' {
        seq!['\\', 'n']
    } else if c == '\r' {
        seq!['\\', 'r']
    } else if c == '\t' {
        seq!['\\', 't']
    } else if '\u{20}' > c {
        seq!['\\', 'u', '0', '0', codec::hex_digit(c as nat / 16), codec::hex_digit(c as nat % 16)]
    } else {
        seq![c]
    }
}

/// The characters of `s`, each as it is written inside a JSON string.
pub open spec fn escaped_all(s: Seq<char>) -> Seq<char>
    decreases s.len(),
{
    if s.len() == 0 {
        Seq::empty()
    } else {
        escaped_all(s.drop_last()) + escaped(s.last())
    }
}

/// `s` as a JSON string.
pub open spec fn quoted(s: Seq<char>) -> Seq<char> {
    seq!['"'] + escaped_all(s) + seq!['"']
}

/// Trusted: `serde_json::to_string` of a string slice encloses it in quotes and escapes the quote,
/// the backslash and the characters below the space.
#[verifier::external_body]
fn quote(s: &str) -> (r: String)
    ensures
        r@ == quoted(s@),
{
    serde_json::to_string(s).expect("a string slice always serializes")
}

/// The compact JSON text of a value.
pub open spec fn render(v: JsonView) -> Seq<char>
    decreases v,
{
    match v {
        JsonView::Null => "null"@,
        JsonView::Bool(b) => if b {
            "true"@
        } else {
            "false"@
        },
        JsonView::Number(NumberView::Unsigned(n)) => text::decimal(n as nat),
        JsonView::Number(NumberView::Negative(n)) => if n < 0 {
            "-"@ + text::decimal((-(n as int)) as nat)
        } else {
            text::decimal(n as nat)
        },
        JsonView::Number(NumberView::Other(s)) => s,
        JsonView::Text(s) => quoted(s),
        JsonView::Array(items) => "["@ + render_items(items) + "]"@,
        JsonView::Object(entries) => "{"@ + render_entries(entries) + "}"@,
    }
}

/// The items of an array, comma between neighbours.
pub open spec fn render_items(items: Seq<JsonView>) -> Seq<char>
    decreases items,
{
    if items.len() == 0 {
        Seq::empty()
    } else if items.len() == 1 {
        render(items[0])
    } else {
        render_items(items.drop_last()) + ","@ + render(items.last())
    }
}

/// The entries of an object, comma between neighbours.
pub open spec fn render_entries(entries: Seq<(Seq<char>, JsonView)>) -> Seq<char>
    decreases entries,
{
    if entries.len() == 0 {
        Seq::empty()
    } else if entries.len() == 1 {
        quoted(entries[0].0) + ":"@ + render(entries[0].1)
    } else {
        render_entries(entries.drop_last()) + ","@ + quoted(entries.last().0) + ":"@ + render(
            entries.last().1,
        )
    }
}

/// The compact JSON text of a value.
pub fn write(value: &Json) -> (r: String)
    ensures
        r@ == render(value@),
    decreases value,
{
    match value {
        Json::Null => "null".to_owned(),
        Json::Bool(b) => if *b {
            "true".to_owned()
        } else {
            "false".to_owned()
        },
        Json::Number(JsonNumber::Unsigned(n)) => text::decimal_of(*n),
        Json::Number(JsonNumber::Negative(n)) => if *n < 0 {
            let mut out = "-".to_owned();
            let magnitude: u64 = if *n == i64::MIN {
                9223372036854775808u64
            } else {
                (-*n) as u64
            };
            out.append(text::decimal_of(magnitude).as_str());
            out
        } else {
            text::decimal_of(*n as u64)
        },
        Json::Number(JsonNumber::Other(s)) => s.clone(),
        Json::Text(s) => quote(s.as_str()),
        Json::Array(items) => {
            let mut out = "[".to_owned();
            let ghost all = item_views(items@);
            let ghost open = out@;
            let mut i: usize = 0;
            proof {
                assert(all.take(0).len() == 0);
                assert(open + render_items(all.take(0)) =~= open);
            }
            while i < items.len()
                invariant
                    i <= items@.len(),
                    all == item_views(items@),
                    *value == Json::Array(*items),
                    out@ == open + render_items(all.take(i as int)),
                decreases items@.len() - i,
            {
                proof {
                    assert(all.take(i + 1).drop_last() =~= all.take(i as int));
                    assert(all.take(i + 1).last() == items@[i as int]@);
                    assert(decreases_to!(value => value->Array_0));
                    assert(decreases_to!(items => items@));
                    assert(decreases_to!(items@ => items@[i as int]));
                }
                let ghost before = out@;
                if i > 0 {
                    out.append(",");
                }
                out.append(write(&items[i]).as_str());
                proof {
                    let piece = render(items@[i as int]@);
                    if i > 0 {
                        assert(out@ =~= open + (render_items(all.take(i as int)) + ","@ + piece));
                    } else {
                        assert(out@ =~= open + piece);
                    }
                }
                i += 1;
            }
            out.append("]");
            proof {
                assert(all.take(all.len() as int) =~= all);
            }
            out
        },
        Json::Object(entries) => {
            let mut out = "{".to_owned();
            let ghost all = entry_views(entries@);
            let ghost open = out@;
            let mut i: usize = 0;
            proof {
                assert(all.take(0).len() == 0);
                assert(open + render_entries(all.take(0)) =~= open);
            }
            while i < entries.len()
                invariant
                    i <= entries@.len(),
                    all == entry_views(entries@),
                    *value == Json::Object(*entries),
                    out@ == open + render_entries(all.take(i as int)),
                decreases entries@.len() - i,
            {
                proof {
                    assert(all.take(i + 1).drop_last() =~= all.take(i as int));
                    assert(all.take(i + 1).last() == (
                        entries@[i as int].0@,
                        entries@[i as int].1@,
                    ));
                    assert(decreases_to!(value => value->Object_0));
                    assert(decreases_to!(entries => entries@));
                    assert(decreases_to!(entries@ => entries@[i as int]));
                    assert(decreases_to!(entries@[i as int] => entries@[i as int].1));
                }
                if i > 0 {
                    out.append(",");
                }
                out.append(quote(entries[i].0.as_str()).as_str());
                out.append(":");
                out.append(write(&entries[i].1).as_str());
                proof {
                    let key = quoted(entries@[i as int].0@);
                    let piece = render(entries@[i as int].1@);
                    if i > 0 {
                        assert(out@ =~= open + (render_entries(all.take(i as int)) + ","@ + key
                            + ":"@ + piece));
                    } else {
                        assert(out@ =~= open + (key + ":"@ + piece));
                    }
                }
                i += 1;
            }
            out.append("}");
            proof {
                assert(all.take(all.len() as int) =~= all);
            }
            out
        },
    }
}

// ── Using ────────────────────────────────────────────────────────────────────

/// The value under `key` in an object; nothing in any other value.
pub open spec fn entry(v: JsonView, key: Seq<char>) -> Option<JsonView> {
    match v {
        JsonView::Object(entries) => entry_in(entries, key),
        _ => None,
    }
}

/// The value of the first of `entries` under `key`.
pub open spec fn entry_in(entries: Seq<(Seq<char>, JsonView)>, key: Seq<char>) -> Option<JsonView>
    decreases entries.len(),
{
    if entries.len() == 0 {
        None
    } else if entries[0].0 == key {
        Some(entries[0].1)
    } else {
        entry_in(entries.drop_first(), key)
    }
}

/// The text a value is, when it is one.
pub open spec fn as_text(v: JsonView) -> Option<Seq<char>> {
    match v {
        JsonView::Text(s) => Some(s),
        _ => None,
    }
}

/// The text under `key` in an object.
pub open spec fn text_entry(v: JsonView, key: Seq<char>) -> Option<Seq<char>> {
    match entry(v, key) {
        Some(e) => as_text(e),
        None => None,
    }
}

/// What an optional value stands for.
pub open spec fn opt_view(o: Option<&Json>) -> Option<JsonView> {
    match o {
        Some(j) => Some(j@),
        None => None,
    }
}

/// The value under `key` in an object.
pub fn get<'a>(value: &'a Json, key: &str) -> (r: Option<&'a Json>)
    ensures
        opt_view(r) == entry(value@, key@),
{
    match value {
        Json::Object(entries) => {
            let ghost all = entry_views(entries@);
            let mut i: usize = 0;
            proof {
                assert(all.skip(0) =~= all);
            }
            while i < entries.len()
                invariant
                    i <= entries@.len(),
                    all == entry_views(entries@),
                    value@ == JsonView::Object(all),
                    entry_in(all.skip(i as int), key@) == entry_in(all, key@),
                decreases entries@.len() - i,
            {
                proof {
                    assert(all.skip(i as int)[0] == all[i as int]);
                }
                if text::same(entries[i].0.as_str(), key) {
                    return Some(&entries[i].1);
                }
                proof {
                    assert(all.skip(i as int).drop_first() =~= all.skip(i + 1));
                }
                i += 1;
            }
            None
        },
        _ => None,
    }
}

/// The value at a key, taken out of an object.
pub fn take(value: Json, key: &str) -> (r: Option<Json>)
    ensures
        owned_view(r) == entry(value@, key@),
{
    match value {
        Json::Object(entries) => {
            let mut entries = entries;
            let ghost all = entry_views(entries@);
            let ghost whole = entries@;
            let mut i: usize = 0;
            proof {
                assert(all.skip(0) =~= all);
            }
            while i < entries.len()
                invariant
                    i <= entries@.len(),
                    entries@ == whole,
                    all == entry_views(whole),
                    value@ == JsonView::Object(all),
                    entry_in(all.skip(i as int), key@) == entry_in(all, key@),
                decreases entries@.len() - i,
            {
                proof {
                    assert(all.skip(i as int)[0] == all[i as int]);
                    assert(all.skip(i as int).drop_first() =~= all.skip(i + 1));
                }
                if text::same(entries[i].0.as_str(), key) {
                    let found = entries.remove(i);
                    return Some(found.1);
                }
                i += 1;
            }
            None
        },
        _ => None,
    }
}

/// The text under `key` in an object.
pub fn get_text(value: &Json, key: &str) -> (r: Option<String>)
    ensures
        text::opt_text(r) == text_entry(value@, key@),
{
    match get(value, key) {
        Some(Json::Text(s)) => Some(s.clone()),
        _ => None,
    }
}

/// A copy of a number.
pub fn clone_number(n: &JsonNumber) -> (r: JsonNumber)
    ensures
        r@ == n@,
{
    match n {
        JsonNumber::Unsigned(u) => JsonNumber::Unsigned(*u),
        JsonNumber::Negative(i) => JsonNumber::Negative(*i),
        JsonNumber::Other(s) => JsonNumber::Other(s.clone()),
    }
}

/// No entries, for an object to be written out from.
pub open spec fn none() -> Seq<(Seq<char>, JsonView)> {
    Seq::empty()
}

/// An object without entries.
pub fn empty_object() -> (r: Json)
    ensures
        r is Object,
        r@ == JsonView::Object(none()),
{
    let entries: Vec<(String, Json)> = Vec::new();
    proof {
        assert(entry_views(entries@) =~= Seq::<(Seq<char>, JsonView)>::empty());
    }
    Json::Object(entries)
}

/// An object with one more entry at its end.
pub fn with(object: Json, key: &str, value: Json) -> (r: Json)
    requires
        object is Object,
    ensures
        r is Object,
        r@ == JsonView::Object(object@->Object_0.push((key@, value@))),
{
    match object {
        Json::Object(mut entries) => {
            let ghost before = entries@;
            let ghost added = (key@, value@);
            entries.push((key.to_owned(), value));
            proof {
                assert(entry_views(entries@) =~= entry_views(before).push(added));
            }
            Json::Object(entries)
        },
        other => other,
    }
}

/// An array without items.
pub fn empty_array() -> (r: Json)
    ensures
        r is Array,
        r@ == JsonView::Array(Seq::empty()),
{
    let items: Vec<Json> = Vec::new();
    proof {
        assert(item_views(items@) =~= Seq::<JsonView>::empty());
    }
    Json::Array(items)
}

/// An array with one more item at its end.
pub fn with_item(array: Json, value: Json) -> (r: Json)
    requires
        array is Array,
    ensures
        r is Array,
        r@ == JsonView::Array(array@->Array_0.push(value@)),
{
    match array {
        Json::Array(mut items) => {
            let ghost before = items@;
            let ghost added = value@;
            items.push(value);
            proof {
                assert(item_views(items@) =~= item_views(before).push(added));
            }
            Json::Array(items)
        },
        other => other,
    }
}

/// An optional text as a JSON value: null when it is absent.
pub open spec fn nullable(o: Option<Seq<char>>) -> JsonView {
    match o {
        Some(s) => JsonView::Text(s),
        None => JsonView::Null,
    }
}

/// An optional text as a JSON value.
pub fn nullable_text(o: &Option<String>) -> (r: Json)
    ensures
        r@ == nullable(text::opt_text(*o)),
{
    match o {
        Some(s) => Json::Text(s.clone()),
        None => Json::Null,
    }
}

/// A text as a JSON value.
pub fn text_value(s: &str) -> (r: Json)
    ensures
        r@ == JsonView::Text(s@),
{
    Json::Text(s.to_owned())
}

/// An unsigned integer as a JSON value.
pub fn number(n: u64) -> (r: Json)
    ensures
        r@ == JsonView::Number(NumberView::Unsigned(n)),
{
    Json::Number(JsonNumber::Unsigned(n))
}

/// The first entry under a key counts, an entry added under a new key is found there, and every
/// other key is as before.
pub proof fn the_first_entry_under_a_key_counts(
    entries: Seq<(Seq<char>, JsonView)>,
    key: Seq<char>,
    value: JsonView,
    other: Seq<char>,
    i: int,
)
    ensures
        0 <= i < entries.len() && entries[i].0 == key && (forall|j: int|
            0 <= j < i ==> (#[trigger] entries[j]).0 != key) ==> entry(
            JsonView::Object(entries),
            key,
        ) == Some(entries[i].1),
        entry(JsonView::Object(entries), key) is None ==> entry(
            JsonView::Object(entries.push((key, value))),
            key,
        ) == Some(value),
        other != key ==> entry(JsonView::Object(entries.push((key, value))), other) == entry(
            JsonView::Object(entries),
            other,
        ),
        (forall|j: int| 0 <= j < entries.len() ==> (#[trigger] entries[j]).0 != key) ==> entry(
            JsonView::Object(entries),
            key,
        ) is None,
    decreases entries.len(),
{
    let longer = entries.push((key, value));
    if entries.len() > 0 {
        let rest = entries.drop_first();
        the_first_entry_under_a_key_counts(rest, key, value, other, i - 1);
        assert(longer.drop_first() =~= rest.push((key, value)));
        assert(longer[0] == entries[0]);
        assert(forall|j: int| 0 <= j < rest.len() ==> rest[j] == entries[j + 1]);
        if 0 < i < entries.len() && entries[i].0 == key && (forall|j: int|
            0 <= j < i ==> (#[trigger] entries[j]).0 != key) {
            assert(entries[0].0 != key);
            assert(rest[i - 1] == entries[i]);
        }
        if forall|j: int| 0 <= j < entries.len() ==> (#[trigger] entries[j]).0 != key {
            assert(entries[0].0 != key);
        }
    } else {
        assert(longer[0] == (key, value));
        assert(longer.drop_first() =~= none());
        assert(entry_in(none(), other) is None);
    }
}

/// A text is written character by character between two quotes: a quote and a backslash behind a
/// backslash, a control character by its letter or its number, and every other as it stands.
pub proof fn a_text_is_written_character_by_character(front: Seq<char>, c: char)
    ensures
        render(JsonView::Text(front)) == seq!['"'] + escaped_all(front) + seq!['"'],
        escaped_all(front.push(c)) == escaped_all(front) + escaped(c),
        escaped_all(Seq::empty()).len() == 0,
        c >= ' ' && c != '"' && c != '\\' ==> escaped(c) == seq![c],
        c == '"' || c == '\\' ==> escaped(c) == seq!['\\', c],
        c == '\n' ==> escaped(c) == seq!['\\', 'n'],
        c == '\r' ==> escaped(c) == seq!['\\', 'r'],
        c == '\t' ==> escaped(c) == seq!['\\', 't'],
        c == '\u{8}' ==> escaped(c) == seq!['\\', 'b'],
        c == '\u{c}' ==> escaped(c) == seq!['\\', 'f'],
        ' ' > c ==> escaped(c).len() == 2 || (escaped(c).len() == 6 && escaped(c).take(4) == seq![
            '\\',
            'u',
            '0',
            '0',
        ] && codec::digit_worth(escaped(c)[4]) * 16 + codec::digit_worth(escaped(c)[5])
            == c as int),
{
    assert(front.push(c).drop_last() =~= front);
    if ' ' > c {
        assert(escaped(c).len() == 6 ==> escaped(c).take(4) =~= seq!['\\', 'u', '0', '0']);
    }
}

/// An array is written item by item and an object entry by entry, with a comma between two of them.
pub proof fn a_value_is_written_part_by_part(
    items: Seq<JsonView>,
    entries: Seq<(Seq<char>, JsonView)>,
    key: Seq<char>,
    v: JsonView,
    n: i64,
)
    ensures
        render(JsonView::Array(items)) == seq!['['] + render_items(items) + seq![']'],
        render_items(items.push(v)) == (if items.len() == 0 {
            render(v)
        } else {
            render_items(items) + seq![','] + render(v)
        }),
        render(JsonView::Object(entries)) == seq!['{'] + render_entries(entries) + seq!['}'],
        render_entries(entries.push((key, v))) == (if entries.len() == 0 {
            Seq::empty()
        } else {
            render_entries(entries) + seq![',']
        }) + (render(JsonView::Text(key)) + seq![':'] + render(v)),
        render_items(Seq::empty()).len() == 0,
        render_entries(Seq::empty()).len() == 0,
        render(JsonView::Bool(true)) == "true"@,
        render(JsonView::Bool(false)) == "false"@,
        render(JsonView::Null) == "null"@,
        n < 0 ==> render(JsonView::Number(NumberView::Negative(n))) == seq!['-'] + text::decimal(
            (-(n as int)) as nat,
        ),
{
    reveal_strlit("[");
    reveal_strlit("]");
    reveal_strlit("{");
    reveal_strlit("}");
    reveal_strlit(",");
    reveal_strlit(":");
    reveal_strlit("-");
    assert("["@ =~= seq!['['] && "]"@ =~= seq![']'] && "{"@ =~= seq!['{'] && "}"@ =~= seq!['}']);
    assert(","@ =~= seq![','] && ":"@ =~= seq![':'] && "-"@ =~= seq!['-']);
    assert(items.push(v).drop_last() =~= items);
    assert(items.push(v).last() == v);
    assert(entries.push((key, v)).drop_last() =~= entries);
    assert(entries.push((key, v)).last() == (key, v));
    let piece = render(JsonView::Text(key)) + seq![':'] + render(v);
    if entries.len() == 0 {
        assert(Seq::<char>::empty() + piece =~= piece);
    } else {
        assert(render_entries(entries.push((key, v))) =~= render_entries(entries) + seq![',']
            + piece);
    }
}

} // verus!
