//! A JSON object read entry by entry: its keys in the order written, with the bytes of each value.
//!
//! A value under a key that nobody asks for is skipped and never read, so it may be anything that
//! can be skipped; a key that stands twice is seen twice.

use crate::codec;
use crate::json;
use crate::json::{Json, JsonView};
use crate::text;
use vstd::prelude::*;
use vstd::slice::slice_subrange;

verus! {

pub const QUOTE: u8 = 34;

pub const COMMA: u8 = 44;

pub const COLON: u8 = 58;

pub const OPEN: u8 = 123;

pub const CLOSE: u8 = 125;

// ── What bytes write ─────────────────────────────────────────────────────────

/// A byte that may stand between the parts of a JSON text.
pub open spec fn is_blank(b: u8) -> bool {
    b == 32 || b == 10 || b == 9 || b == 13
}

/// Past the blanks at `i`.
pub open spec fn past_blanks(bytes: Seq<u8>, i: int) -> int
    decreases bytes.len() - i,
{
    if 0 <= i < bytes.len() && is_blank(bytes[i]) {
        past_blanks(bytes, i + 1)
    } else {
        i
    }
}

/// Whether `b` stands at `i`.
pub open spec fn stands(bytes: Seq<u8>, i: int, b: u8) -> bool {
    0 <= i < bytes.len() && bytes[i] == b
}

/// The key that begins at `i`, and where it ends.
pub open spec fn key_at(bytes: Seq<u8>, i: int) -> Option<(Seq<char>, int)> {
    if stands(bytes, i, QUOTE) {
        match json::value_end(bytes.skip(i)) {
            Some(n) => match json::reading_bytes(bytes.subrange(i, i + n)) {
                Ok(JsonView::Text(key)) => Some((key, i + n)),
                _ => None,
            },
            None => None,
        }
    } else {
        None
    }
}

/// The entry that begins at `i`: its key, the bytes of its value, and where it ends.
pub open spec fn entry_at(bytes: Seq<u8>, i: int) -> Option<(Seq<char>, Seq<u8>, int)> {
    match key_at(bytes, i) {
        Some((key, end)) => {
            let colon = past_blanks(bytes, end);
            if stands(bytes, colon, COLON) {
                match json::value_end(bytes.skip(colon + 1)) {
                    Some(n) => Some(
                        (key, bytes.subrange(colon + 1, colon + 1 + n), colon + 1 + n),
                    ),
                    None => None,
                }
            } else {
                None
            }
        },
        None => None,
    }
}

/// The entries from `i` to the brace that closes the object, behind which only blanks stand. An
/// entry that is not the first stands behind a comma.
pub open spec fn entries_from(bytes: Seq<u8>, i: int, first: bool) -> Option<
    Seq<(Seq<char>, Seq<u8>)>,
>
    decreases bytes.len() - i,
{
    let at = past_blanks(bytes, i);
    if stands(bytes, at, CLOSE) {
        if past_blanks(bytes, at + 1) == bytes.len() {
            Some(Seq::empty())
        } else {
            None
        }
    } else if !first && !stands(bytes, at, COMMA) {
        None
    } else {
        let start = if first {
            at
        } else {
            past_blanks(bytes, at + 1)
        };
        match entry_at(bytes, start) {
            Some((key, value, end)) => if i < end <= bytes.len() {
                match entries_from(bytes, end, false) {
                    Some(rest) => Some(seq![(key, value)] + rest),
                    None => None,
                }
            } else {
                None
            },
            None => None,
        }
    }
}

/// Whether bytes begin with an object, as far as their first byte that is no blank tells.
pub open spec fn opens(bytes: Seq<u8>) -> bool {
    stands(bytes, past_blanks(bytes, 0), OPEN)
}

/// The entries of the object that bytes write; nothing when they write none.
pub open spec fn entries_of(bytes: Seq<u8>) -> Option<Seq<(Seq<char>, Seq<u8>)>> {
    if opens(bytes) {
        entries_from(bytes, past_blanks(bytes, 0) + 1, true)
    } else {
        None
    }
}

/// The values under `key`, in order.
pub open spec fn values_under(entries: Seq<(Seq<char>, Seq<u8>)>, key: Seq<char>) -> Seq<Seq<u8>>
    decreases entries.len(),
{
    if entries.len() == 0 {
        Seq::empty()
    } else {
        let before = values_under(entries.drop_last(), key);
        if entries.last().0 == key {
            before.push(entries.last().1)
        } else {
            before
        }
    }
}

/// The value of the only entry under `key`; nothing when there is none or more than one, or when
/// its bytes cannot be read.
pub open spec fn field(entries: Seq<(Seq<char>, Seq<u8>)>, key: Seq<char>) -> Option<JsonView> {
    let values = values_under(entries, key);
    if values.len() == 1 {
        json::value_of(json::reading_bytes(values[0]))
    } else {
        None
    }
}

// ── What an object is written as ─────────────────────────────────────────────

/// The bytes of an entry in compact form.
pub open spec fn entry_bytes(key: Seq<char>, v: JsonView) -> Seq<u8> {
    codec::utf8(json::render(JsonView::Text(key))) + seq![COLON] + codec::utf8(json::render(v))
}

/// The bytes of an object in compact form from its `k`th entry on.
pub open spec fn tail_bytes(all: Seq<(Seq<char>, JsonView)>, k: int) -> Seq<u8>
    decreases all.len() - k,
{
    if k < 0 || k >= all.len() {
        seq![CLOSE]
    } else {
        (if k > 0 {
            seq![COMMA]
        } else {
            Seq::empty()
        }) + (entry_bytes(all[k].0, all[k].1) + tail_bytes(all, k + 1))
    }
}

/// Whether `bytes` are an object of texts and 64-bit unsigned integers in compact form.
pub open spec fn written(bytes: Seq<u8>, all: Seq<(Seq<char>, JsonView)>) -> bool {
    &&& bytes == codec::utf8(json::render(JsonView::Object(all)))
    &&& forall|i: int| 0 <= i < all.len() ==> json::is_plain((#[trigger] all[i]).1)
}

/// The keys of entries, with the bytes their values are written as.
pub open spec fn raw(all: Seq<(Seq<char>, JsonView)>) -> Seq<(Seq<char>, Seq<u8>)> {
    all.map_values(|e: (Seq<char>, JsonView)| (e.0, codec::utf8(json::render(e.1))))
}

proof fn lemma_entry_bytes(key: Seq<char>, v: JsonView)
    ensures
        codec::utf8(json::quoted(key) + ":"@ + json::render(v)) == entry_bytes(key, v),
        entry_bytes(key, v).len() > 0,
        entry_bytes(key, v)[0] == QUOTE,
{
    reveal_strlit(":");
    assert(":"@ =~= seq![':']);
    codec::one_byte(':');
    codec::bytes_follow(json::quoted(key) + ":"@, json::render(v));
    codec::bytes_follow(json::quoted(key), ":"@);
    let inner = json::escaped_all(key) + seq!['"'];
    assert(json::quoted(key) =~= seq!['"'] + inner);
    codec::one_byte('"');
    codec::bytes_follow(seq!['"'], inner);
}

/// The first `k` entries in compact form, then the rest of the object.
proof fn lemma_tail(all: Seq<(Seq<char>, JsonView)>, k: int)
    requires
        0 <= k <= all.len(),
    ensures
        codec::utf8(json::render_entries(all)) + seq![CLOSE] == codec::utf8(
            json::render_entries(all.take(k)),
        ) + tail_bytes(all, k),
    decreases all.len() - k,
{
    if k == all.len() {
        assert(all.take(k) =~= all);
    } else {
        lemma_tail(all, k + 1);
        let before = json::render_entries(all.take(k));
        let next = all.take(k + 1);
        let piece = json::quoted(all[k].0) + ":"@ + json::render(all[k].1);
        assert(next.drop_last() =~= all.take(k));
        assert(next.last() == all[k]);
        lemma_entry_bytes(all[k].0, all[k].1);
        let rest = tail_bytes(all, k + 1);
        if k == 0 {
            assert(next[0] == all[0]);
            assert(json::render_entries(next) == piece);
            assert(before.len() == 0);
            assert(codec::utf8(before) =~= Seq::<u8>::empty());
            assert(codec::utf8(before) + tail_bytes(all, k) =~= entry_bytes(all[k].0, all[k].1)
                + rest);
        } else {
            reveal_strlit(",");
            assert(","@ =~= seq![',']);
            codec::one_byte(',');
            assert(json::render_entries(next) =~= before + ","@ + piece);
            codec::bytes_follow(before + ","@, piece);
            codec::bytes_follow(before, ","@);
            assert(codec::utf8(before) + tail_bytes(all, k) =~= codec::utf8(before) + seq![COMMA]
                + entry_bytes(all[k].0, all[k].1) + rest);
        }
    }
}

proof fn lemma_written(all: Seq<(Seq<char>, JsonView)>)
    ensures
        codec::utf8(json::render(JsonView::Object(all))) == seq![OPEN] + tail_bytes(all, 0),
{
    reveal_strlit("{");
    reveal_strlit("}");
    assert("{"@ =~= seq!['{'] && "}"@ =~= seq!['}']);
    codec::one_byte('{');
    codec::one_byte('}');
    let inner = json::render_entries(all);
    codec::bytes_follow("{"@ + inner, "}"@);
    codec::bytes_follow("{"@, inner);
    lemma_tail(all, 0);
    assert(all.take(0).len() == 0);
    assert(codec::utf8(json::render_entries(all.take(0))) =~= Seq::<u8>::empty());
    assert(codec::utf8(json::render(JsonView::Object(all))) =~= seq![OPEN] + (codec::utf8(inner)
        + seq![CLOSE]));
    assert(codec::utf8(inner) + seq![CLOSE] =~= tail_bytes(all, 0));
}

/// What an object is written as begins with its brace.
pub proof fn an_object_opens(all: Seq<(Seq<char>, JsonView)>)
    ensures
        opens(codec::utf8(json::render(JsonView::Object(all)))),
        json::render(JsonView::Object(all)).len() > 0,
{
    lemma_written(all);
    reveal_strlit("{");
    let bytes = codec::utf8(json::render(JsonView::Object(all)));
    assert(bytes[0] == OPEN);
    assert(past_blanks(bytes, 0) == 0);
}

// ── Reading ──────────────────────────────────────────────────────────────────

fn skip_blanks(bytes: &[u8], from: usize) -> (r: usize)
    requires
        from <= bytes@.len(),
    ensures
        from <= r <= bytes@.len(),
        r == past_blanks(bytes@, from as int),
{
    let mut i: usize = from;
    while i < bytes.len() && (bytes[i] == 32 || bytes[i] == 10 || bytes[i] == 9 || bytes[i] == 13)
        invariant
            from <= i <= bytes@.len(),
            past_blanks(bytes@, i as int) == past_blanks(bytes@, from as int),
        decreases bytes@.len() - i,
    {
        i += 1;
    }
    i
}

fn is_at(bytes: &[u8], i: usize, b: u8) -> (r: bool)
    ensures
        r == stands(bytes@, i as int, b),
{
    i < bytes.len() && bytes[i] == b
}

/// What an entry stands for.
pub open spec fn entry_view(o: Option<(String, Vec<u8>, usize)>) -> Option<
    (Seq<char>, Seq<u8>, int),
> {
    match o {
        Some(e) => Some((e.0@, e.1@, e.2 as int)),
        None => None,
    }
}

/// What the entries of an object stand for.
pub open spec fn views(v: Seq<(String, Vec<u8>)>) -> Seq<(Seq<char>, Seq<u8>)> {
    v.map_values(|e: (String, Vec<u8>)| (e.0@, e.1@))
}

/// The bytes from `i` to `j`, on their own.
fn copied(bytes: &[u8], i: usize, j: usize) -> (r: Vec<u8>)
    requires
        i <= j <= bytes@.len(),
    ensures
        r@ == bytes@.subrange(i as int, j as int),
{
    let mut out: Vec<u8> = Vec::new();
    codec::append(&mut out, slice_subrange(bytes, i, j));
    proof {
        assert(out@ =~= bytes@.subrange(i as int, j as int));
    }
    out
}

/// The entry that begins at `i`.
fn read_entry(bytes: &[u8], i: usize) -> (r: Option<(String, Vec<u8>, usize)>)
    requires
        i <= bytes@.len(),
    ensures
        entry_view(r) == entry_at(bytes@, i as int),
        r is Some ==> i < (r->0).2 <= bytes@.len(),
        forall|key: Seq<char>, v: JsonView, rest: Seq<u8>|
            json::is_plain(v) && json::is_set_off(v, rest) && bytes@.skip(i as int)
                == #[trigger] (entry_bytes(key, v) + rest) ==> entry_view(r) == Some(
                (key, codec::utf8(json::render(v)), bytes@.len() - rest.len()),
            ),
{
    let total: usize = bytes.len();
    let ghost from = bytes@.skip(i as int);
    if !is_at(bytes, i, QUOTE) {
        proof {
            assert forall|key: Seq<char>, v: JsonView, rest: Seq<u8>|
                from == #[trigger] (entry_bytes(key, v) + rest) implies false by {
                lemma_entry_bytes(key, v);
                assert(from.len() == bytes@.len() - i);
                assert(from[0] == (entry_bytes(key, v) + rest)[0]);
                assert(bytes@[i as int] == from[0]);
            }
        }
        return None;
    }
    let tail = slice_subrange(bytes, i, total);
    proof {
        assert(tail@ =~= from);
    }
    let end = json::skip_value(tail);
    proof {
        assert forall|key: Seq<char>, v: JsonView, rest: Seq<u8>|
            from == #[trigger] (entry_bytes(key, v) + rest) implies end is Some && end->0
            == codec::utf8(json::render(JsonView::Text(key))).len() by {
            let more = seq![COLON] + codec::utf8(json::render(v)) + rest;
            assert(from =~= codec::utf8(json::render(JsonView::Text(key))) + more);
        }
    }
    let n: usize = match end {
        Some(n) => n,
        None => return None,
    };
    let word = slice_subrange(bytes, i, i + n);
    let reading = json::read_bytes(word);
    proof {
        assert forall|key: Seq<char>, v: JsonView, rest: Seq<u8>|
            from == #[trigger] (entry_bytes(key, v) + rest) implies json::reading_view(reading)
            == Ok::<JsonView, Seq<char>>(JsonView::Text(key)) by {
            let form = codec::utf8(json::render(JsonView::Text(key)));
            assert(word@ =~= from.take(n as int));
            assert(from.take(n as int) =~= form);
            assert(json::is_plain(JsonView::Text(key)));
        }
    }
    let key = match reading {
        Ok(Json::Text(key)) => key,
        _ => return None,
    };
    let colon: usize = skip_blanks(bytes, i + n);
    let ghost known = key@;
    proof {
        assert forall|key: Seq<char>, v: JsonView, rest: Seq<u8>|
            from == #[trigger] (entry_bytes(key, v) + rest) implies key == known && colon == i + n
            && stands(bytes@, colon as int, COLON) && bytes@.skip(colon + 1) == codec::utf8(
            json::render(v),
        ) + rest by {
            assert(from[n as int] == COLON);
            assert(bytes@[i + n] == COLON);
            assert(bytes@.skip(i + n + 1) =~= from.skip(n + 1));
            assert(from.skip(n + 1) =~= codec::utf8(json::render(v)) + rest);
        }
    }
    if !is_at(bytes, colon, COLON) {
        return None;
    }
    let behind = slice_subrange(bytes, colon + 1, total);
    proof {
        assert(behind@ =~= bytes@.skip(colon + 1));
    }
    let m: usize = match json::skip_value(behind) {
        Some(m) => m,
        None => {
            proof {
                assert forall|key: Seq<char>, v: JsonView, rest: Seq<u8>|
                    json::is_plain(v) && json::is_set_off(v, rest) && from == #[trigger] (
                    entry_bytes(key, v) + rest) implies false by {
                    assert(behind@ == codec::utf8(json::render(v)) + rest);
                }
            }
            return None;
        },
    };
    let value = copied(bytes, colon + 1, colon + 1 + m);
    proof {
        assert forall|key: Seq<char>, v: JsonView, rest: Seq<u8>|
            json::is_plain(v) && json::is_set_off(v, rest) && from == #[trigger] (entry_bytes(
                key,
                v,
            ) + rest) implies key == known && value@ == codec::utf8(json::render(v)) && colon + 1
            + m == bytes@.len() - rest.len() by {
            assert(behind@ == codec::utf8(json::render(v)) + rest);
            assert(value@ =~= behind@.take(m as int));
            assert(behind@.take(m as int) =~= codec::utf8(json::render(v)));
        }
    }
    Some((key, value, colon + 1 + m))
}

/// Whether bytes begin with an object, as far as their first byte that is no blank tells.
pub fn opens_object(bytes: &[u8]) -> (r: bool)
    ensures
        r == opens(bytes@),
{
    is_at(bytes, skip_blanks(bytes, 0), OPEN)
}

/// What the entries of an object stand for, when there is one.
pub open spec fn entries_view(o: Option<Vec<(String, Vec<u8>)>>) -> Option<
    Seq<(Seq<char>, Seq<u8>)>,
> {
    match o {
        Some(v) => Some(views(v@)),
        None => None,
    }
}

/// What is left to read of an object in compact form once `done` of its entries are.
spec fn left_of(bytes: Seq<u8>, all: Seq<(Seq<char>, JsonView)>, i: int, done: Seq<
    (Seq<char>, Seq<u8>),
>) -> bool {
    &&& done.len() <= all.len()
    &&& done == raw(all).take(done.len() as int)
    &&& 0 <= i <= bytes.len()
    &&& bytes.skip(i) == tail_bytes(all, done.len() as int)
}

/// The entries of the object that bytes write. What an object of texts and 64-bit unsigned integers
/// is written as gives its entries back.
pub fn read_entries(bytes: &[u8]) -> (r: Option<Vec<(String, Vec<u8>)>>)
    ensures
        entries_view(r) == entries_of(bytes@),
        forall|all: Seq<(Seq<char>, JsonView)>| #[trigger]
            written(bytes@, all) ==> entries_view(r) == Some(raw(all)),
{
    let total: usize = bytes.len();
    let start: usize = skip_blanks(bytes, 0);
    proof {
        assert forall|all: Seq<(Seq<char>, JsonView)>| #[trigger]
            written(bytes@, all) implies start == 0 && stands(bytes@, 0, OPEN) && left_of(
            bytes@,
            all,
            1,
            Seq::empty(),
        ) by {
            lemma_written(all);
            assert(bytes@[0] == OPEN);
            assert(raw(all).take(0) =~= Seq::empty());
            assert(bytes@.skip(1) =~= tail_bytes(all, 0));
        }
    }
    if !is_at(bytes, start, OPEN) {
        return None;
    }
    let mut i: usize = start + 1;
    let mut first: bool = true;
    let mut out: Vec<(String, Vec<u8>)> = Vec::new();
    proof {
        assert(views(out@) =~= Seq::empty());
        let rest = entries_from(bytes@, i as int, true);
        if rest is Some {
            assert(views(out@) + rest->0 =~= rest->0);
        }
    }
    loop
        invariant
            i <= bytes@.len() == total,
            first == (out@.len() == 0),
            entries_of(bytes@) == (match entries_from(bytes@, i as int, first) {
                Some(rest) => Some(views(out@) + rest),
                None => None,
            }),
            forall|all: Seq<(Seq<char>, JsonView)>| #[trigger]
                written(bytes@, all) ==> left_of(bytes@, all, i as int, views(out@)),
        decreases bytes@.len() - i,
    {
        let ghost done = views(out@);
        let ghost k: int = done.len() as int;
        let at: usize = skip_blanks(bytes, i);
        proof {
            assert(done.len() == out@.len());
            assert forall|all: Seq<(Seq<char>, JsonView)>| #[trigger]
                written(bytes@, all) implies at == i && comes_next(
                bytes@,
                all,
                i as int,
                k,
            ) by {
                lemma_comes_next(bytes@, all, i as int, done);
            }
        }
        if is_at(bytes, at, CLOSE) {
            if skip_blanks(bytes, at + 1) < total {
                return None;
            }
            proof {
                assert(done + Seq::<(Seq<char>, Seq<u8>)>::empty() =~= done);
                assert forall|all: Seq<(Seq<char>, JsonView)>| #[trigger]
                    written(bytes@, all) implies done == raw(all) by {
                    assert(comes_next(bytes@, all, i as int, k));
                    assert(raw(all).take(all.len() as int) =~= raw(all));
                }
            }
            return Some(out);
        }
        if !first && !is_at(bytes, at, COMMA) {
            return None;
        }
        let from: usize = if first {
            at
        } else {
            skip_blanks(bytes, at + 1)
        };
        let entry = read_entry(bytes, from);
        proof {
            assert forall|all: Seq<(Seq<char>, JsonView)>| #[trigger]
                written(bytes@, all) implies k < all.len() && entry_view(entry) == Some(
                (
                    raw(all)[k].0,
                    raw(all)[k].1,
                    bytes@.len() - tail_bytes(all, k + 1).len(),
                ),
            ) && bytes@.skip(bytes@.len() - tail_bytes(all, k + 1).len()) == tail_bytes(
                all,
                k + 1,
            ) by {
                assert(comes_next(bytes@, all, i as int, k));
                let rest = tail_bytes(all, k + 1);
                let piece = entry_bytes(all[k].0, all[k].1);
                assert(json::is_plain(all[k].1));
                assert(bytes@.skip(from as int) == piece + rest);
                assert(rest[0] == COMMA || rest[0] == CLOSE);
                assert(json::is_set_off(all[k].1, rest));
                assert(bytes@.skip(bytes@.len() - rest.len()) =~= (piece + rest).skip(
                    piece.len() as int,
                ));
                assert((piece + rest).skip(piece.len() as int) =~= rest);
            }
        }
        match entry {
            Some((key, value, end)) => {
                let ghost added = (key@, value@);
                out.push((key, value));
                proof {
                    assert(views(out@) =~= done.push(added));
                    let rest = entries_from(bytes@, end as int, false);
                    if rest is Some {
                        assert(done + (seq![added] + rest->0) =~= views(out@) + rest->0);
                    }
                    assert forall|all: Seq<(Seq<char>, JsonView)>| #[trigger]
                        written(bytes@, all) implies left_of(
                        bytes@,
                        all,
                        end as int,
                        views(out@),
                    ) by {
                        assert(raw(all).take(k + 1) =~= raw(all).take(
                            k,
                        ).push(raw(all)[k]));
                    }
                }
                i = end;
                first = false;
            },
            None => return None,
        }
    }
}

/// What stands at `i` in an object in compact form, before its `k`th entry.
spec fn comes_next(bytes: Seq<u8>, all: Seq<(Seq<char>, JsonView)>, i: int, k: int) -> bool {
    if k >= all.len() {
        stands(bytes, i, CLOSE) && i + 1 == bytes.len() && k == all.len()
    } else {
        let start = if k == 0 {
            i
        } else {
            i + 1
        };
        let rest = tail_bytes(all, k + 1);
        &&& k > 0 ==> stands(bytes, i, COMMA)
        &&& !stands(bytes, i, CLOSE)
        &&& past_blanks(bytes, start) == start
        &&& 0 <= start <= bytes.len()
        &&& bytes.skip(start) == entry_bytes(all[k].0, all[k].1) + rest
        &&& rest.len() > 0
        &&& rest[0] == COMMA || rest[0] == CLOSE
        &&& rest.len() <= bytes.len() - start
    }
}

proof fn lemma_comes_next(bytes: Seq<u8>, all: Seq<(Seq<char>, JsonView)>, i: int, done: Seq<
    (Seq<char>, Seq<u8>),
>)
    requires
        left_of(bytes, all, i, done),
    ensures
        comes_next(bytes, all, i, done.len() as int),
        past_blanks(bytes, i) == i,
{
    let k = done.len() as int;
    let tail = tail_bytes(all, k);
    assert(bytes.skip(i).len() == bytes.len() - i);
    if k >= all.len() {
        assert(tail[0] == CLOSE);
        assert(bytes[i] == bytes.skip(i)[0]);
    } else {
        let piece = entry_bytes(all[k].0, all[k].1);
        let rest = tail_bytes(all, k + 1);
        lemma_entry_bytes(all[k].0, all[k].1);
        assert(rest.len() > 0 && (rest[0] == COMMA || rest[0] == CLOSE));
        assert(bytes[i] == tail[0]);
        if k == 0 {
            assert(tail =~= piece + rest);
            assert(bytes.skip(i) == piece + rest);
            assert(tail[0] == QUOTE);
        } else {
            assert(tail[0] == COMMA);
            assert(tail[1] == QUOTE);
            assert(bytes[i + 1] == bytes.skip(i)[1]);
            assert(bytes.skip(i + 1) =~= bytes.skip(i).skip(1));
            assert(tail.skip(1) =~= piece + rest);
        }
    }
}

/// The value of the only entry under `key`. A text or a 64-bit unsigned integer is given back from
/// what it is written as.
pub fn read_field(entries: &Vec<(String, Vec<u8>)>, key: &str) -> (r: Option<Json>)
    ensures
        json::owned_view(r) == field(views(entries@), key@),
        forall|v: JsonView|
            json::is_plain(v) && values_under(views(entries@), key@) == seq![
                codec::utf8(#[trigger] json::render(v)),
            ] ==> json::owned_view(r) == Some(v),
{
    let ghost all = views(entries@);
    let mut found: Option<usize> = None;
    let mut repeated: bool = false;
    let mut i: usize = 0;
    while i < entries.len()
        invariant
            i <= entries@.len(),
            all == views(entries@),
            match found {
                Some(at) => at < entries@.len() && values_under(all.take(i as int), key@).len() >= 1
                    && values_under(all.take(i as int), key@)[0] == entries@[at as int].1@,
                None => values_under(all.take(i as int), key@).len() == 0,
            },
            repeated == (values_under(all.take(i as int), key@).len() > 1),
        decreases entries@.len() - i,
    {
        proof {
            assert(all.take(i + 1).drop_last() =~= all.take(i as int));
            assert(all.take(i + 1).last() == (entries@[i as int].0@, entries@[i as int].1@));
        }
        if text::same(entries[i].0.as_str(), key) {
            if found.is_some() {
                repeated = true;
            } else {
                found = Some(i);
            }
        }
        i += 1;
    }
    proof {
        assert(all.take(all.len() as int) =~= all);
    }
    if repeated {
        return None;
    }
    match found {
        Some(at) => match json::read_bytes(entries[at].1.as_slice()) {
            Ok(v) => Some(v),
            Err(_) => None,
        },
        None => None,
    }
}

// ── Laws ─────────────────────────────────────────────────────────────────────

/// Spaces, tabs and line ends are passed over, and nothing else is.
pub proof fn blanks_are_passed_over(bytes: Seq<u8>, i: int)
    requires
        0 <= i <= bytes.len(),
    ensures
        i <= past_blanks(bytes, i) <= bytes.len(),
        forall|j: int|
            i <= j < past_blanks(bytes, i) ==> #[trigger] bytes[j] == 32 || bytes[j] == 9
                || bytes[j] == 10 || bytes[j] == 13,
        past_blanks(bytes, i) < bytes.len() ==> {
            let b = bytes[past_blanks(bytes, i)];
            b != 32 && b != 9 && b != 10 && b != 13
        },
    decreases bytes.len() - i,
{
    if i < bytes.len() && is_blank(bytes[i]) {
        blanks_are_passed_over(bytes, i + 1);
    }
}

/// What gives entries stands between two braces: only blanks stand before the first and behind the
/// last.
pub proof fn an_object_stands_between_its_braces(bytes: Seq<u8>)
    requires
        entries_of(bytes) is Some,
    ensures
        exists|open: int, close: int| #[trigger] encloses(bytes, open, close),
{
    blanks_are_passed_over(bytes, 0);
    let open = past_blanks(bytes, 0);
    lemma_closes(bytes, open + 1, true);
    let close = choose|close: int| #[trigger] closes(bytes, open + 1, close);
    assert(encloses(bytes, open, close));
}

/// Whether a brace opens at `open` and one closes at `close`, with only blanks outside them.
pub open spec fn encloses(bytes: Seq<u8>, open: int, close: int) -> bool {
    &&& 0 <= open < close < bytes.len()
    &&& bytes[open] == 123 && bytes[close] == 125
    &&& forall|j: int| 0 <= j < open || close < j < bytes.len() ==> is_blank(#[trigger] bytes[j])
}

spec fn closes(bytes: Seq<u8>, from: int, close: int) -> bool {
    &&& from <= close < bytes.len()
    &&& bytes[close] == CLOSE
    &&& forall|j: int| close < j < bytes.len() ==> is_blank(#[trigger] bytes[j])
}

proof fn lemma_closes(bytes: Seq<u8>, i: int, first: bool)
    requires
        0 <= i <= bytes.len(),
        entries_from(bytes, i, first) is Some,
    ensures
        exists|close: int| #[trigger] closes(bytes, i, close),
    decreases bytes.len() - i,
{
    blanks_are_passed_over(bytes, i);
    let at = past_blanks(bytes, i);
    if stands(bytes, at, CLOSE) {
        blanks_are_passed_over(bytes, at + 1);
        assert(closes(bytes, i, at));
    } else {
        let start = if first {
            at
        } else {
            past_blanks(bytes, at + 1)
        };
        let end = (entry_at(bytes, start)->0).2;
        lemma_closes(bytes, end, false);
        let close = choose|close: int| #[trigger] closes(bytes, end, close);
        assert(closes(bytes, i, close));
    }
}

/// The values under a key are those of the entries that carry it, in order, and of no other.
pub proof fn values_add_up(
    front: Seq<(Seq<char>, Seq<u8>)>,
    back: Seq<(Seq<char>, Seq<u8>)>,
    entry: (Seq<char>, Seq<u8>),
    key: Seq<char>,
)
    ensures
        values_under(front + back, key) == values_under(front, key) + values_under(back, key),
        values_under(seq![entry], key) == (if entry.0 == key {
            seq![entry.1]
        } else {
            Seq::empty()
        }),
        values_under(Seq::empty(), key).len() == 0,
    decreases back.len(),
{
    assert(seq![entry].drop_last() =~= Seq::empty());
    assert(values_under(Seq::empty(), key) =~= Seq::empty());
    assert(values_under(seq![entry], key) =~= (if entry.0 == key {
        seq![entry.1]
    } else {
        Seq::empty()
    }));
    if back.len() == 0 {
        assert(front + back =~= front);
        assert(values_under(front, key) + values_under(back, key) =~= values_under(front, key));
    } else {
        values_add_up(front, back.drop_last(), entry, key);
        assert((front + back).drop_last() =~= front + back.drop_last());
        assert(values_under(front + back, key) =~= values_under(front, key) + values_under(
            back,
            key,
        ));
    }
}

/// A key that stands once gives the reading of its value, wherever it stands; one that stands
/// nowhere or twice gives nothing.
pub proof fn a_key_counts_when_it_stands_once(
    front: Seq<(Seq<char>, Seq<u8>)>,
    value: Seq<u8>,
    back: Seq<(Seq<char>, Seq<u8>)>,
    key: Seq<char>,
)
    requires
        forall|i: int| 0 <= i < front.len() ==> (#[trigger] front[i]).0 != key,
    ensures
        field(front, key) is None,
        (forall|i: int| 0 <= i < back.len() ==> (#[trigger] back[i]).0 != key) ==> field(
            front + seq![(key, value)] + back,
            key,
        ) == json::value_of(json::reading_bytes(value)),
        (exists|i: int| 0 <= i < back.len() && (#[trigger] back[i]).0 == key) ==> field(
            front + seq![(key, value)] + back,
            key,
        ) is None,
{
    let entry = (key, value);
    lemma_no_value(front, key);
    values_add_up(front, seq![entry], entry, key);
    values_add_up(front + seq![entry], back, entry, key);
    let all = front + seq![entry] + back;
    assert(values_under(front, key) + seq![value] =~= seq![value]);
    if forall|i: int| 0 <= i < back.len() ==> (#[trigger] back[i]).0 != key {
        lemma_no_value(back, key);
        assert(values_under(all, key) =~= seq![value]);
    }
    if exists|i: int| 0 <= i < back.len() && (#[trigger] back[i]).0 == key {
        let i = choose|i: int| 0 <= i < back.len() && (#[trigger] back[i]).0 == key;
        lemma_some_value(back, key, i);
        assert(values_under(all, key).len() > 1);
    }
}

proof fn lemma_no_value(entries: Seq<(Seq<char>, Seq<u8>)>, key: Seq<char>)
    requires
        forall|i: int| 0 <= i < entries.len() ==> (#[trigger] entries[i]).0 != key,
    ensures
        values_under(entries, key).len() == 0,
    decreases entries.len(),
{
    if entries.len() > 0 {
        assert forall|i: int| 0 <= i < entries.drop_last().len() implies (
        #[trigger] entries.drop_last()[i]).0 != key by {
            assert(entries.drop_last()[i] == entries[i]);
        }
        lemma_no_value(entries.drop_last(), key);
    }
}

proof fn lemma_some_value(entries: Seq<(Seq<char>, Seq<u8>)>, key: Seq<char>, i: int)
    requires
        0 <= i < entries.len(),
        entries[i].0 == key,
    ensures
        values_under(entries, key).len() > 0,
    decreases entries.len(),
{
    if i < entries.len() - 1 {
        lemma_some_value(entries.drop_last(), key, i);
    }
}

} // verus!
