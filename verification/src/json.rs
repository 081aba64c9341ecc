//! A JSON value model and the canonical text that command request hashes
//! are computed over.

use vstd::prelude::*;

use crate::text::{owned, push_str, chars_of};

verus! {

/// A JSON document as the request-hash logic reads it. Numbers keep the text
/// that the JSON encoder prints for them. A decoded document is well formed
/// (`json_wf`: no object repeats a key), and setting a route parameter
/// keeps it so.
#[derive(Debug, PartialEq, Eq)]
pub enum JsonValue {
    Null,
    Bool(bool),
    Number(String),
    Text(String),
    Array(Vec<JsonValue>),
    Object(Vec<JsonMember>),
}

/// One `"key": value` member of a JSON object.
#[derive(Debug, PartialEq, Eq)]
pub struct JsonMember {
    pub key: String,
    pub value: JsonValue,
}

/// The well-formedness of a JSON value, as a decoded document has it: the
/// members of each object, at every depth, have pairwise different keys.
pub open spec fn json_wf(v: JsonValue) -> bool
    decreases v,
{
    match v {
        JsonValue::Array(items) => forall|i: int|
            0 <= i < items@.len() ==> json_wf(#[trigger] items@[i]),
        JsonValue::Object(ms) => {
            &&& forall|i: int, j: int|
                0 <= i < j < ms@.len() ==> #[trigger] ms@[i].key@ != #[trigger] ms@[j].key@
            &&& forall|i: int| 0 <= i < ms@.len() ==> json_wf(#[trigger] ms@[i].value)
        },
        _ => true,
    }
}

pub open spec fn hex_digit(d: nat) -> char {
    if d < 10 {
        ((d + 0x30) as u32) as char
    } else {
        ((d - 10 + 0x61) as u32) as char
    }
}

/// How the JSON encoder writes one character inside a string literal:
/// quote and backslash are escaped, the control characters with a short
/// escape use it, the other control characters become `\u00XX` with
/// lower-case hex digits, every other character stands for itself.
pub open spec fn json_escape_char(c: char) -> Seq<char> {
    let u = c as u32;
    if c == '"' {
        seq!['\\', '"']
    } else if c == '\\' {
        seq!['\\', '\\']
    } else if u == 0x08 {
        seq!['\\', 'b']
    } else if u == 0x09 {
        seq!['\\', 't']
    } else if u == 0x0a {
        seq!['\\', 'n']
    } else if u == 0x0c {
        seq!['\\', 'f']
    } else if u == 0x0d {
        seq!['\\', 'r']
    } else if u < 0x20 {
        seq!['\\', 'u', '0', '0', hex_digit((u / 16) as nat), hex_digit((u % 16) as nat)]
    } else {
        seq![c]
    }
}

pub open spec fn json_escaped(s: Seq<char>) -> Seq<char>
    decreases s.len(),
{
    if s.len() == 0 {
        seq![]
    } else {
        json_escaped(s.drop_last()) + json_escape_char(s.last())
    }
}

/// `s` as a JSON string literal.
pub open spec fn json_quoted(s: Seq<char>) -> Seq<char> {
    seq!['"'] + json_escaped(s) + seq!['"']
}

/// `serde_json::to_string` on a `&str`. The contract states the escaping
/// that serde_json's `format_escaped_str` performs (its `ESCAPE` table and
/// `write_char_escape`), and that serialising a string into a `Vec` does not
/// fail.
#[verifier::external_body]
fn serde_json_string_literal(s: &str) -> (r: Option<String>)
    ensures
        r is Some,
        r.unwrap()@ == json_quoted(s@),
{
    serde_json::to_string(s).ok()
}

/// `s` as a JSON string literal, falling back to `""` should the encoder
/// refuse it.
pub fn json_string_literal(s: &str) -> (r: String)
    ensures
        r@ == json_quoted(s@),
{
    match serde_json_string_literal(s) {
        Some(t) => t,
        None => owned("\"\""),
    }
}

/// Lexicographic order on code points, which is the order of `String`'s
/// `Ord` (UTF-8 preserves code point order).
pub open spec fn chars_le(a: Seq<char>, b: Seq<char>) -> bool
    decreases a.len(),
{
    if a.len() == 0 {
        true
    } else if b.len() == 0 {
        false
    } else if a[0] < b[0] {
        true
    } else if a[0] > b[0] {
        false
    } else {
        chars_le(a.drop_first(), b.drop_first())
    }
}

proof fn lemma_chars_le_skip(a: Seq<char>, b: Seq<char>, i: int)
    requires
        0 <= i < a.len(),
        i < b.len(),
        a[i] == b[i],
    ensures
        chars_le(a.skip(i), b.skip(i)) == chars_le(a.skip(i + 1), b.skip(i + 1)),
{
    assert(a.skip(i).drop_first() =~= a.skip(i + 1));
    assert(b.skip(i).drop_first() =~= b.skip(i + 1));
}

/// `a` sorts before or equal to `b` as `String`s do.
pub fn key_le(a: &String, b: &String) -> (r: bool)
    ensures
        r == chars_le(a@, b@),
{
    let x = chars_of(a.as_str());
    let y = chars_of(b.as_str());
    let mut i: usize = 0;
    assert(x@.skip(0) =~= x@);
    assert(y@.skip(0) =~= y@);
    while i < x.len() && i < y.len() && x[i] == y[i]
        invariant
            i <= x@.len(),
            i <= y@.len(),
            chars_le(a@, b@) == chars_le(x@.skip(i as int), y@.skip(i as int)),
            x@ == a@,
            y@ == b@,
        decreases x@.len() - i,
    {
        proof {
            lemma_chars_le_skip(x@, y@, i as int);
        }
        i = i + 1;
    }
    if i == x.len() {
        assert(x@.skip(i as int).len() == 0);
        true
    } else if i == y.len() {
        assert(y@.skip(i as int).len() == 0);
        false
    } else {
        assert(x@.skip(i as int)[0] == x@[i as int]);
        assert(y@.skip(i as int)[0] == y@[i as int]);
        assert(x@[i as int] != y@[i as int]);
        x[i] < y[i]
    }
}

/// A rendered member: the key and the canonical text of the value.
pub type RenderedSpec = (Seq<char>, Seq<char>);

/// Inserts `e` after every entry whose key sorts before or equal to it
/// (insertion sort step; equal keys keep their order).
pub open spec fn insert_by_key(e: RenderedSpec, sorted: Seq<RenderedSpec>) -> Seq<RenderedSpec>
    decreases sorted.len(),
{
    if sorted.len() == 0 {
        seq![e]
    } else if chars_le(sorted.last().0, e.0) {
        sorted.push(e)
    } else {
        insert_by_key(e, sorted.drop_last()).push(sorted.last())
    }
}

/// The entries ordered by key; entries with equal keys keep their order.
pub open spec fn sort_by_key(s: Seq<RenderedSpec>) -> Seq<RenderedSpec>
    decreases s.len(),
{
    if s.len() == 0 {
        s
    } else {
        insert_by_key(s.last(), sort_by_key(s.drop_last()))
    }
}

/// The canonical text of a value: object members sorted by key with
/// null-valued members left out, arrays in order, no whitespace, strings and
/// keys quoted as JSON.
pub open spec fn canonical_text(v: JsonValue) -> Seq<char>
    decreases v, 0int,
{
    match v {
        JsonValue::Null => "null"@,
        JsonValue::Bool(b) => if b {
            "true"@
        } else {
            "false"@
        },
        JsonValue::Number(n) => n@,
        JsonValue::Text(s) => json_quoted(s@),
        JsonValue::Array(items) => seq!['['] + canonical_items(items@) + seq![']'],
        JsonValue::Object(members) => seq!['{'] + joined_members(
            sort_by_key(rendered_members(members@)),
        ) + seq!['}'],
    }
}

/// The canonical texts of `items`, separated by `,`.
pub open spec fn canonical_items(items: Seq<JsonValue>) -> Seq<char>
    decreases items, 1int,
{
    if items.len() == 0 {
        seq![]
    } else if items.len() == 1 {
        canonical_text(items[0])
    } else {
        canonical_items(items.drop_last()) + seq![','] + canonical_text(items.last())
    }
}

/// The members whose value is not null, each as its key and the canonical
/// text of its value, in order.
pub open spec fn rendered_members(ms: Seq<JsonMember>) -> Seq<RenderedSpec>
    decreases ms, 1int,
{
    if ms.len() == 0 {
        seq![]
    } else {
        let prev = rendered_members(ms.drop_last());
        let m = ms.last();
        if m.value is Null {
            prev
        } else {
            prev.push((m.key@, canonical_text(m.value)))
        }
    }
}

pub open spec fn member_text(e: RenderedSpec) -> Seq<char> {
    json_quoted(e.0) + seq![':'] + e.1
}

/// `"key":text` for each entry, separated by `,`.
pub open spec fn joined_members(es: Seq<RenderedSpec>) -> Seq<char>
    decreases es.len(),
{
    if es.len() == 0 {
        seq![]
    } else if es.len() == 1 {
        member_text(es[0])
    } else {
        joined_members(es.drop_last()) + seq![','] + member_text(es.last())
    }
}

pub open spec fn rendered_views(v: Seq<(String, String)>) -> Seq<RenderedSpec> {
    v.map_values(|e: (String, String)| (e.0@, e.1@))
}

fn insert_rendered(sorted: &mut Vec<(String, String)>, e: (String, String))
    ensures
        rendered_views(final(sorted)@) == insert_by_key((e.0@, e.1@), rendered_views(old(sorted)@)),
    decreases old(sorted)@.len(),
{
    let n = sorted.len();
    if n == 0 {
        sorted.push(e);
        assert(rendered_views(sorted@) =~= seq![(e.0@, e.1@)]);
    } else {
        let last_le = key_le(&sorted[n - 1].0, &e.0);
        let ghost before = rendered_views(sorted@);
        assert(before.last() == (sorted@[n - 1].0@, sorted@[n - 1].1@));
        if last_le {
            sorted.push(e);
            assert(rendered_views(sorted@) =~= before.push((e.0@, e.1@)));
        } else {
            let last = sorted.pop().unwrap();
            assert(rendered_views(sorted@) =~= before.drop_last());
            insert_rendered(sorted, e);
            let ghost mid = rendered_views(sorted@);
            sorted.push(last);
            assert(rendered_views(sorted@) =~= mid.push(before.last()));
        }
    }
}

fn push_joined(out: &mut String, es: &Vec<(String, String)>)
    ensures
        final(out)@ == old(out)@ + joined_members(rendered_views(es@)),
{
    let ghost start = out@;
    let n = es.len();
    for i in 0..n
        invariant
            n == es@.len(),
            out@ == start + joined_members(rendered_views(es@.take(i as int))),
    {
        let ghost prev = out@;
        if i > 0 {
            out.push(',');
        }
        let k = json_string_literal(es[i].0.as_str());
        push_str(out, k.as_str());
        out.push(':');
        push_str(out, es[i].1.as_str());
        let ghost vs = rendered_views(es@.take(i + 1));
        assert(vs.drop_last() =~= rendered_views(es@.take(i as int)));
        assert(vs.last() == (es@[i as int].0@, es@[i as int].1@));
        if i > 0 {
            assert(out@ =~= prev + seq![','] + member_text(vs.last()));
        } else {
            assert(out@ =~= prev + member_text(vs.last()));
        }
    }
    assert(es@.take(n as int) =~= es@);
}

/// The non-null members rendered (key and canonical value text) and
/// ordered by key.
fn sorted_rendered_members(members: &Vec<JsonMember>) -> (sorted: Vec<(String, String)>)
    ensures
        rendered_views(sorted@) == sort_by_key(rendered_members(members@)),
    decreases members,
{
    let mut sorted: Vec<(String, String)> = Vec::new();
    let n = members.len();
    for i in 0..n
        invariant
            n == members@.len(),
            rendered_views(sorted@) == sort_by_key(rendered_members(members@.take(i as int))),
    {
        let ghost ms = members@.take(i + 1);
        assert(ms.drop_last() =~= members@.take(i as int));
        assert(ms.last() == members@[i as int]);
        let member = &members[i];
        if !matches!(member.value, JsonValue::Null) {
            proof {
                assert(decreases_to!(*members => members@));
                assert(decreases_to!(members@ => members@[i as int]));
                assert(decreases_to!(members@[i as int] => members@[i as int].value));
            }
            let t = canonical_json_string(&member.value);
            let k = owned(member.key.as_str());
            insert_rendered(&mut sorted, (k, t));
            let ghost prev = rendered_members(members@.take(i as int));
            let ghost e = (member.key@, canonical_text(member.value));
            assert(rendered_members(ms) == prev.push(e));
            assert(prev.push(e).drop_last() =~= prev);
            assert(sort_by_key(prev.push(e)) == insert_by_key(e, sort_by_key(prev)));
        } else {
            assert(rendered_members(ms) == rendered_members(members@.take(i as int)));
        }
    }
    assert(members@.take(n as int) =~= members@);
    sorted
}

/// The canonical text of `v` (see `canonical_text`).
#[verifier::loop_isolation(false)]
pub fn canonical_json_string(v: &JsonValue) -> (r: String)
    ensures
        r@ == canonical_text(*v),
    decreases v,
{
    match v {
        JsonValue::Null => owned("null"),
        JsonValue::Bool(b) => if *b {
            owned("true")
        } else {
            owned("false")
        },
        JsonValue::Number(n) => owned(n.as_str()),
        JsonValue::Text(s) => json_string_literal(s.as_str()),
        JsonValue::Array(items) => {
            let mut out = String::new();
            out.push('[');
            let n = items.len();
            for i in 0..n
                invariant
                    n == items@.len(),
                    out@ == seq!['['] + canonical_items(items@.take(i as int)),
            {
                let ghost prev = out@;
                if i > 0 {
                    out.push(',');
                }
                proof {
                    assert(decreases_to!(*v => *items));
                    assert(decreases_to!(*items => items@));
                    assert(decreases_to!(items@ => items@[i as int]));
                }
                let t = canonical_json_string(&items[i]);
                push_str(&mut out, t.as_str());
                let ghost s = items@.take(i + 1);
                assert(s.drop_last() =~= items@.take(i as int));
                if i > 0 {
                    assert(out@ =~= prev + seq![','] + canonical_text(s.last()));
                } else {
                    assert(out@ =~= prev + canonical_text(s.last()));
                }
            }
            assert(items@.take(n as int) =~= items@);
            out.push(']');
            out
        },
        JsonValue::Object(members) => {
            proof {
                assert(decreases_to!(*v => *members));
            }
            let sorted = sorted_rendered_members(members);
            let mut out = String::new();
            out.push('{');
            push_joined(&mut out, &sorted);
            out.push('}');
            out
        },
    }
}

/// `a` and `b` hold the same characters.
pub fn key_eq(a: &String, b: &str) -> (r: bool)
    ensures
        r == (a@ == b@),
{
    let x = chars_of(a.as_str());
    let y = chars_of(b);
    if x.len() != y.len() {
        return false;
    }
    let mut i: usize = 0;
    while i < x.len()
        invariant
            x@ == a@,
            y@ == b@,
            x@.len() == y@.len(),
            i <= x@.len(),
            forall|j: int| 0 <= j < i ==> x@[j] == y@[j],
        decreases x@.len() - i,
    {
        if x[i] != y[i] {
            return false;
        }
        i = i + 1;
    }
    assert(x@ =~= y@);
    true
}

/// The index of the first member named `key`, if any.
pub open spec fn first_member_index(ms: Seq<JsonMember>, key: Seq<char>) -> Option<int> {
    if exists|i: int| 0 <= i < ms.len() && #[trigger] ms[i].key@ == key {
        Some(choose|i: int| 0 <= i < ms.len() && #[trigger] ms[i].key@ == key && forall|j: int| 0 <= j < i ==> ms[j].key@ != key)
    } else {
        None
    }
}

/// `after` is `before` with the member `key` set to the string `value`: the
/// first member with that key gets the new value in place, or, when there is
/// none, a member is appended (the behaviour of `Map::insert`).
pub open spec fn is_member_set(
    before: Seq<JsonMember>,
    after: Seq<JsonMember>,
    key: Seq<char>,
    value: Seq<char>,
) -> bool {
    let sets = |m: JsonMember| m.key@ == key && (m.value matches JsonValue::Text(t) && t@ == value);
    match first_member_index(before, key) {
        Some(i) => {
            &&& after.len() == before.len()
            &&& sets(after[i])
            &&& forall|j: int| 0 <= j < before.len() && j != i ==> after[j] == before[j]
        },
        None => {
            &&& after.len() == before.len() + 1
            &&& sets(after.last())
            &&& forall|j: int| 0 <= j < before.len() ==> after[j] == before[j]
        },
    }
}

/// A write payload with its route parameter: when `body` is an object, the
/// member `route_param_key` is set to the string `route_param_value`; any
/// other value is returned unchanged.
pub fn write_payload_with_route_param(
    route_param_key: &str,
    route_param_value: &str,
    body: JsonValue,
) -> (payload: JsonValue)
    ensures
        match body {
            JsonValue::Object(before) => payload matches JsonValue::Object(after) && is_member_set(
                before@,
                after@,
                route_param_key@,
                route_param_value@,
            ),
            _ => payload == body,
        },
        json_wf(body) ==> json_wf(payload),
{
    match body {
        JsonValue::Object(members) => {
            let mut members = members;
            let ghost before = members@;
            let n = members.len();
            let mut i: usize = 0;
            while i < n && !key_eq(&members[i].key, route_param_key)
                invariant
                    n == members@.len(),
                    members@ == before,
                    i <= n,
                    forall|j: int| 0 <= j < i ==> members@[j].key@ != route_param_key@,
                decreases n - i,
            {
                i = i + 1;
            }
            let new_member = JsonMember {
                key: owned(route_param_key),
                value: JsonValue::Text(owned(route_param_value)),
            };
            if i < n {
                members.set(i, new_member);
                proof {
                    let w = i as int;
                    assert(0 <= w < before.len() && before[w].key@ == route_param_key@ && forall|j: int| 0 <= j < w ==> before[j].key@ != route_param_key@);
                    let c = choose|k: int| 0 <= k < before.len() && #[trigger] before[k].key@ == route_param_key@ && forall|j: int| 0 <= j < k ==> before[j].key@ != route_param_key@;
                    assert(c == w) by {
                        if c < w {
                            assert(before[c].key@ != route_param_key@);
                        } else if c > w {
                            assert(before[w].key@ != route_param_key@);
                        }
                    }
                }
            } else {
                members.push(new_member);
            }
            proof {
                if json_wf(body) {
                    assert forall|a: int, b: int|
                        0 <= a < b < members@.len() implies #[trigger] members@[a].key@
                            != #[trigger] members@[b].key@ by {
                        if a < before.len() && b < before.len() {
                            if a != i && b != i {
                                assert(members@[a] == before[a] && members@[b] == before[b]);
                            } else if a == i {
                                assert(members@[b] == before[b]);
                                assert(before[a].key@ == route_param_key@);
                            } else {
                                assert(members@[a] == before[a]);
                                assert(before[b].key@ == route_param_key@);
                            }
                        } else {
                            assert(members@[a] == before[a]);
                        }
                    }
                    assert forall|a: int| 0 <= a < members@.len() implies json_wf(
                        #[trigger] members@[a].value,
                    ) by {
                        if a != i && a < before.len() {
                            assert(members@[a] == before[a]);
                        }
                    }
                }
            }
            JsonValue::Object(members)
        },
        other => other,
    }
}

} // verus!
