//! Reading the canonical text back: a JSON reader for texts without
//! whitespace, and the law that the canonical text of a value reads back as
//! the value's normal form (its null-valued object members dropped, its
//! members ordered by key), so that nothing else is lost.

use vstd::prelude::*;

use crate::json::{JsonValue, JsonMember, chars_le, hex_digit, json_escape_char, json_escaped, joined_members, member_text, RenderedSpec};
use crate::json_normal::{
    JsonNormal, normal_text, normal_items_text, normal_entries, normal_form, normal_items,
    normal_members, sort_normal, insert_normal, lemma_canonical_text_is_normal_text,
};
use crate::json::canonical_text;

verus! {

/// The value of a hex digit, either case.
pub open spec fn hex_value(c: char) -> Option<int> {
    if '0' <= c && c <= '9' {
        Some((c as int) - ('0' as int))
    } else if 'a' <= c && c <= 'f' {
        Some((c as int) - ('a' as int) + 10)
    } else if 'A' <= c && c <= 'F' {
        Some((c as int) - ('A' as int) + 10)
    } else {
        None
    }
}

pub open spec fn code_point(c: char) -> int {
    c as int
}

/// The character whose code point is `u`, if there is one.
pub open spec fn char_of(u: int) -> Option<char> {
    if exists|c: char| #[trigger] code_point(c) == u {
        Some(choose|c: char| #[trigger] code_point(c) == u)
    } else {
        None
    }
}

/// An escape sequence after its backslash: the character it stands for and
/// the text after it. `\uXXXX` stands for the character with that code
/// point; a surrogate code point is not read.
pub open spec fn parse_escape(s: Seq<char>) -> Option<(char, Seq<char>)> {
    if s.len() == 0 {
        None
    } else if s[0] == '"' || s[0] == '\\' || s[0] == '/' {
        Some((s[0], s.drop_first()))
    } else if s[0] == 'b' || s[0] == 'f' || s[0] == 'n' || s[0] == 'r' || s[0] == 't' {
        let code: int = if s[0] == 'b' {
            8
        } else if s[0] == 'f' {
            12
        } else if s[0] == 'n' {
            10
        } else if s[0] == 'r' {
            13
        } else {
            9
        };
        match char_of(code) {
            Some(c) => Some((c, s.drop_first())),
            None => None,
        }
    } else if s[0] == 'u' && s.len() >= 5 {
        match (hex_value(s[1]), hex_value(s[2]), hex_value(s[3]), hex_value(s[4])) {
            (Some(a), Some(b), Some(c), Some(d)) => match char_of(a * 4096 + b * 256 + c * 16 + d) {
                Some(ch) => Some((ch, s.skip(5))),
                None => None,
            },
            _ => None,
        }
    } else {
        None
    }
}

/// The body of a string literal after its opening quote: the characters it
/// stands for and the text after the closing quote.
pub open spec fn parse_string_body(s: Seq<char>) -> Option<(Seq<char>, Seq<char>)>
    decreases s.len(),
{
    if s.len() == 0 {
        None
    } else if s[0] == '"' {
        Some((seq![], s.drop_first()))
    } else if s[0] == '\\' {
        match parse_escape(s.drop_first()) {
            Some((c, r)) => if r.len() < s.len() {
                match parse_string_body(r) {
                    Some((t, r2)) => Some((seq![c] + t, r2)),
                    None => None,
                }
            } else {
                None
            },
            None => None,
        }
    } else if (s[0] as int) < 0x20 {
        None
    } else {
        match parse_string_body(s.drop_first()) {
            Some((t, r)) => Some((seq![s[0]] + t, r)),
            None => None,
        }
    }
}

proof fn lemma_char_of(c: char)
    ensures
        char_of(c as int) == Some(c),
{
    assert(code_point(c) == c as int);
    let d = choose|d: char| #[trigger] code_point(d) == c as int;
    assert(d == c);
}

proof fn lemma_hex_digit_value(d: nat)
    requires
        d < 16,
    ensures
        hex_value(hex_digit(d)) == Some(d as int),
{
}

proof fn lemma_escaped_front(x: Seq<char>)
    requires
        x.len() > 0,
    ensures
        json_escaped(x) == json_escape_char(x[0]) + json_escaped(x.drop_first()),
    decreases x.len(),
{
    if x.len() == 1 {
        assert(x.drop_last() =~= Seq::<char>::empty());
        assert(x.drop_first() =~= Seq::<char>::empty());
        assert(json_escaped(x.drop_last()) =~= Seq::<char>::empty());
        assert(json_escaped(x.drop_first()) =~= Seq::<char>::empty());
        assert(x.last() == x[0]);
        assert(json_escaped(x) =~= json_escape_char(x[0]));
    } else {
        lemma_escaped_front(x.drop_last());
        assert(x.drop_last().drop_first() =~= x.drop_first().drop_last());
        assert(x.drop_first().last() == x.last());
        assert(x.drop_last()[0] == x[0]);
        assert(json_escaped(x) =~= json_escape_char(x[0]) + json_escaped(x.drop_first()));
    }
}

proof fn lemma_escape_char_reads_back(c: char, tail: Seq<char>)
    ensures
        parse_string_body(json_escape_char(c) + tail) == match parse_string_body(tail) {
            Some((t, r)) => Some((seq![c] + t, r)),
            None => None::<(Seq<char>, Seq<char>)>,
        },
{
    let s = json_escape_char(c) + tail;
    let u = c as u32;
    if c == '"' || c == '\\' {
        assert(s.drop_first().drop_first() =~= tail);
    } else if u == 0x08 || u == 0x09 || u == 0x0a || u == 0x0c || u == 0x0d {
        lemma_char_of(c);
        assert(s.drop_first().drop_first() =~= tail);
    } else if u < 0x20 {
        lemma_hex_digit_value((u / 16) as nat);
        lemma_hex_digit_value((u % 16) as nat);
        lemma_char_of(c);
        assert(0 * 4096 + 0 * 256 + (u / 16) * 16 + u % 16 == u);
        assert(s.drop_first().skip(5) =~= tail);
    } else {
        assert(s.drop_first() =~= tail);
    }
}

/// A string literal's body reads back as the string, leaving what follows
/// its closing quote.
pub proof fn lemma_string_reads_back(x: Seq<char>, rest: Seq<char>)
    ensures
        parse_string_body(json_escaped(x) + seq!['"'] + rest) == Some((x, rest)),
    decreases x.len(),
{
    if x.len() == 0 {
        assert(json_escaped(x) + seq!['"'] + rest =~= seq!['"'] + rest);
        assert((seq!['"'] + rest).drop_first() =~= rest);
    } else {
        lemma_escaped_front(x);
        lemma_string_reads_back(x.drop_first(), rest);
        let tail = json_escaped(x.drop_first()) + seq!['"'] + rest;
        lemma_escape_char_reads_back(x[0], tail);
        assert(json_escaped(x) + seq!['"'] + rest =~= json_escape_char(x[0]) + tail);
        assert(seq![x[0]] + x.drop_first() =~= x);
    }
}


/// A character that may occur in a JSON number.
pub open spec fn is_number_char(c: char) -> bool {
    ('0' <= c && c <= '9') || c == '-' || c == '+' || c == '.' || c == 'e' || c == 'E'
}

/// The length of the run of number characters that `s` starts with.
pub open spec fn number_run(s: Seq<char>) -> nat
    decreases s.len(),
{
    if s.len() > 0 && is_number_char(s[0]) {
        1 + number_run(s.drop_first())
    } else {
        0
    }
}

pub open spec fn is_digit(c: char) -> bool {
    '0' <= c && c <= '9'
}

/// One or more decimal digits.
pub open spec fn all_digits(t: Seq<char>) -> bool {
    t.len() > 0 && forall|i: int| 0 <= i < t.len() ==> is_digit(#[trigger] t[i])
}

/// The integer part of a JSON number: `0`, or digits without a leading zero.
pub open spec fn int_part(t: Seq<char>) -> bool {
    t == seq!['0'] || (all_digits(t) && t[0] != '0')
}

/// The fraction part of a JSON number: nothing, or `.` and digits.
pub open spec fn frac_part(t: Seq<char>) -> bool {
    t.len() == 0 || (t[0] == '.' && all_digits(t.drop_first()))
}

/// The exponent part of a JSON number: nothing, or `e`/`E`, an optional
/// sign and digits.
pub open spec fn exp_part(t: Seq<char>) -> bool {
    t.len() == 0 || ((t[0] == 'e' || t[0] == 'E') && (all_digits(t.drop_first()) || (t.len() > 1
        && (t[1] == '+' || t[1] == '-') && all_digits(t.skip(2)))))
}

/// A JSON number: an optional `-`, an integer part, a fraction part and an
/// exponent part.
pub open spec fn json_number(t: Seq<char>) -> bool {
    let u = if t.len() > 0 && t[0] == '-' {
        t.drop_first()
    } else {
        t
    };
    &&& forall|i: int| 0 <= i < t.len() ==> is_number_char(#[trigger] t[i])
    &&& exists|a: int, b: int|
        0 < a <= b <= u.len() && #[trigger] int_part(u.take(a)) && #[trigger] frac_part(
            u.subrange(a, b),
        ) && exp_part(u.skip(b))
}

/// A JSON value at the start of `s` (a text without whitespace), and the
/// text after it.
pub open spec fn parse_value(s: Seq<char>) -> Option<(JsonNormal, Seq<char>)>
    decreases s.len(), 0int,
{
    if s.len() == 0 {
        None
    } else if s[0] == 'n' {
        if s.len() >= 4 && s.subrange(0, 4) == "null"@ {
            Some((JsonNormal::Null, s.skip(4)))
        } else {
            None
        }
    } else if s[0] == 't' {
        if s.len() >= 4 && s.subrange(0, 4) == "true"@ {
            Some((JsonNormal::Bool(true), s.skip(4)))
        } else {
            None
        }
    } else if s[0] == 'f' {
        if s.len() >= 5 && s.subrange(0, 5) == "false"@ {
            Some((JsonNormal::Bool(false), s.skip(5)))
        } else {
            None
        }
    } else if s[0] == '"' {
        match parse_string_body(s.drop_first()) {
            Some((t, r)) => Some((JsonNormal::Text(t), r)),
            None => None,
        }
    } else if s[0] == '[' {
        parse_array(s.drop_first())
    } else if s[0] == '{' {
        parse_object(s.drop_first())
    } else if is_number_char(s[0]) {
        let k = number_run(s) as int;
        if k <= s.len() && json_number(s.take(k)) {
            Some((JsonNormal::Number(s.take(k)), s.skip(k)))
        } else {
            None
        }
    } else {
        None
    }
}

/// An array after its `[`.
pub open spec fn parse_array(s: Seq<char>) -> Option<(JsonNormal, Seq<char>)>
    decreases s.len(), 2int,
{
    if s.len() > 0 && s[0] == ']' {
        Some((JsonNormal::Array(seq![]), s.drop_first()))
    } else {
        match parse_elements(s) {
            Some((items, r)) => Some((JsonNormal::Array(items), r)),
            None => None,
        }
    }
}

/// One or more elements separated by `,`, up to and including the `]`.
pub open spec fn parse_elements(s: Seq<char>) -> Option<(Seq<JsonNormal>, Seq<char>)>
    decreases s.len(), 1int,
{
    match parse_value(s) {
        Some((v, r)) => if r.len() > 0 && r[0] == ']' {
            Some((seq![v], r.drop_first()))
        } else if r.len() > 0 && r[0] == ',' && r.len() < s.len() {
            match parse_elements(r.drop_first()) {
                Some((more, r2)) => Some((seq![v] + more, r2)),
                None => None,
            }
        } else {
            None
        },
        None => None,
    }
}

/// An object after its `{`.
pub open spec fn parse_object(s: Seq<char>) -> Option<(JsonNormal, Seq<char>)>
    decreases s.len(), 2int,
{
    if s.len() > 0 && s[0] == '}' {
        Some((JsonNormal::Object(seq![]), s.drop_first()))
    } else {
        match parse_members(s) {
            Some((ms, r)) => Some((JsonNormal::Object(ms), r)),
            None => None,
        }
    }
}

/// One or more `"key":value` members separated by `,`, up to and including
/// the `}`.
pub open spec fn parse_members(s: Seq<char>) -> Option<(Seq<(Seq<char>, JsonNormal)>, Seq<char>)>
    decreases s.len(), 1int,
{
    if s.len() > 0 && s[0] == '"' {
        match parse_string_body(s.drop_first()) {
            Some((key, r1)) => if r1.len() > 0 && r1[0] == ':' && r1.len() < s.len() {
                match parse_value(r1.drop_first()) {
                    Some((v, r2)) => if r2.len() > 0 && r2[0] == '}' {
                        Some((seq![(key, v)], r2.drop_first()))
                    } else if r2.len() > 0 && r2[0] == ',' && r2.len() < s.len() {
                        match parse_members(r2.drop_first()) {
                            Some((more, r3)) => Some((seq![(key, v)] + more, r3)),
                            None => None,
                        }
                    } else {
                        None
                    },
                    None => None,
                }
            } else {
                None
            },
            None => None,
        }
    } else {
        None
    }
}

/// A whole text read as one JSON value, with nothing after it.
pub open spec fn parse_json(s: Seq<char>) -> Option<JsonNormal> {
    match parse_value(s) {
        Some((v, r)) => if r.len() == 0 {
            Some(v)
        } else {
            None
        },
        None => None,
    }
}

/// Every number of `n` is written as a JSON number.
pub open spec fn numbers_valid(n: JsonNormal) -> bool
    decreases n,
{
    match n {
        JsonNormal::Number(t) => json_number(t),
        JsonNormal::Array(items) => forall|i: int| 0 <= i < items.len() ==> numbers_valid(#[trigger] items[i]),
        JsonNormal::Object(ms) => forall|i: int| 0 <= i < ms.len() ==> numbers_valid(#[trigger] ms[i].1),
        _ => true,
    }
}

/// `s` is empty or does not start with a number character, so a number
/// before it ends where it starts.
pub open spec fn delimited(s: Seq<char>) -> bool {
    s.len() == 0 || !is_number_char(s[0])
}


proof fn lemma_number_run(t: Seq<char>, rest: Seq<char>)
    requires
        forall|i: int| 0 <= i < t.len() ==> is_number_char(#[trigger] t[i]),
        delimited(rest),
    ensures
        number_run(t + rest) == t.len(),
    decreases t.len(),
{
    if t.len() == 0 {
        assert(t + rest =~= rest);
    } else {
        let s = t + rest;
        assert(s[0] == t[0]);
        let t2 = t.drop_first();
        assert forall|i: int| 0 <= i < t2.len() implies is_number_char(#[trigger] t2[i]) by {
            assert(t2[i] == t[i + 1]);
        }
        lemma_number_run(t2, rest);
        assert(s.drop_first() =~= t2 + rest);
    }
}

proof fn lemma_items_text_front(items: Seq<JsonNormal>)
    requires
        items.len() > 1,
    ensures
        normal_items_text(items) == normal_text(items[0]) + seq![','] + normal_items_text(
            items.drop_first(),
        ),
    decreases items.len(),
{
    let dl = items.drop_last();
    let df = items.drop_first();
    assert(df.last() == items.last());
    assert(dl[0] == items[0]);
    if items.len() == 2 {
        assert(df.len() == 1 && df[0] == items[1]);
        assert(normal_items_text(dl) == normal_text(items[0]));
        assert(normal_items_text(df) == normal_text(items[1]));
    } else {
        lemma_items_text_front(dl);
        assert(dl.drop_first() =~= df.drop_last());
    }
}

proof fn lemma_joined_front(es: Seq<RenderedSpec>)
    requires
        es.len() > 1,
    ensures
        joined_members(es) == member_text(es[0]) + seq![','] + joined_members(es.drop_first()),
    decreases es.len(),
{
    let dl = es.drop_last();
    let df = es.drop_first();
    assert(df.last() == es.last());
    assert(dl[0] == es[0]);
    if es.len() == 2 {
        assert(df.len() == 1 && df[0] == es[1]);
        assert(joined_members(dl) == member_text(es[0]));
        assert(joined_members(df) == member_text(es[1]));
    } else {
        lemma_joined_front(dl);
        assert(dl.drop_first() =~= df.drop_last());
    }
}

proof fn lemma_entries_index(ms: Seq<(Seq<char>, JsonNormal)>)
    ensures
        normal_entries(ms).len() == ms.len(),
        forall|i: int| 0 <= i < ms.len() ==> #[trigger] normal_entries(ms)[i] == (ms[i].0, normal_text(ms[i].1)),
    decreases ms.len(),
{
    if ms.len() > 0 {
        lemma_entries_index(ms.drop_last());
    }
}

proof fn lemma_entries_front(ms: Seq<(Seq<char>, JsonNormal)>)
    requires
        ms.len() > 0,
    ensures
        normal_entries(ms)[0] == (ms[0].0, normal_text(ms[0].1)),
        normal_entries(ms).drop_first() == normal_entries(ms.drop_first()),
        normal_entries(ms).len() == ms.len(),
{
    lemma_entries_index(ms);
    lemma_entries_index(ms.drop_first());
    assert(normal_entries(ms).drop_first() =~= normal_entries(ms.drop_first()));
}

proof fn lemma_normal_text_nonempty(n: JsonNormal)
    requires
        numbers_valid(n),
    ensures
        normal_text(n).len() > 0,
{
    match n {
        JsonNormal::Null => { reveal_strlit("null"); },
        JsonNormal::Bool(b) => { reveal_strlit("true"); reveal_strlit("false"); },
        JsonNormal::Number(t) => {
            let u = if t.len() > 0 && t[0] == '-' { t.drop_first() } else { t };
            let (a, b) = choose|a: int, b: int|
                0 < a <= b <= u.len() && #[trigger] int_part(u.take(a)) && #[trigger] frac_part(
                    u.subrange(a, b),
                ) && exp_part(u.skip(b));
        },
        _ => {},
    }
}

/// The text of a normal form reads back as that normal form, leaving what
/// follows it.
pub proof fn lemma_value_reads_back(n: JsonNormal, rest: Seq<char>)
    requires
        numbers_valid(n),
        delimited(rest),
    ensures
        parse_value(normal_text(n) + rest) == Some((n, rest)),
    decreases n, 0int,
{
    lemma_normal_text_nonempty(n);
    let s = normal_text(n) + rest;
    match n {
        JsonNormal::Null => {
            reveal_strlit("null");
            assert(s.subrange(0, 4) =~= "null"@);
            assert(s.skip(4) =~= rest);
        },
        JsonNormal::Bool(b) => {
            reveal_strlit("true");
            reveal_strlit("false");
            if b {
                assert(s.subrange(0, 4) =~= "true"@);
                assert(s.skip(4) =~= rest);
            } else {
                assert(s.subrange(0, 5) =~= "false"@);
                assert(s.skip(5) =~= rest);
            }
        },
        JsonNormal::Number(t) => {
            lemma_number_reads_back(t, rest);
        },
        JsonNormal::Text(x) => {
            assert(s[0] == '"');
            lemma_string_reads_back(x, rest);
            assert(s.drop_first() =~= json_escaped(x) + seq!['"'] + rest);
        },
        JsonNormal::Array(items) => {
            lemma_array_reads_back(items, rest);
        },
        JsonNormal::Object(ms) => {
            lemma_object_reads_back(ms, rest);
        },
    }
}

proof fn lemma_number_reads_back(t: Seq<char>, rest: Seq<char>)
    requires
        json_number(t),
        delimited(rest),
    ensures
        parse_value(normal_text(JsonNormal::Number(t)) + rest) == Some((JsonNormal::Number(t), rest)),
{
    lemma_normal_text_nonempty(JsonNormal::Number(t));
    let s = t + rest;
    assert(normal_text(JsonNormal::Number(t)) == t);
    assert(is_number_char(t[0]));
    assert(s[0] == t[0]);
    lemma_number_run(t, rest);
    assert(s.take(t.len() as int) =~= t);
    assert(s.skip(t.len() as int) =~= rest);
}

proof fn lemma_array_reads_back(items: Seq<JsonNormal>, rest: Seq<char>)
    requires
        forall|i: int| 0 <= i < items.len() ==> numbers_valid(#[trigger] items[i]),
    ensures
        parse_value(normal_text(JsonNormal::Array(items)) + rest) == Some((JsonNormal::Array(items), rest)),
    decreases items, 2int,
{
    let s = normal_text(JsonNormal::Array(items)) + rest;
    assert(s =~= seq!['['] + (normal_items_text(items) + seq![']'] + rest));
    assert(s[0] == '[');
    assert(s.drop_first() =~= normal_items_text(items) + seq![']'] + rest);
    if items.len() == 0 {
        assert(normal_items_text(items) =~= Seq::<char>::empty());
        assert(s.drop_first() =~= seq![']'] + rest);
        assert(s.drop_first().drop_first() =~= rest);
        assert(items =~= Seq::<JsonNormal>::empty());
    } else {
        assert(numbers_valid(items[0]));
        lemma_elements_read_back(items, rest);
        lemma_items_text_head(items);
        lemma_normal_text_first(items[0]);
    }
}

proof fn lemma_object_reads_back(ms: Seq<(Seq<char>, JsonNormal)>, rest: Seq<char>)
    requires
        forall|i: int| 0 <= i < ms.len() ==> numbers_valid(#[trigger] ms[i].1),
    ensures
        parse_value(normal_text(JsonNormal::Object(ms)) + rest) == Some((JsonNormal::Object(ms), rest)),
    decreases ms, 2int,
{
    let s = normal_text(JsonNormal::Object(ms)) + rest;
    assert(s =~= seq!['{'] + (joined_members(normal_entries(ms)) + seq!['}'] + rest));
    assert(s[0] == '{');
    assert(s.drop_first() =~= joined_members(normal_entries(ms)) + seq!['}'] + rest);
    if ms.len() == 0 {
        assert(normal_entries(ms) =~= Seq::<RenderedSpec>::empty());
        assert(joined_members(normal_entries(ms)) =~= Seq::<char>::empty());
        assert(s.drop_first() =~= seq!['}'] + rest);
        assert(s.drop_first().drop_first() =~= rest);
        assert(ms =~= Seq::<(Seq<char>, JsonNormal)>::empty());
    } else {
        lemma_members_read_back(ms, rest);
        lemma_members_text_head(ms);
    }
}

/// The first character of a text, which is never `]`.
proof fn lemma_normal_text_first(n: JsonNormal)
    requires
        numbers_valid(n),
    ensures
        normal_text(n).len() > 0,
        normal_text(n)[0] != ']',
{
    lemma_normal_text_nonempty(n);
    match n {
        JsonNormal::Null => { reveal_strlit("null"); },
        JsonNormal::Bool(b) => { reveal_strlit("true"); reveal_strlit("false"); },
        JsonNormal::Number(t) => {},
        _ => {},
    }
}

proof fn lemma_items_text_head(items: Seq<JsonNormal>)
    requires
        items.len() > 0,
        numbers_valid(items[0]),
    ensures
        normal_items_text(items).len() > 0,
        normal_items_text(items)[0] == normal_text(items[0])[0],
{
    lemma_normal_text_nonempty(items[0]);
    if items.len() > 1 {
        lemma_items_text_front(items);
    }
}

proof fn lemma_members_text_head(ms: Seq<(Seq<char>, JsonNormal)>)
    requires
        ms.len() > 0,
    ensures
        joined_members(normal_entries(ms)).len() > 0,
        joined_members(normal_entries(ms))[0] == '"',
{
    lemma_entries_front(ms);
    let es = normal_entries(ms);
    if ms.len() > 1 {
        lemma_joined_front(es);
    }
    assert(member_text(es[0])[0] == '"');
}

#[verifier::rlimit(60)]
proof fn lemma_elements_read_back(items: Seq<JsonNormal>, rest: Seq<char>)
    requires
        items.len() > 0,
        forall|i: int| 0 <= i < items.len() ==> numbers_valid(#[trigger] items[i]),
    ensures
        parse_elements(normal_items_text(items) + seq![']'] + rest) == Some((items, rest)),
    decreases items, 1int,
{
    let s = normal_items_text(items) + seq![']'] + rest;
    assert(numbers_valid(items[0]));
    lemma_normal_text_nonempty(items[0]);
    if items.len() == 1 {
        assert(normal_items_text(items) == normal_text(items[0]));
        let tail = seq![']'] + rest;
        lemma_value_reads_back(items[0], tail);
        assert(s =~= normal_text(items[0]) + tail);
        assert(tail.drop_first() =~= rest);
        assert(seq![items[0]] =~= items);
    } else {
        lemma_items_text_front(items);
        let more = items.drop_first();
        assert forall|i: int| 0 <= i < more.len() implies numbers_valid(#[trigger] more[i]) by {
            assert(more[i] == items[i + 1]);
        }
        let tail = seq![','] + normal_items_text(more) + seq![']'] + rest;
        lemma_value_reads_back(items[0], tail);
        assert(s =~= normal_text(items[0]) + tail);
        lemma_elements_read_back(more, rest);
        assert(tail.drop_first() =~= normal_items_text(more) + seq![']'] + rest);
        assert(seq![items[0]] + more =~= items);
    }
}

/// One member's text, read by `parse_members`, given how its value reads.
proof fn lemma_member_step(key: Seq<char>, v: JsonNormal, value_text: Seq<char>, tail: Seq<char>)
    requires
        parse_value(value_text + tail) == Some((v, tail)),
        value_text.len() > 0,
    ensures
        parse_members(seq!['"'] + json_escaped(key) + seq!['"'] + seq![':'] + value_text + tail)
            == if tail.len() > 0 && tail[0] == '}' {
            Some((seq![(key, v)], tail.drop_first()))
        } else if tail.len() > 0 && tail[0] == ',' {
            match parse_members(tail.drop_first()) {
                Some((more, r3)) => Some((seq![(key, v)] + more, r3)),
                None => None,
            }
        } else {
            None
        },
{
    let s = seq!['"'] + json_escaped(key) + seq!['"'] + seq![':'] + value_text + tail;
    let r1 = seq![':'] + value_text + tail;
    lemma_string_reads_back(key, r1);
    assert(s.drop_first() =~= json_escaped(key) + seq!['"'] + r1);
    assert(r1.drop_first() =~= value_text + tail);
}

#[verifier::rlimit(60)]
proof fn lemma_members_read_back(ms: Seq<(Seq<char>, JsonNormal)>, rest: Seq<char>)
    requires
        ms.len() > 0,
        forall|i: int| 0 <= i < ms.len() ==> numbers_valid(#[trigger] ms[i].1),
    ensures
        parse_members(joined_members(normal_entries(ms)) + seq!['}'] + rest) == Some((ms, rest)),
    decreases ms, 1int,
{
    lemma_entries_front(ms);
    let es = normal_entries(ms);
    let key = ms[0].0;
    let v = ms[0].1;
    assert(numbers_valid(v));
    lemma_normal_text_nonempty(v);
    let s = joined_members(es) + seq!['}'] + rest;
    if ms.len() == 1 {
        assert(es.len() == 1);
        assert(joined_members(es) == member_text(es[0]));
        let tail = seq!['}'] + rest;
        lemma_value_reads_back(v, tail);
        lemma_member_step(key, v, normal_text(v), tail);
        assert(s =~= seq!['"'] + json_escaped(key) + seq!['"'] + seq![':'] + normal_text(v) + tail);
        assert(tail.drop_first() =~= rest);
        assert(seq![(key, v)] =~= ms);
    } else {
        lemma_joined_front(es);
        let more = ms.drop_first();
        let tail = seq![','] + joined_members(normal_entries(more)) + seq!['}'] + rest;
        lemma_value_reads_back(v, tail);
        lemma_member_step(key, v, normal_text(v), tail);
        assert(s =~= seq!['"'] + json_escaped(key) + seq!['"'] + seq![':'] + normal_text(v) + tail);
        assert forall|i: int| 0 <= i < more.len() implies numbers_valid(#[trigger] more[i].1) by {
            assert(more[i] == ms[i + 1]);
        }
        lemma_members_read_back(more, rest);
        assert(tail.drop_first() =~= joined_members(normal_entries(more)) + seq!['}'] + rest);
        assert(seq![(key, v)] + more =~= ms);
    }
}

/// Every number of `v` is written as a JSON number, as the JSON encoder
/// writes numbers.
pub open spec fn value_numbers_valid(v: JsonValue) -> bool
    decreases v,
{
    match v {
        JsonValue::Number(t) => json_number(t@),
        JsonValue::Array(items) => forall|i: int|
            0 <= i < items@.len() ==> value_numbers_valid(#[trigger] items@[i]),
        JsonValue::Object(ms) => forall|i: int|
            0 <= i < ms@.len() ==> value_numbers_valid(#[trigger] ms@[i].value),
        _ => true,
    }
}

proof fn lemma_insert_keeps_valid(e: (Seq<char>, JsonNormal), s: Seq<(Seq<char>, JsonNormal)>)
    requires
        numbers_valid(e.1),
        forall|j: int| 0 <= j < s.len() ==> numbers_valid(#[trigger] s[j].1),
    ensures
        forall|j: int| 0 <= j < insert_normal(e, s).len() ==> numbers_valid(#[trigger] insert_normal(e, s)[j].1),
    decreases s.len(),
{
    if s.len() > 0 && !chars_le(s.last().0, e.0) {
        let d = s.drop_last();
        assert forall|j: int| 0 <= j < d.len() implies numbers_valid(#[trigger] d[j].1) by {
            assert(d[j] == s[j]);
        }
        lemma_insert_keeps_valid(e, d);
        let t = insert_normal(e, d);
        assert forall|j: int| 0 <= j < t.push(s.last()).len() implies numbers_valid(#[trigger] t.push(s.last())[j].1) by {
            if j < t.len() {
                assert(t.push(s.last())[j] == t[j]);
            }
        }
    }
}

proof fn lemma_sort_keeps_valid(s: Seq<(Seq<char>, JsonNormal)>)
    requires
        forall|j: int| 0 <= j < s.len() ==> numbers_valid(#[trigger] s[j].1),
    ensures
        forall|j: int| 0 <= j < sort_normal(s).len() ==> numbers_valid(#[trigger] sort_normal(s)[j].1),
    decreases s.len(),
{
    if s.len() > 0 {
        let d = s.drop_last();
        assert forall|j: int| 0 <= j < d.len() implies numbers_valid(#[trigger] d[j].1) by {
            assert(d[j] == s[j]);
        }
        lemma_sort_keeps_valid(d);
        lemma_insert_keeps_valid(s.last(), sort_normal(d));
    }
}

proof fn lemma_normal_form_valid(v: JsonValue)
    requires
        value_numbers_valid(v),
    ensures
        numbers_valid(normal_form(v)),
    decreases v, 0int,
{
    match v {
        JsonValue::Array(items) => {
            assert(decreases_to!(v => items));
            lemma_normal_items_valid(items@);
            let n = normal_items(items@);
            assert(normal_form(v) == JsonNormal::Array(n));
            assert(forall|i: int| 0 <= i < n.len() ==> numbers_valid(#[trigger] n[i]));
        },
        JsonValue::Object(members) => {
            assert(decreases_to!(v => members));
            lemma_normal_members_valid(members@);
            lemma_sort_keeps_valid(normal_members(members@));
        },
        _ => {},
    }
}

proof fn lemma_normal_items_valid(items: Seq<JsonValue>)
    requires
        forall|i: int| 0 <= i < items.len() ==> value_numbers_valid(#[trigger] items[i]),
    ensures
        forall|i: int| 0 <= i < normal_items(items).len() ==> numbers_valid(#[trigger] normal_items(items)[i]),
    decreases items, 1int,
{
    if items.len() > 0 {
        let d = items.drop_last();
        assert forall|i: int| 0 <= i < d.len() implies value_numbers_valid(#[trigger] d[i]) by {
            assert(d[i] == items[i]);
        }
        lemma_normal_items_valid(d);
        assert(value_numbers_valid(items[items.len() - 1]));
        lemma_normal_form_valid(items.last());
        let p = normal_items(d);
        assert forall|i: int| 0 <= i < p.push(normal_form(items.last())).len() implies numbers_valid(
            #[trigger] p.push(normal_form(items.last()))[i],
        ) by {
            if i < p.len() {
                assert(p.push(normal_form(items.last()))[i] == p[i]);
            }
        }
    }
}

proof fn lemma_normal_members_valid(ms: Seq<JsonMember>)
    requires
        forall|i: int| 0 <= i < ms.len() ==> value_numbers_valid(#[trigger] ms[i].value),
    ensures
        forall|i: int| 0 <= i < normal_members(ms).len() ==> numbers_valid(#[trigger] normal_members(ms)[i].1),
    decreases ms, 1int,
{
    if ms.len() > 0 {
        let d = ms.drop_last();
        assert forall|i: int| 0 <= i < d.len() implies value_numbers_valid(#[trigger] d[i].value) by {
            assert(d[i] == ms[i]);
        }
        lemma_normal_members_valid(d);
        assert(value_numbers_valid(ms[ms.len() - 1].value));
        assert(decreases_to!(ms => ms.last()));
        lemma_normal_form_valid(ms.last().value);
        let p = normal_members(d);
        let e = (ms.last().key@, normal_form(ms.last().value));
        assert forall|i: int| 0 <= i < p.push(e).len() implies numbers_valid(#[trigger] p.push(e)[i].1) by {
            if i < p.len() {
                assert(p.push(e)[i] == p[i]);
            }
        }
    }
}

/// The canonical text of a value is a JSON text without whitespace that
/// reads back as the value's normal form: it loses nothing but the
/// null-valued object members (and the order of members, which it sorts by
/// key). Every number of the value must be written as a JSON number, as
/// the JSON encoder writes them.
pub proof fn lemma_canonical_text_reads_back(v: JsonValue)
    requires
        value_numbers_valid(v),
    ensures
        parse_json(canonical_text(v)) == Some(normal_form(v)),
{
    lemma_normal_form_valid(v);
    lemma_canonical_text_is_normal_text(v);
    lemma_value_reads_back(normal_form(v), seq![]);
    assert(normal_text(normal_form(v)) + seq![] =~= normal_text(normal_form(v)));
}

} // verus!
