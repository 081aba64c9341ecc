//! The normal form of a JSON value, which the canonical text depends on
//! alone: at every depth, object members with a null value are dropped and
//! the others ordered by key.

use vstd::prelude::*;

use crate::json::{
    JsonValue, JsonMember, RenderedSpec, chars_le, insert_by_key, sort_by_key, rendered_members,
    canonical_text, canonical_items, joined_members, json_quoted,
};
use crate::command_headers::command_request_hash;

verus! {

/// A JSON value in normal form: object members are `(key, value)` pairs.
pub enum JsonNormal {
    Null,
    Bool(bool),
    Number(Seq<char>),
    Text(Seq<char>),
    Array(Seq<JsonNormal>),
    Object(Seq<(Seq<char>, JsonNormal)>),
}

/// Inserts `e` after every member whose key sorts before or equal to it.
pub open spec fn insert_normal(
    e: (Seq<char>, JsonNormal),
    sorted: Seq<(Seq<char>, JsonNormal)>,
) -> Seq<(Seq<char>, JsonNormal)>
    decreases sorted.len(),
{
    if sorted.len() == 0 {
        seq![e]
    } else if chars_le(sorted.last().0, e.0) {
        sorted.push(e)
    } else {
        insert_normal(e, sorted.drop_last()).push(sorted.last())
    }
}

/// The members ordered by key; members with equal keys keep their order.
pub open spec fn sort_normal(s: Seq<(Seq<char>, JsonNormal)>) -> Seq<(Seq<char>, JsonNormal)>
    decreases s.len(),
{
    if s.len() == 0 {
        s
    } else {
        insert_normal(s.last(), sort_normal(s.drop_last()))
    }
}

/// The normal form of `v`: object members with a null value dropped and
/// the others ordered by key, at every depth; arrays keep all their
/// elements, nulls included, in order.
pub open spec fn normal_form(v: JsonValue) -> JsonNormal
    decreases v, 0int,
{
    match v {
        JsonValue::Null => JsonNormal::Null,
        JsonValue::Bool(b) => JsonNormal::Bool(b),
        JsonValue::Number(n) => JsonNormal::Number(n@),
        JsonValue::Text(s) => JsonNormal::Text(s@),
        JsonValue::Array(items) => JsonNormal::Array(normal_items(items@)),
        JsonValue::Object(members) => JsonNormal::Object(sort_normal(normal_members(members@))),
    }
}

pub open spec fn normal_items(items: Seq<JsonValue>) -> Seq<JsonNormal>
    decreases items, 1int,
{
    if items.len() == 0 {
        seq![]
    } else {
        normal_items(items.drop_last()).push(normal_form(items.last()))
    }
}

/// The members with a non-null value, each with its value in normal form,
/// in order.
pub open spec fn normal_members(ms: Seq<JsonMember>) -> Seq<(Seq<char>, JsonNormal)>
    decreases ms, 1int,
{
    if ms.len() == 0 {
        seq![]
    } else {
        let prev = normal_members(ms.drop_last());
        if ms.last().value is Null {
            prev
        } else {
            prev.push((ms.last().key@, normal_form(ms.last().value)))
        }
    }
}

/// The text of a normal form: no whitespace, strings and keys quoted as
/// JSON, members and elements in order.
pub open spec fn normal_text(n: JsonNormal) -> Seq<char>
    decreases n, 0int,
{
    match n {
        JsonNormal::Null => "null"@,
        JsonNormal::Bool(b) => if b {
            "true"@
        } else {
            "false"@
        },
        JsonNormal::Number(t) => t,
        JsonNormal::Text(s) => json_quoted(s),
        JsonNormal::Array(items) => seq!['['] + normal_items_text(items) + seq![']'],
        JsonNormal::Object(ms) => seq!['{'] + joined_members(normal_entries(ms)) + seq!['}'],
    }
}

pub open spec fn normal_items_text(items: Seq<JsonNormal>) -> Seq<char>
    decreases items, 1int,
{
    if items.len() == 0 {
        seq![]
    } else if items.len() == 1 {
        normal_text(items[0])
    } else {
        normal_items_text(items.drop_last()) + seq![','] + normal_text(items.last())
    }
}

/// Each member as its key and the text of its value.
pub open spec fn normal_entries(ms: Seq<(Seq<char>, JsonNormal)>) -> Seq<RenderedSpec>
    decreases ms, 1int,
{
    if ms.len() == 0 {
        seq![]
    } else {
        normal_entries(ms.drop_last()).push((ms.last().0, normal_text(ms.last().1)))
    }
}

proof fn lemma_entries_insert(e: (Seq<char>, JsonNormal), s: Seq<(Seq<char>, JsonNormal)>)
    ensures
        normal_entries(insert_normal(e, s)) == insert_by_key((e.0, normal_text(e.1)), normal_entries(s)),
    decreases s.len(),
{
    let r = (e.0, normal_text(e.1));
    if s.len() == 0 {
        assert(seq![e].drop_last() =~= Seq::<(Seq<char>, JsonNormal)>::empty());
        let one = seq![e];
        assert(one.last() == e);
        assert(normal_entries(one.drop_last()) =~= Seq::<RenderedSpec>::empty());
        assert(normal_entries(one) == normal_entries(one.drop_last()).push(r));
        assert(normal_entries(one) =~= seq![r]);
    } else {
        let es = normal_entries(s);
        assert(s.drop_last().len() < s.len());
        assert(es.last() == (s.last().0, normal_text(s.last().1)));
        assert(es.drop_last() == normal_entries(s.drop_last()));
        if chars_le(s.last().0, e.0) {
            assert(s.push(e).drop_last() =~= s);
            assert(normal_entries(s.push(e)) == es.push(r));
        } else {
            lemma_entries_insert(e, s.drop_last());
            let t = insert_normal(e, s.drop_last());
            assert(t.push(s.last()).drop_last() =~= t);
        }
    }
}

proof fn lemma_entries_sort(s: Seq<(Seq<char>, JsonNormal)>)
    ensures
        normal_entries(sort_normal(s)) == sort_by_key(normal_entries(s)),
    decreases s.len(),
{
    if s.len() > 0 {
        lemma_entries_sort(s.drop_last());
        lemma_entries_insert(s.last(), sort_normal(s.drop_last()));
        let es = normal_entries(s);
        assert(es.drop_last() == normal_entries(s.drop_last()));
        assert(es.last() == (s.last().0, normal_text(s.last().1)));
    }
}

/// The canonical text of a value is the text of its normal form.
pub proof fn lemma_canonical_text_is_normal_text(v: JsonValue)
    ensures
        canonical_text(v) == normal_text(normal_form(v)),
    decreases v, 0int,
{
    match v {
        JsonValue::Array(items) => {
            assert(decreases_to!(v => items));
            lemma_items_text(items@);
        },
        JsonValue::Object(members) => {
            assert(decreases_to!(v => members));
            lemma_members_entries(members@);
            lemma_entries_sort(normal_members(members@));
        },
        _ => {},
    }
}

proof fn lemma_items_text(items: Seq<JsonValue>)
    ensures
        canonical_items(items) == normal_items_text(normal_items(items)),
        normal_items(items).len() == items.len(),
    decreases items, 1int,
{
    if items.len() > 0 {
        lemma_items_text(items.drop_last());
        lemma_canonical_text_is_normal_text(items.last());
        let ns = normal_items(items);
        assert(ns.drop_last() == normal_items(items.drop_last()));
        if items.len() == 1 {
            assert(items[0] == items.last());
        }
    }
}

proof fn lemma_members_entries(ms: Seq<JsonMember>)
    ensures
        rendered_members(ms) == normal_entries(normal_members(ms)),
    decreases ms, 1int,
{
    if ms.len() > 0 {
        lemma_members_entries(ms.drop_last());
        assert(decreases_to!(ms => ms.last()));
        lemma_canonical_text_is_normal_text(ms.last().value);
        let prev = normal_members(ms.drop_last());
        if !(ms.last().value is Null) {
            let e = (ms.last().key@, normal_form(ms.last().value));
            assert(prev.push(e).drop_last() =~= prev);
        }
    }
}

/// Two values with the same normal form (equal once null-valued object
/// members are dropped and members are ordered by key, at every depth)
/// have the same canonical text, and so the same command request hash
/// under any scope.
pub proof fn lemma_same_normal_form_same_hash(a: JsonValue, b: JsonValue, scope: Seq<char>)
    requires
        normal_form(a) == normal_form(b),
    ensures
        canonical_text(a) == canonical_text(b),
        command_request_hash(scope, seq![canonical_text(a)]) == command_request_hash(
            scope,
            seq![canonical_text(b)],
        ),
{
    lemma_canonical_text_is_normal_text(a);
    lemma_canonical_text_is_normal_text(b);
}

} // verus!
