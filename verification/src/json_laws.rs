//! Laws of the canonical JSON text: it depends neither on the order of an
//! object's members nor on its null-valued members.

use vstd::prelude::*;

use crate::json::{
    JsonValue, JsonMember, RenderedSpec, chars_le, insert_by_key, sort_by_key, rendered_members,
    canonical_text, joined_members,
};

verus! {

proof fn lemma_chars_le_reflexive(a: Seq<char>)
    ensures
        chars_le(a, a),
    decreases a.len(),
{
    if a.len() > 0 {
        lemma_chars_le_reflexive(a.drop_first());
    }
}

/// `a` and `b` agree before position `i`, where `a` has the smaller
/// character.
pub open spec fn first_difference_smaller(a: Seq<char>, b: Seq<char>, i: int) -> bool {
    0 <= i < a.len() && i < b.len() && a.take(i) == b.take(i) && a[i] < b[i]
}

/// `chars_le` is the order of `String` (`Ord`): `a` sorts before or equal
/// to `b` exactly when `a` is a prefix of `b` (so a key sorts before every
/// longer key it begins), or when at the first position where they differ
/// `a` has the smaller character.
pub proof fn lemma_chars_le_is_string_order(a: Seq<char>, b: Seq<char>)
    ensures
        chars_le(a, b) <==> ((a.len() <= b.len() && b.take(a.len() as int) == a) || exists|i: int|
            #[trigger] first_difference_smaller(a, b, i)),
        chars_le(a, a + b),
    decreases a.len(),
{
    if a.len() == 0 {
        assert(b.take(0) =~= a);
        assert((a + b).take(0) =~= a);
    } else if b.len() == 0 {
        assert(forall|i: int| !#[trigger] first_difference_smaller(a, b, i));
        let ab = a + b;
        assert(ab =~= a);
        lemma_chars_le_reflexive(a);
    } else if a[0] < b[0] {
        assert(a.take(0) =~= b.take(0));
        assert(first_difference_smaller(a, b, 0));
        let ab = a + b;
        assert(ab[0] == a[0]);
        assert(ab.drop_first() =~= a.drop_first() + b);
        lemma_chars_le_is_string_order(a.drop_first(), b);
    } else if a[0] > b[0] {
        assert(!(a.len() <= b.len() && b.take(a.len() as int) == a)) by {
            if a.len() <= b.len() && b.take(a.len() as int) == a {
                assert(b.take(a.len() as int)[0] == b[0]);
                assert(a[0] == b[0]);
            }
        }
        assert forall|i: int| !#[trigger] first_difference_smaller(a, b, i) by {
            if 0 < i < a.len() && i < b.len() && a.take(i) == b.take(i) {
                assert(a.take(i)[0] == b.take(i)[0]);
            }
        }
        let ab = a + b;
        assert(ab[0] == a[0]);
        assert(ab.drop_first() =~= a.drop_first() + b);
        lemma_chars_le_is_string_order(a.drop_first(), b);
    } else {
        let a2 = a.drop_first();
        let b2 = b.drop_first();
        lemma_chars_le_is_string_order(a2, b2);
        if a.len() <= b.len() && b.take(a.len() as int) == a {
            assert(b2.take(a2.len() as int) =~= a2) by {
                assert forall|k: int| 0 <= k < a2.len() implies b2.take(a2.len() as int)[k] == a2[k] by {
                    assert(b.take(a.len() as int)[k + 1] == a[k + 1]);
                }
            }
        }
        if a2.len() <= b2.len() && b2.take(a2.len() as int) == a2 {
            assert(b.take(a.len() as int) =~= a) by {
                assert forall|k: int| 0 <= k < a.len() implies b.take(a.len() as int)[k] == a[k] by {
                    if k > 0 {
                        assert(b2.take(a2.len() as int)[k - 1] == a2[k - 1]);
                    }
                }
            }
        }
        assert forall|i: int| #[trigger] first_difference_smaller(a, b, i) implies first_difference_smaller(
            a2,
            b2,
            i - 1,
        ) by {
            assert(i != 0);
            assert(a2.take(i - 1) =~= a.take(i).drop_first());
            assert(b2.take(i - 1) =~= b.take(i).drop_first());
        }
        assert forall|j: int| #[trigger] first_difference_smaller(a2, b2, j) implies first_difference_smaller(
            a,
            b,
            j + 1,
        ) by {
            assert(a.take(j + 1) =~= seq![a[0]] + a2.take(j));
            assert(b.take(j + 1) =~= seq![b[0]] + b2.take(j));
        }
        if exists|i: int| #[trigger] first_difference_smaller(a, b, i) {
            let i = choose|i: int| #[trigger] first_difference_smaller(a, b, i);
            assert(first_difference_smaller(a2, b2, i - 1));
        }
        if exists|j: int| #[trigger] first_difference_smaller(a2, b2, j) {
            let j = choose|j: int| #[trigger] first_difference_smaller(a2, b2, j);
            assert(first_difference_smaller(a, b, j + 1));
        }
        let ab = a + b;
        assert(ab[0] == a[0]);
        assert(ab.drop_first() =~= a2 + b);
        lemma_chars_le_is_string_order(a2, b);
    }
}

proof fn lemma_chars_le_total(a: Seq<char>, b: Seq<char>)
    ensures
        chars_le(a, b) || chars_le(b, a),
    decreases a.len(),
{
    if a.len() > 0 && b.len() > 0 && a[0] == b[0] {
        lemma_chars_le_total(a.drop_first(), b.drop_first());
    }
}

proof fn lemma_chars_le_antisymmetric(a: Seq<char>, b: Seq<char>)
    requires
        chars_le(a, b),
        chars_le(b, a),
    ensures
        a == b,
    decreases a.len(),
{
    if a.len() > 0 && b.len() > 0 {
        lemma_chars_le_antisymmetric(a.drop_first(), b.drop_first());
        assert(a =~= seq![a[0]] + a.drop_first());
        assert(b =~= seq![b[0]] + b.drop_first());
    }
}

proof fn lemma_chars_le_transitive(a: Seq<char>, b: Seq<char>, c: Seq<char>)
    requires
        chars_le(a, b),
        chars_le(b, c),
    ensures
        chars_le(a, c),
    decreases a.len(),
{
    if a.len() > 0 && b.len() > 0 && c.len() > 0 {
        if a[0] == b[0] && b[0] == c[0] {
            lemma_chars_le_transitive(a.drop_first(), b.drop_first(), c.drop_first());
        }
    }
}

/// Entries ordered by key.
pub open spec fn sorted_by_key(s: Seq<RenderedSpec>) -> bool {
    forall|i: int, j: int| 0 <= i < j < s.len() ==> chars_le(#[trigger] s[i].0, #[trigger] s[j].0)
}

/// No two entries share a key.
pub open spec fn keys_distinct(s: Seq<RenderedSpec>) -> bool {
    forall|i: int, j: int| 0 <= i < j < s.len() ==> #[trigger] s[i].0 != #[trigger] s[j].0
}

proof fn lemma_insert_by_key(e: RenderedSpec, s: Seq<RenderedSpec>)
    requires
        sorted_by_key(s),
    ensures
        sorted_by_key(insert_by_key(e, s)),
        insert_by_key(e, s).len() == s.len() + 1,
        forall|x: RenderedSpec| #[trigger] insert_by_key(e, s).contains(x) <==> (x == e || s.contains(x)),
        keys_distinct(s) && (forall|i: int| 0 <= i < s.len() ==> #[trigger] s[i].0 != e.0)
            ==> keys_distinct(insert_by_key(e, s)),
    decreases s.len(),
{
    let r = insert_by_key(e, s);
    if s.len() == 0 {
        assert(r =~= seq![e]);
        assert forall|x: RenderedSpec| #[trigger] r.contains(x) <==> (x == e || s.contains(x)) by {
            if x == e {
                assert(r[0] == x);
            }
        }
    } else if chars_le(s.last().0, e.0) {
        assert(r =~= s.push(e));
        assert forall|i: int, j: int| 0 <= i < j < r.len() implies chars_le(
            #[trigger] r[i].0,
            #[trigger] r[j].0,
        ) by {
            if j == s.len() {
                if i < s.len() - 1 {
                    lemma_chars_le_transitive(s[i].0, s.last().0, e.0);
                }
            }
        }
        assert forall|x: RenderedSpec| #[trigger] r.contains(x) <==> (x == e || s.contains(x)) by {
            if x == e {
                assert(r[s.len() as int] == x);
            } else if s.contains(x) {
                let k = choose|k: int| 0 <= k < s.len() && s[k] == x;
                assert(r[k] == x);
            }
            if r.contains(x) {
                let k = choose|k: int| 0 <= k < r.len() && r[k] == x;
                if k < s.len() {
                    assert(s[k] == x);
                }
            }
        }
    } else {
        let p = s.drop_last();
        let l = s.last();
        assert(sorted_by_key(p));
        lemma_insert_by_key(e, p);
        let q = insert_by_key(e, p);
        assert(r == q.push(l));
        lemma_chars_le_total(l.0, e.0);
        assert forall|i: int, j: int| 0 <= i < j < r.len() implies chars_le(
            #[trigger] r[i].0,
            #[trigger] r[j].0,
        ) by {
            if j == q.len() {
                assert(q.contains(q[i]));
                if q[i] != e {
                    let k = choose|k: int| 0 <= k < p.len() && p[k] == q[i];
                    assert(s[k] == p[k]);
                    assert(chars_le(s[k].0, s[s.len() - 1].0));
                }
            }
        }
        assert forall|x: RenderedSpec| #[trigger] r.contains(x) <==> (x == e || s.contains(x)) by {
            if r.contains(x) {
                let k = choose|k: int| 0 <= k < r.len() && r[k] == x;
                if k < q.len() {
                    assert(q.contains(x));
                    if x != e {
                        let m = choose|m: int| 0 <= m < p.len() && p[m] == x;
                        assert(s[m] == x);
                    }
                } else {
                    assert(s[s.len() - 1] == x);
                }
            }
            if x == e {
                assert(q.contains(x));
                let k = choose|k: int| 0 <= k < q.len() && q[k] == x;
                assert(r[k] == x);
            } else if s.contains(x) {
                let k = choose|k: int| 0 <= k < s.len() && s[k] == x;
                if k == s.len() - 1 {
                    assert(r[q.len() as int] == x);
                } else {
                    assert(p[k] == x);
                    assert(q.contains(x));
                    let m = choose|m: int| 0 <= m < q.len() && q[m] == x;
                    assert(r[m] == x);
                }
            }
        }
        if keys_distinct(s) && (forall|i: int| 0 <= i < s.len() ==> #[trigger] s[i].0 != e.0) {
            assert(keys_distinct(p));
            assert forall|i: int| 0 <= i < p.len() implies #[trigger] p[i].0 != e.0 by {
                assert(s[i] == p[i]);
            }
            assert forall|i: int, j: int| 0 <= i < j < r.len() implies #[trigger] r[i].0
                != #[trigger] r[j].0 by {
                if j == q.len() {
                    assert(q.contains(q[i]));
                    if q[i] == e {
                        assert(s[s.len() - 1].0 != e.0);
                    } else {
                        let k = choose|k: int| 0 <= k < p.len() && p[k] == q[i];
                        assert(s[k] == p[k]);
                        assert(s[k].0 != s[s.len() - 1].0);
                    }
                }
            }
        }
    }
}

proof fn lemma_sort_by_key(s: Seq<RenderedSpec>)
    ensures
        sorted_by_key(sort_by_key(s)),
        sort_by_key(s).len() == s.len(),
        forall|x: RenderedSpec| #[trigger] sort_by_key(s).contains(x) <==> s.contains(x),
        keys_distinct(s) ==> keys_distinct(sort_by_key(s)),
    decreases s.len(),
{
    if s.len() > 0 {
        let p = s.drop_last();
        lemma_sort_by_key(p);
        let t = sort_by_key(p);
        lemma_insert_by_key(s.last(), t);
        assert forall|x: RenderedSpec| s.contains(x) <==> (x == s.last() || p.contains(x)) by {
            if s.contains(x) {
                let k = choose|k: int| 0 <= k < s.len() && s[k] == x;
                if k < p.len() {
                    assert(p[k] == x);
                }
            }
            if p.contains(x) {
                let k = choose|k: int| 0 <= k < p.len() && p[k] == x;
                assert(s[k] == x);
            }
            if x == s.last() {
                assert(s[s.len() - 1] == x);
            }
        }
        if keys_distinct(s) {
            assert(keys_distinct(p));
            assert forall|i: int| 0 <= i < t.len() implies #[trigger] t[i].0 != s.last().0 by {
                assert(t.contains(t[i]));
                let k = choose|k: int| 0 <= k < p.len() && p[k] == t[i];
                assert(s[k] == p[k]);
            }
        }
    }
}

proof fn lemma_sorted_distinct_unique(a: Seq<RenderedSpec>, b: Seq<RenderedSpec>)
    requires
        sorted_by_key(a),
        sorted_by_key(b),
        keys_distinct(a),
        keys_distinct(b),
        forall|x: RenderedSpec| #[trigger] a.contains(x) <==> b.contains(x),
    ensures
        a == b,
    decreases a.len(),
{
    if a.len() == 0 {
        if b.len() > 0 {
            assert(b.contains(b[0]));
            assert(!a.contains(b[0]));
        }
        assert(a =~= b);
    } else {
        assert(a.contains(a[0]));
        assert(b.contains(a[0]));
        assert(b.len() > 0);
        assert(b.contains(b[0]));
        assert(a.contains(b[0]));
        let k = choose|k: int| 0 <= k < b.len() && b[k] == a[0];
        let m = choose|m: int| 0 <= m < a.len() && a[m] == b[0];
        if m > 0 {
            assert(chars_le(a[0].0, a[m].0));
        } else {
            lemma_chars_le_reflexive(a[0].0);
        }
        if k > 0 {
            assert(chars_le(b[0].0, b[k].0));
        } else {
            lemma_chars_le_reflexive(b[0].0);
        }
        lemma_chars_le_antisymmetric(a[0].0, b[0].0);
        assert(m == 0);
        let ta = a.drop_first();
        let tb = b.drop_first();
        assert(sorted_by_key(ta)) by {
            assert forall|i: int, j: int| 0 <= i < j < ta.len() implies chars_le(
                #[trigger] ta[i].0,
                #[trigger] ta[j].0,
            ) by {
                assert(ta[i] == a[i + 1] && ta[j] == a[j + 1]);
            }
        }
        assert(sorted_by_key(tb)) by {
            assert forall|i: int, j: int| 0 <= i < j < tb.len() implies chars_le(
                #[trigger] tb[i].0,
                #[trigger] tb[j].0,
            ) by {
                assert(tb[i] == b[i + 1] && tb[j] == b[j + 1]);
            }
        }
        assert(keys_distinct(ta)) by {
            assert forall|i: int, j: int| 0 <= i < j < ta.len() implies #[trigger] ta[i].0
                != #[trigger] ta[j].0 by {
                assert(ta[i] == a[i + 1] && ta[j] == a[j + 1]);
            }
        }
        assert(keys_distinct(tb)) by {
            assert forall|i: int, j: int| 0 <= i < j < tb.len() implies #[trigger] tb[i].0
                != #[trigger] tb[j].0 by {
                assert(tb[i] == b[i + 1] && tb[j] == b[j + 1]);
            }
        }
        assert forall|x: RenderedSpec| #[trigger] ta.contains(x) <==> tb.contains(x) by {
            if ta.contains(x) {
                let i = choose|i: int| 0 <= i < ta.len() && ta[i] == x;
                assert(a[i + 1] == x);
                assert(a.contains(x));
                assert(b.contains(x));
                let j = choose|j: int| 0 <= j < b.len() && b[j] == x;
                if j == 0 {
                    assert(a[0].0 != a[i + 1].0);
                    assert(false);
                }
                assert(tb[j - 1] == x);
            }
            if tb.contains(x) {
                let i = choose|i: int| 0 <= i < tb.len() && tb[i] == x;
                assert(b[i + 1] == x);
                assert(b.contains(x));
                assert(a.contains(x));
                let j = choose|j: int| 0 <= j < a.len() && a[j] == x;
                if j == 0 {
                    assert(b[0].0 != b[i + 1].0);
                    assert(false);
                }
                assert(ta[j - 1] == x);
            }
        }
        lemma_sorted_distinct_unique(ta, tb);
        assert(a =~= seq![a[0]] + ta);
        assert(b =~= seq![b[0]] + tb);
    }
}

/// The non-null members of `ms` have pairwise different keys.
#[verifier::opaque]
pub open spec fn non_null_keys_distinct(ms: Seq<JsonMember>) -> bool {
    forall|i: int, j: int|
        0 <= i < j < ms.len() && !(ms[i].value is Null) && !(ms[j].value is Null) ==> #[trigger] ms[i].key@
            != #[trigger] ms[j].key@
}

/// Every non-null member of `a` is a member of `b`.
#[verifier::opaque]
pub open spec fn non_null_members_within(a: Seq<JsonMember>, b: Seq<JsonMember>) -> bool {
    forall|i: int|
        0 <= i < a.len() && !(#[trigger] a[i].value is Null) ==> exists|j: int|
            0 <= j < b.len() && #[trigger] b[j] == a[i]
}

proof fn lemma_rendered_members(ms: Seq<JsonMember>)
    ensures
        forall|e: RenderedSpec|
            #[trigger] rendered_members(ms).contains(e) <==> exists|i: int|
                0 <= i < ms.len() && !(ms[i].value is Null) && e == (
                    #[trigger] ms[i].key@,
                    canonical_text(ms[i].value),
                ),
        non_null_keys_distinct(ms) ==> keys_distinct(rendered_members(ms)),
    decreases ms.len(),
{
    reveal(non_null_keys_distinct);
    if ms.len() > 0 {
        let p = ms.drop_last();
        lemma_rendered_members(p);
        let q = rendered_members(p);
        let m = ms.last();
        let r = rendered_members(ms);
        assert forall|e: RenderedSpec| #[trigger] r.contains(e) <==> exists|i: int|
            0 <= i < ms.len() && !(ms[i].value is Null) && e == (
                #[trigger] ms[i].key@,
                canonical_text(ms[i].value),
            ) by {
            if r.contains(e) {
                let k = choose|k: int| 0 <= k < r.len() && r[k] == e;
                if k < q.len() {
                    assert(q.contains(e));
                    let i = choose|i: int|
                        0 <= i < p.len() && !(p[i].value is Null) && e == (
                            #[trigger] p[i].key@,
                            canonical_text(p[i].value),
                        );
                    assert(ms[i] == p[i]);
                } else {
                    assert(ms[ms.len() - 1] == m);
                }
            }
            if exists|i: int|
                0 <= i < ms.len() && !(ms[i].value is Null) && e == (
                    #[trigger] ms[i].key@,
                    canonical_text(ms[i].value),
                ) {
                let i = choose|i: int|
                    0 <= i < ms.len() && !(ms[i].value is Null) && e == (
                        #[trigger] ms[i].key@,
                        canonical_text(ms[i].value),
                    );
                if i < p.len() {
                    assert(p[i] == ms[i]);
                    assert(q.contains(e));
                    let k = choose|k: int| 0 <= k < q.len() && q[k] == e;
                    assert(r[k] == e);
                } else {
                    assert(r[q.len() as int] == e);
                }
            }
        }
        if non_null_keys_distinct(ms) {
            assert(non_null_keys_distinct(p)) by {
                assert forall|i: int, j: int|
                    0 <= i < j < p.len() && !(p[i].value is Null) && !(p[j].value is Null) implies #[trigger] p[i].key@
                    != #[trigger] p[j].key@ by {
                    assert(p[i] == ms[i] && p[j] == ms[j]);
                }
            }
            if !(m.value is Null) {
                assert forall|i: int, j: int| 0 <= i < j < r.len() implies #[trigger] r[i].0
                    != #[trigger] r[j].0 by {
                    if j == q.len() {
                        assert(q.contains(q[i]));
                        let k = choose|k: int|
                            0 <= k < p.len() && !(p[k].value is Null) && q[i] == (
                                #[trigger] p[k].key@,
                                canonical_text(p[k].value),
                            );
                        assert(ms[k] == p[k]);
                        assert(ms[ms.len() - 1] == m);
                    }
                }
            }
        }
    }
}

proof fn lemma_rendered_same_entries(ma: Seq<JsonMember>, mb: Seq<JsonMember>)
    requires
        non_null_members_within(ma, mb),
        non_null_members_within(mb, ma),
    ensures
        forall|e: RenderedSpec| #[trigger] rendered_members(ma).contains(e) <==> rendered_members(mb).contains(e),
{
    reveal(non_null_members_within);
    lemma_rendered_members(ma);
    lemma_rendered_members(mb);
    let ra = rendered_members(ma);
    let rb = rendered_members(mb);
    assert forall|e: RenderedSpec| #[trigger] ra.contains(e) <==> rb.contains(e) by {
        if ra.contains(e) {
            let i = choose|i: int|
                0 <= i < ma.len() && !(ma[i].value is Null) && e == (
                    #[trigger] ma[i].key@,
                    canonical_text(ma[i].value),
                );
            let j = choose|j: int| 0 <= j < mb.len() && #[trigger] mb[j] == ma[i];
            assert(e == (mb[j].key@, canonical_text(mb[j].value)));
        }
        if rb.contains(e) {
            let i = choose|i: int|
                0 <= i < mb.len() && !(mb[i].value is Null) && e == (
                    #[trigger] mb[i].key@,
                    canonical_text(mb[i].value),
                );
            let j = choose|j: int| 0 <= j < ma.len() && #[trigger] ma[j] == mb[i];
            assert(e == (ma[j].key@, canonical_text(ma[j].value)));
        }
    }
}

proof fn lemma_sorted_rendered_equal(ma: Seq<JsonMember>, mb: Seq<JsonMember>)
    requires
        non_null_keys_distinct(ma),
        non_null_keys_distinct(mb),
        non_null_members_within(ma, mb),
        non_null_members_within(mb, ma),
    ensures
        sort_by_key(rendered_members(ma)) == sort_by_key(rendered_members(mb)),
{
    reveal(non_null_keys_distinct);
    let ra = rendered_members(ma);
    let rb = rendered_members(mb);
    lemma_rendered_same_entries(ma, mb);
    lemma_rendered_members(ma);
    lemma_rendered_members(mb);
    lemma_sort_by_key(ra);
    lemma_sort_by_key(rb);
    let sa = sort_by_key(ra);
    let sb = sort_by_key(rb);
    assert forall|e: RenderedSpec| #[trigger] sa.contains(e) <==> sb.contains(e) by {
        assert(sa.contains(e) <==> ra.contains(e));
        assert(sb.contains(e) <==> rb.contains(e));
        assert(ra.contains(e) <==> rb.contains(e));
    }
    lemma_sorted_distinct_unique(sa, sb);
}

/// Two JSON objects whose non-null members are the same, in whatever order
/// and with whatever null members besides, have the same canonical text, so
/// they get the same command request hash. Keys of non-null members are
/// unique in each object, as in any parsed JSON object.
pub proof fn lemma_canonical_object_ignores_member_order_and_nulls(a: JsonValue, b: JsonValue)
    requires
        a is Object,
        b is Object,
        non_null_keys_distinct(a->Object_0@),
        non_null_keys_distinct(b->Object_0@),
        non_null_members_within(a->Object_0@, b->Object_0@),
        non_null_members_within(b->Object_0@, a->Object_0@),
    ensures
        canonical_text(a) == canonical_text(b),
{
    let ma = a->Object_0;
    let mb = b->Object_0;
    lemma_sorted_rendered_equal(ma@, mb@);
    let ja = joined_members(sort_by_key(rendered_members(ma@)));
    let jb = joined_members(sort_by_key(rendered_members(mb@)));
    assert(ja == jb);
    assert(canonical_text(a) == seq!['{'] + ja + seq!['}']);
    assert(canonical_text(b) == seq!['{'] + jb + seq!['}']);
}

} // verus!
