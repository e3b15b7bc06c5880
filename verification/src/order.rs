//! The order of texts by their bytes, and sorted sequences.

use vstd::multiset::Multiset;
use vstd::prelude::*;
use vstd::string::StringSliceAdditionalSpecFns;

verus! {

/// `a` comes before `b`, or equals it, in dictionary order of their bytes.
pub open spec fn lex_le(a: Seq<u8>, b: Seq<u8>) -> bool
    decreases a.len(),
{
    if a.len() == 0 {
        true
    } else if b.len() == 0 {
        false
    } else if a[0] != b[0] {
        a[0] < b[0]
    } else {
        lex_le(a.drop_first(), b.drop_first())
    }
}

/// Any two byte sequences are comparable.
pub proof fn lemma_lex_total(a: Seq<u8>, b: Seq<u8>)
    ensures
        lex_le(a, b) || lex_le(b, a),
    decreases a.len(),
{
    if a.len() > 0 && b.len() > 0 && a[0] == b[0] {
        lemma_lex_total(a.drop_first(), b.drop_first());
    }
}

/// Every byte sequence is at most itself.
pub proof fn lemma_lex_refl(a: Seq<u8>)
    ensures
        lex_le(a, a),
    decreases a.len(),
{
    if a.len() > 0 {
        lemma_lex_refl(a.drop_first());
    }
}

/// Two byte sequences that are each at most the other are equal.
pub proof fn lemma_lex_antisym(a: Seq<u8>, b: Seq<u8>)
    requires
        lex_le(a, b),
        lex_le(b, a),
    ensures
        a == b,
    decreases a.len(),
{
    if a.len() == 0 {
        assert(a =~= b);
    } else {
        lemma_lex_antisym(a.drop_first(), b.drop_first());
        assert(a =~= seq![a[0]] + a.drop_first());
        assert(b =~= seq![b[0]] + b.drop_first());
    }
}

/// The order is transitive.
pub proof fn lemma_lex_trans(a: Seq<u8>, b: Seq<u8>, c: Seq<u8>)
    requires
        lex_le(a, b),
        lex_le(b, c),
    ensures
        lex_le(a, c),
    decreases a.len(),
{
    if a.len() > 0 && a[0] == b[0] && b[0] == c[0] {
        lemma_lex_trans(a.drop_first(), b.drop_first(), c.drop_first());
    }
}

/// Skipping an equal prefix does not change the comparison.
proof fn lemma_lex_skip(a: Seq<u8>, b: Seq<u8>, i: int)
    requires
        0 <= i <= a.len(),
        i <= b.len(),
        forall|j: int| 0 <= j < i ==> a[j] == b[j],
    ensures
        lex_le(a, b) == lex_le(a.skip(i), b.skip(i)),
    decreases i,
{
    if i == 0 {
        assert(a.skip(0) =~= a);
        assert(b.skip(0) =~= b);
    } else {
        lemma_lex_skip(a.drop_first(), b.drop_first(), i - 1);
        assert(a.drop_first().skip(i - 1) =~= a.skip(i));
        assert(b.drop_first().skip(i - 1) =~= b.skip(i));
    }
}

/// Whether `a` comes before `b`, or equals it, in dictionary order of bytes.
pub fn bytes_le(a: &[u8], b: &[u8]) -> (r: bool)
    ensures
        r == lex_le(a@, b@),
{
    let mut i: usize = 0;
    while i < a.len() && i < b.len()
        invariant
            i <= a.len(),
            i <= b.len(),
            forall|j: int| 0 <= j < i ==> a@[j] == b@[j],
        decreases a.len() - i,
    {
        if a[i] != b[i] {
            proof {
                lemma_lex_skip(a@, b@, i as int);
            }
            return a[i] < b[i];
        }
        i += 1;
    }
    proof {
        lemma_lex_skip(a@, b@, i as int);
    }
    i == a.len()
}

/// The order of two texts: dictionary order of their UTF-8 bytes.
pub open spec fn text_le(a: Seq<char>, b: Seq<char>) -> bool {
    lex_le(vstd::utf8::encode_utf8(a), vstd::utf8::encode_utf8(b))
}

/// Whether text `a` sorts before text `b` or equals it.
pub fn str_le(a: &str, b: &str) -> (r: bool)
    ensures
        r == text_le(a@, b@),
{
    bytes_le(a.as_bytes(), b.as_bytes())
}

/// Texts with the same bytes are the same text.
pub proof fn lemma_text_antisym(a: Seq<char>, b: Seq<char>)
    requires
        text_le(a, b),
        text_le(b, a),
    ensures
        a == b,
{
    lemma_lex_antisym(vstd::utf8::encode_utf8(a), vstd::utf8::encode_utf8(b));
    vstd::utf8::encode_utf8_decode_utf8(a);
    vstd::utf8::encode_utf8_decode_utf8(b);
}

/// Any two values compare one way or the other, and the comparison is
/// transitive.
pub open spec fn total_preorder<T>(le: spec_fn(T, T) -> bool) -> bool {
    &&& forall|a: T, b: T| #[trigger] le(a, b) || le(b, a)
    &&& forall|a: T, b: T, c: T| #[trigger] le(a, b) && #[trigger] le(b, c) ==> le(a, c)
}

/// Every element is at most every later one.
pub open spec fn is_sorted<T>(s: Seq<T>, le: spec_fn(T, T) -> bool) -> bool {
    forall|i: int, j: int| 0 <= i < j < s.len() ==> le(#[trigger] s[i], #[trigger] s[j])
}

/// `s` with `e` placed behind the last element that is at most `e`.
pub open spec fn insert_sorted<T>(s: Seq<T>, e: T, le: spec_fn(T, T) -> bool) -> Seq<T>
    decreases s.len(),
{
    if s.len() == 0 {
        seq![e]
    } else if le(s.last(), e) {
        s.push(e)
    } else {
        insert_sorted(s.drop_last(), e, le).push(s.last())
    }
}

/// The elements of `s` in order: each element in turn is placed behind the
/// last element at most equal to it, so that equal elements keep their order.
pub open spec fn sorted_seq<T>(s: Seq<T>, le: spec_fn(T, T) -> bool) -> Seq<T>
    decreases s.len(),
{
    if s.len() == 0 {
        s
    } else {
        insert_sorted(sorted_seq(s.drop_last(), le), s.last(), le)
    }
}

/// Inserting into a sorted sequence gives a sorted sequence of the same
/// elements and the new one.
pub proof fn lemma_insert_sorted<T>(s: Seq<T>, e: T, le: spec_fn(T, T) -> bool)
    requires
        is_sorted(s, le),
        total_preorder(le),
    ensures
        is_sorted(insert_sorted(s, e, le), le),
        insert_sorted(s, e, le).len() == s.len() + 1,
        insert_sorted(s, e, le).to_multiset() == s.to_multiset().insert(e),
        forall|x: T| #[trigger] insert_sorted(s, e, le).contains(x) <==> s.contains(x) || x == e,
    decreases s.len(),
{
    broadcast use vstd::seq_lib::group_to_multiset_ensures;

    let r = insert_sorted(s, e, le);
    if s.len() == 0 {
        assert(r == Seq::<T>::empty().push(e));
        assert(s.to_multiset() =~= Multiset::<T>::empty());
        assert forall|x: T| #[trigger] r.contains(x) <==> s.contains(x) || x == e by {
            if x == e {
                assert(r[0] == x);
            }
        }
    } else if le(s.last(), e) {
        assert forall|i: int, j: int| 0 <= i < j < r.len() implies le(
            #[trigger] r[i],
            #[trigger] r[j],
        ) by {
            if j == r.len() - 1 {
                if i < s.len() - 1 {
                    assert(le(s[i], s[s.len() - 1]));
                }
            }
        }
        assert forall|x: T| #[trigger] r.contains(x) <==> s.contains(x) || x == e by {
            if s.contains(x) {
                let i = choose|i: int| 0 <= i < s.len() && s[i] == x;
                assert(r[i] == x);
            }
            if x == e {
                assert(r[r.len() - 1] == x);
            }
        }
    } else {
        let head = s.drop_last();
        let r0 = insert_sorted(head, e, le);
        assert(is_sorted(head, le)) by {
            assert forall|i: int, j: int| 0 <= i < j < head.len() implies le(
                #[trigger] head[i],
                #[trigger] head[j],
            ) by {
                assert(head[i] == s[i] && head[j] == s[j]);
            }
        }
        lemma_insert_sorted(head, e, le);
        assert(le(e, s.last()));
        assert forall|i: int, j: int| 0 <= i < j < r.len() implies le(
            #[trigger] r[i],
            #[trigger] r[j],
        ) by {
            if j == r.len() - 1 {
                assert(r0.contains(r0[i]));
                if head.contains(r0[i]) {
                    let k = choose|k: int| 0 <= k < head.len() && head[k] == r0[i];
                    assert(le(s[k], s[s.len() - 1]));
                }
            } else {
                assert(r[i] == r0[i] && r[j] == r0[j]);
            }
        }
        assert(s == head.push(s.last()));
        assert(r.to_multiset() =~= s.to_multiset().insert(e));
        assert forall|x: T| #[trigger] r.contains(x) <==> s.contains(x) || x == e by {
            if r.contains(x) {
                let i = choose|i: int| 0 <= i < r.len() && r[i] == x;
                if i < r0.len() {
                    assert(r0[i] == x);
                    assert(r0.contains(x));
                    if head.contains(x) {
                        let k = choose|k: int| 0 <= k < head.len() && head[k] == x;
                        assert(s[k] == x);
                    }
                } else {
                    assert(s[s.len() - 1] == x);
                }
            }
            if s.contains(x) {
                let k = choose|k: int| 0 <= k < s.len() && s[k] == x;
                if k < head.len() {
                    assert(head[k] == x);
                    assert(head.contains(x));
                    assert(r0.contains(x));
                    let i = choose|i: int| 0 <= i < r0.len() && r0[i] == x;
                    assert(r[i] == x);
                } else {
                    assert(r[r.len() - 1] == x);
                }
            }
            if x == e {
                assert(r0.contains(x));
                let i = choose|i: int| 0 <= i < r0.len() && r0[i] == x;
                assert(r[i] == x);
            }
        }
    }
}

/// Sorting gives a sorted sequence of the same elements.
pub proof fn lemma_sorted_seq<T>(s: Seq<T>, le: spec_fn(T, T) -> bool)
    requires
        total_preorder(le),
    ensures
        is_sorted(sorted_seq(s, le), le),
        sorted_seq(s, le).len() == s.len(),
        sorted_seq(s, le).to_multiset() == s.to_multiset(),
        forall|x: T| #[trigger] sorted_seq(s, le).contains(x) <==> s.contains(x),
    decreases s.len(),
{
    broadcast use vstd::seq_lib::group_to_multiset_ensures;

    if s.len() > 0 {
        let head = s.drop_last();
        lemma_sorted_seq(head, le);
        lemma_insert_sorted(sorted_seq(head, le), s.last(), le);
        assert(s == head.push(s.last()));
        let r = sorted_seq(s, le);
        assert forall|x: T| #[trigger] r.contains(x) <==> s.contains(x) by {
            if s.contains(x) {
                let k = choose|k: int| 0 <= k < s.len() && s[k] == x;
                if k < head.len() {
                    assert(head[k] == x);
                    assert(head.contains(x));
                }
            }
            if r.contains(x) && x != s.last() {
                assert(sorted_seq(head, le).contains(x));
                assert(head.contains(x));
                let k = choose|k: int| 0 <= k < head.len() && head[k] == x;
                assert(s[k] == x);
            }
            if x == s.last() {
                assert(s[s.len() - 1] == x);
            }
        }
    }
}

/// Sorting leaves a sorted sequence as it is.
pub proof fn lemma_sorted_seq_fixed<T>(s: Seq<T>, le: spec_fn(T, T) -> bool)
    requires
        is_sorted(s, le),
    ensures
        sorted_seq(s, le) == s,
    decreases s.len(),
{
    if s.len() > 0 {
        let head = s.drop_last();
        assert forall|i: int, j: int| 0 <= i < j < head.len() implies le(
            #[trigger] head[i],
            #[trigger] head[j],
        ) by {
            assert(head[i] == s[i] && head[j] == s[j]);
        }
        lemma_sorted_seq_fixed(head, le);
        if head.len() > 0 {
            assert(le(s[s.len() - 2], s[s.len() - 1]));
            assert(head.last() == s[s.len() - 2]);
        }
        assert(head.push(s.last()) == s);
    }
}

/// Where an inserted element lands: behind the elements before place `i`,
/// provided the element before `i` is at most `e` and none from `i` on is.
pub proof fn lemma_insert_at<T>(s: Seq<T>, e: T, le: spec_fn(T, T) -> bool, i: int)
    requires
        0 <= i <= s.len(),
        i > 0 ==> le(s[i - 1], e),
        forall|j: int| i <= j < s.len() ==> !le(#[trigger] s[j], e),
    ensures
        insert_sorted(s, e, le) == s.insert(i, e),
    decreases s.len() - i,
{
    if s.len() == 0 {
        assert(s.insert(0, e) == seq![e]);
    } else if i == s.len() {
        assert(s.insert(i, e) == s.push(e));
    } else {
        assert(!le(s[s.len() - 1], e));
        let head = s.drop_last();
        assert forall|j: int| i <= j < head.len() implies !le(#[trigger] head[j], e) by {
            assert(head[j] == s[j]);
        }
        if i > 0 {
            assert(head[i - 1] == s[i - 1]);
        }
        lemma_insert_at(head, e, le, i);
        assert(head.insert(i, e).push(s.last()) == s.insert(i, e));
    }
}

/// Two sorted sequences of the same elements are the same sequence, where
/// no two different elements compare as equal.
pub proof fn lemma_sorted_same<T>(a: Seq<T>, b: Seq<T>, le: spec_fn(T, T) -> bool)
    requires
        is_sorted(a, le),
        is_sorted(b, le),
        a.to_multiset() == b.to_multiset(),
        forall|x: T, y: T|
            a.contains(x) && a.contains(y) && #[trigger] le(x, y) && #[trigger] le(y, x) ==> x == y,
    ensures
        a == b,
    decreases a.len(),
{
    broadcast use vstd::seq_lib::group_to_multiset_ensures;
    broadcast use vstd::multiset::group_multiset_axioms;

    vstd::seq_lib::to_multiset_len(a);
    vstd::seq_lib::to_multiset_len(b);
    assert(a.len() == b.len());
    if a.len() > 0 {
        let x = a[0];
        let y = b[0];
        assert(a.contains(x));
        assert(b.contains(y));
        vstd::seq_lib::to_multiset_contains(a, x);
        vstd::seq_lib::to_multiset_contains(b, x);
        vstd::seq_lib::to_multiset_contains(a, y);
        vstd::seq_lib::to_multiset_contains(b, y);
        assert(b.contains(x));
        assert(a.contains(y));
        let i = choose|i: int| 0 <= i < a.len() && a[i] == y;
        let j = choose|j: int| 0 <= j < b.len() && b[j] == x;
        if i > 0 && j > 0 {
            assert(le(a[0], a[i]));
            assert(le(b[0], b[j]));
        }
        assert(x == y);
        let a1 = a.drop_first();
        let b1 = b.drop_first();
        assert(a1.to_multiset() =~= a.to_multiset().remove(x)) by {
            vstd::seq_lib::to_multiset_remove(a, 0);
            assert(a.remove(0) == a1);
        }
        assert(b1.to_multiset() =~= b.to_multiset().remove(y)) by {
            vstd::seq_lib::to_multiset_remove(b, 0);
            assert(b.remove(0) == b1);
        }
        assert forall|p: int, q: int| 0 <= p < q < a1.len() implies le(
            #[trigger] a1[p],
            #[trigger] a1[q],
        ) by {
            assert(a1[p] == a[p + 1] && a1[q] == a[q + 1]);
        }
        assert forall|p: int, q: int| 0 <= p < q < b1.len() implies le(
            #[trigger] b1[p],
            #[trigger] b1[q],
        ) by {
            assert(b1[p] == b[p + 1] && b1[q] == b[q + 1]);
        }
        assert forall|u: T, v: T|
            a1.contains(u) && a1.contains(v) && #[trigger] le(u, v) && #[trigger] le(
                v,
                u,
            ) implies u == v by {
            let p = choose|p: int| 0 <= p < a1.len() && a1[p] == u;
            let q = choose|q: int| 0 <= q < a1.len() && a1[q] == v;
            assert(a[p + 1] == u && a[q + 1] == v);
            assert(a.contains(u) && a.contains(v));
        }
        lemma_sorted_same(a1, b1, le);
        assert(a == seq![x] + a1);
        assert(b == seq![y] + b1);
    }
}

/// The sequences have the same length, and their elements are related place
/// by place.
pub open spec fn related<T>(a: Seq<T>, b: Seq<T>, rel: spec_fn(T, T) -> bool) -> bool {
    a.len() == b.len() && forall|i: int| 0 <= i < a.len() ==> rel(#[trigger] a[i], b[i])
}

/// Values that are related compare in the same way.
pub open spec fn keeps_order<T>(rel: spec_fn(T, T) -> bool, le: spec_fn(T, T) -> bool) -> bool {
    forall|a: T, b: T, c: T, d: T| #[trigger] rel(a, b) && #[trigger] rel(c, d) ==> le(a, c) == le(b, d)
}

/// Inserting related elements into related sequences gives related
/// sequences.
pub proof fn lemma_insert_sorted_related<T>(
    a: Seq<T>,
    b: Seq<T>,
    x: T,
    y: T,
    le: spec_fn(T, T) -> bool,
    rel: spec_fn(T, T) -> bool,
)
    requires
        related(a, b, rel),
        rel(x, y),
        keeps_order(rel, le),
    ensures
        related(insert_sorted(a, x, le), insert_sorted(b, y, le), rel),
    decreases a.len(),
{
    if a.len() > 0 {
        assert(rel(a.last(), b.last()));
        assert(le(a.last(), x) == le(b.last(), y));
        if !le(a.last(), x) {
            assert(related(a.drop_last(), b.drop_last(), rel)) by {
                assert forall|i: int| 0 <= i < a.drop_last().len() implies rel(
                    #[trigger] a.drop_last()[i],
                    b.drop_last()[i],
                ) by {
                    assert(rel(a[i], b[i]));
                }
            }
            lemma_insert_sorted_related(a.drop_last(), b.drop_last(), x, y, le, rel);
        }
    }
}

/// Sorting related sequences gives related sequences.
pub proof fn lemma_sorted_seq_related<T>(
    a: Seq<T>,
    b: Seq<T>,
    le: spec_fn(T, T) -> bool,
    rel: spec_fn(T, T) -> bool,
)
    requires
        related(a, b, rel),
        keeps_order(rel, le),
    ensures
        related(sorted_seq(a, le), sorted_seq(b, le), rel),
    decreases a.len(),
{
    if a.len() > 0 {
        assert(related(a.drop_last(), b.drop_last(), rel)) by {
            assert forall|i: int| 0 <= i < a.drop_last().len() implies rel(
                #[trigger] a.drop_last()[i],
                b.drop_last()[i],
            ) by {
                assert(rel(a[i], b[i]));
            }
        }
        lemma_sorted_seq_related(a.drop_last(), b.drop_last(), le, rel);
        assert(rel(a.last(), b.last()));
        lemma_insert_sorted_related(
            sorted_seq(a.drop_last(), le),
            sorted_seq(b.drop_last(), le),
            a.last(),
            b.last(),
            le,
            rel,
        );
    }
}

/// The order of keyed entries: that of their keys as texts.
pub open spec fn key_le<T>() -> spec_fn((String, T), (String, T)) -> bool {
    |a: (String, T), b: (String, T)| text_le(a.0@, b.0@)
}

/// Puts an entry behind the last one whose key is at most its own.
fn insert_by_key<T>(entries: &mut Vec<(String, T)>, entry: (String, T))
    ensures
        final(entries)@ == insert_sorted(old(entries)@, entry, key_le::<T>()),
{
    let mut i: usize = entries.len();
    while i > 0 && !str_le(entries[i - 1].0.as_str(), entry.0.as_str())
        invariant
            i <= entries@.len(),
            forall|j: int|
                i <= j < entries@.len() ==> !key_le::<T>()(#[trigger] entries@[j], entry),
        decreases i,
    {
        i -= 1;
    }
    proof {
        lemma_insert_at(entries@, entry, key_le::<T>(), i as int);
    }
    entries.insert(i, entry);
}

/// Brings keyed entries into the order of their keys as texts. Entries with
/// the same key keep their order.
pub fn sort_by_key<T>(entries: Vec<(String, T)>) -> (r: Vec<(String, T)>)
    ensures
        r@ == sorted_seq(entries@, key_le::<T>()),
{
    let ghost all = entries@;
    let mut out: Vec<(String, T)> = Vec::new();
    assert(all.take(0) == Seq::<(String, T)>::empty());
    for entry in it: entries
        invariant
            it.seq() == all,
            out@ == sorted_seq(all.take(it.index()), key_le::<T>()),
    {
        proof {
            let i = it.index();
            assert(all.take(i + 1).drop_last() == all.take(i));
            assert(all.take(i + 1).last() == all[i]);
        }
        insert_by_key(&mut out, entry);
    }
    proof {
        assert(all.take(all.len() as int) == all);
    }
    out
}

} // verus!
