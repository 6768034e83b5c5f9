//! Lexicographic order on byte strings and on text, and sorted sets built
//! with it.
use vstd::prelude::*;
use crate::text::views_of;

verus! {

/// `a` comes strictly before `b`, byte by byte, a prefix first.
pub open spec fn bytes_before(a: Seq<u8>, b: Seq<u8>) -> bool
    decreases a.len(),
{
    if a.len() == 0 {
        b.len() > 0
    } else if b.len() == 0 {
        false
    } else if a[0] != b[0] {
        a[0] < b[0]
    } else {
        bytes_before(a.skip(1), b.skip(1))
    }
}

/// No byte string comes before itself.
pub proof fn lemma_bytes_irreflexive(a: Seq<u8>)
    ensures
        !bytes_before(a, a),
    decreases a.len(),
{
    if a.len() > 0 {
        lemma_bytes_irreflexive(a.skip(1));
    }
}

/// The byte order is transitive.
pub proof fn lemma_bytes_transitive(a: Seq<u8>, b: Seq<u8>, c: Seq<u8>)
    requires
        bytes_before(a, b),
        bytes_before(b, c),
    ensures
        bytes_before(a, c),
    decreases a.len(),
{
    if a.len() > 0 && b.len() > 0 && c.len() > 0 && a[0] == b[0] && b[0] == c[0] {
        lemma_bytes_transitive(a.skip(1), b.skip(1), c.skip(1));
    }
}

/// Of two different byte strings, one comes before the other.
pub proof fn lemma_bytes_total(a: Seq<u8>, b: Seq<u8>)
    ensures
        a == b || bytes_before(a, b) || bytes_before(b, a),
    decreases a.len(),
{
    if a.len() > 0 && b.len() > 0 && a[0] == b[0] {
        lemma_bytes_total(a.skip(1), b.skip(1));
        if a.skip(1) == b.skip(1) {
            assert(a =~= seq![a[0]] + a.skip(1));
            assert(b =~= seq![b[0]] + b.skip(1));
        }
    } else if a.len() == 0 && b.len() == 0 {
        assert(a =~= b);
    }
}

/// Of two byte strings, at most one comes before the other.
pub proof fn lemma_bytes_asymmetric(a: Seq<u8>, b: Seq<u8>)
    requires
        bytes_before(a, b),
    ensures
        !bytes_before(b, a),
{
    if bytes_before(b, a) {
        lemma_bytes_transitive(a, b, a);
        lemma_bytes_irreflexive(a);
    }
}

/// Whether `a` comes strictly before `b`.
pub fn bytes_lt(a: &[u8], b: &[u8]) -> (r: bool)
    ensures
        r == bytes_before(a@, b@),
{
    let mut i: usize = 0;
    assert(a@.skip(0) =~= a@);
    assert(b@.skip(0) =~= b@);
    while i < a.len() && i < b.len() && a[i] == b[i]
        invariant
            i <= a@.len() && i <= b@.len(),
            bytes_before(a@, b@) == bytes_before(a@.skip(i as int), b@.skip(i as int)),
        decreases a@.len() - i,
    {
        proof {
            assert(a@.skip(i as int).skip(1) =~= a@.skip(i + 1));
            assert(b@.skip(i as int).skip(1) =~= b@.skip(i + 1));
        }
        i = i + 1;
    }
    proof {
        assert(a@.skip(0) =~= a@);
        assert(b@.skip(0) =~= b@);
    }
    if i == a.len() {
        i < b.len()
    } else if i == b.len() {
        false
    } else {
        a[i] < b[i]
    }
}

/// Byte strings in strictly increasing order.
pub open spec fn strictly_sorted_bytes(v: Seq<Seq<u8>>) -> bool {
    forall|i: int, j: int| 0 <= i < j < v.len() ==> bytes_before(#[trigger] v[i], #[trigger] v[j])
}

pub open spec fn byte_views(v: Seq<Vec<u8>>) -> Seq<Seq<u8>> {
    v.map_values(|x: Vec<u8>| x@)
}

/// Add `x` to a strictly increasing list, keeping it so; nothing changes
/// when `x` is already there.
pub fn insert_bytes(v: &mut Vec<Vec<u8>>, x: Vec<u8>)
    requires
        strictly_sorted_bytes(byte_views(old(v)@)),
    ensures
        strictly_sorted_bytes(byte_views(final(v)@)),
        byte_views(final(v)@).to_set() == byte_views(old(v)@).to_set().insert(x@),
{
    let ghost before = byte_views(v@);
    let mut i: usize = 0;
    while i < v.len() && bytes_lt(v[i].as_slice(), x.as_slice())
        invariant
            before == byte_views(v@),
            strictly_sorted_bytes(before),
            i <= v@.len(),
            forall|j: int| 0 <= j < i ==> bytes_before(#[trigger] before[j], x@),
        decreases v@.len() - i,
    {
        i = i + 1;
    }
    if i < v.len() && crate::bytes::bytes_eq(v[i].as_slice(), x.as_slice()) {
        assert(before.to_set().insert(x@) =~= before.to_set()) by {
            assert(before[i as int] == x@);
        }
        return;
    }
    let ghost xv = x@;
    v.insert(i, x);
    proof {
        let after = byte_views(v@);
        assert(after =~= before.insert(i as int, xv));
        if i < before.len() {
            lemma_bytes_total(before[i as int], xv);
            assert(bytes_before(xv, before[i as int]));
        }
        assert forall|a: int, b: int| 0 <= a < b < after.len() implies bytes_before(
            #[trigger] after[a],
            #[trigger] after[b],
        ) by {
            if b < i {
                assert(after[a] == before[a] && after[b] == before[b]);
            } else if b == i {
                assert(after[a] == before[a]);
            } else if a == i {
                assert(after[b] == before[b - 1]);
                if b - 1 > i {
                    lemma_bytes_transitive(xv, before[i as int], before[b - 1]);
                }
            } else if a < i {
                assert(after[a] == before[a] && after[b] == before[b - 1]);
            } else {
                assert(after[a] == before[a - 1] && after[b] == before[b - 1]);
            }
        }
        assert(after.to_set() =~= before.to_set().insert(xv)) by {
            assert forall|e: Seq<u8>| after.to_set().contains(e) <==> before.to_set().insert(xv).contains(e) by {
                if after.to_set().contains(e) {
                    let k = choose|k: int| 0 <= k < after.len() && after[k] == e;
                    if k < i {
                        assert(before[k] == e);
                    } else if k > i {
                        assert(before[k - 1] == e);
                    }
                }
                if before.to_set().contains(e) {
                    let k = choose|k: int| 0 <= k < before.len() && before[k] == e;
                    if k < i {
                        assert(after[k] == e);
                    } else {
                        assert(after[k + 1] == e);
                    }
                }
                if e == xv {
                    assert(after[i as int] == e);
                }
            }
        }
    }
}

/// The distinct byte strings of `values`, in increasing order.
pub fn sorted_unique_bytes(values: &Vec<Vec<u8>>) -> (r: Vec<Vec<u8>>)
    ensures
        strictly_sorted_bytes(byte_views(r@)),
        byte_views(r@).to_set() == byte_views(values@).to_set(),
{
    let mut out: Vec<Vec<u8>> = Vec::new();
    let mut i: usize = 0;
    assert(byte_views(out@).to_set() =~= byte_views(values@.take(0)).to_set());
    while i < values.len()
        invariant
            i <= values@.len(),
            strictly_sorted_bytes(byte_views(out@)),
            byte_views(out@).to_set() == byte_views(values@.take(i as int)).to_set(),
        decreases values@.len() - i,
    {
        let x = crate::casing::slice_range(values[i].as_slice(), 0, values[i].len());
        assert(values@[i as int]@.subrange(0, values@[i as int]@.len() as int) =~= values@[i as int]@);
        insert_bytes(&mut out, x);
        assert(byte_views(values@.take(i + 1)) =~= byte_views(values@.take(i as int)).push(values@[i as int]@));
        proof {
            byte_views(values@.take(i as int)).lemma_push_to_set_commute(values@[i as int]@);
        }
        i = i + 1;
    }
    assert(values@.take(values@.len() as int) =~= values@);
    out
}


/// `a` comes strictly before `b`, character by character, a prefix first,
/// as `str` orders text.
pub open spec fn text_before(a: Seq<char>, b: Seq<char>) -> bool
    decreases a.len(),
{
    if a.len() == 0 {
        b.len() > 0
    } else if b.len() == 0 {
        false
    } else if a[0] != b[0] {
        a[0] < b[0]
    } else {
        text_before(a.skip(1), b.skip(1))
    }
}

/// No text comes before itself.
pub proof fn lemma_text_irreflexive(a: Seq<char>)
    ensures
        !text_before(a, a),
    decreases a.len(),
{
    if a.len() > 0 {
        lemma_text_irreflexive(a.skip(1));
    }
}

/// The text order is transitive.
pub proof fn lemma_text_transitive(a: Seq<char>, b: Seq<char>, c: Seq<char>)
    requires
        text_before(a, b),
        text_before(b, c),
    ensures
        text_before(a, c),
    decreases a.len(),
{
    if a.len() > 0 && b.len() > 0 && c.len() > 0 && a[0] == b[0] && b[0] == c[0] {
        lemma_text_transitive(a.skip(1), b.skip(1), c.skip(1));
    }
}

/// Of two different texts, one comes before the other.
pub proof fn lemma_text_total(a: Seq<char>, b: Seq<char>)
    ensures
        a == b || text_before(a, b) || text_before(b, a),
    decreases a.len(),
{
    if a.len() > 0 && b.len() > 0 && a[0] == b[0] {
        lemma_text_total(a.skip(1), b.skip(1));
        if a.skip(1) == b.skip(1) {
            assert(a =~= seq![a[0]] + a.skip(1));
            assert(b =~= seq![b[0]] + b.skip(1));
        }
    } else if a.len() == 0 && b.len() == 0 {
        assert(a =~= b);
    }
}

/// Whether `a` comes strictly before `b`.
pub fn text_lt(a: &str, b: &str) -> (r: bool)
    ensures
        r == text_before(a@, b@),
{
    let n = a.unicode_len();
    let m = b.unicode_len();
    let mut i: usize = 0;
    assert(a@.skip(0) =~= a@);
    assert(b@.skip(0) =~= b@);
    while i < n && i < m && a.get_char(i) == b.get_char(i)
        invariant
            n == a@.len() && m == b@.len(),
            i <= n && i <= m,
            text_before(a@, b@) == text_before(a@.skip(i as int), b@.skip(i as int)),
        decreases n - i,
    {
        proof {
            assert(a@.skip(i as int).skip(1) =~= a@.skip(i + 1));
            assert(b@.skip(i as int).skip(1) =~= b@.skip(i + 1));
        }
        i = i + 1;
    }
    if i == n {
        i < m
    } else if i == m {
        false
    } else {
        a.get_char(i) < b.get_char(i)
    }
}

/// Text in strictly increasing order.
pub open spec fn strictly_sorted_text(v: Seq<Seq<char>>) -> bool {
    forall|i: int, j: int| 0 <= i < j < v.len() ==> text_before(#[trigger] v[i], #[trigger] v[j])
}

/// Add `x` to a strictly increasing list of text, keeping it so; nothing
/// changes when `x` is already there.
pub fn insert_text(v: &mut Vec<String>, x: String)
    requires
        strictly_sorted_text(views_of(old(v)@)),
    ensures
        strictly_sorted_text(views_of(final(v)@)),
        views_of(final(v)@).to_set() == views_of(old(v)@).to_set().insert(x@),
{
    let ghost before = views_of(v@);
    let mut i: usize = 0;
    while i < v.len() && text_lt(v[i].as_str(), x.as_str())
        invariant
            before == views_of(v@),
            strictly_sorted_text(before),
            i <= v@.len(),
            forall|j: int| 0 <= j < i ==> text_before(#[trigger] before[j], x@),
        decreases v@.len() - i,
    {
        i = i + 1;
    }
    if i < v.len() && v[i] == x {
        assert(before.to_set().insert(x@) =~= before.to_set()) by {
            assert(before[i as int] == x@);
        }
        return;
    }
    let ghost xv = x@;
    v.insert(i, x);
    proof {
        let after = views_of(v@);
        assert(after =~= before.insert(i as int, xv));
        if i < before.len() {
            lemma_text_total(before[i as int], xv);
            assert(text_before(xv, before[i as int]));
        }
        assert forall|a: int, b: int| 0 <= a < b < after.len() implies text_before(
            #[trigger] after[a],
            #[trigger] after[b],
        ) by {
            if b < i {
                assert(after[a] == before[a] && after[b] == before[b]);
            } else if b == i {
                assert(after[a] == before[a]);
            } else if a == i {
                assert(after[b] == before[b - 1]);
                if b - 1 > i {
                    lemma_text_transitive(xv, before[i as int], before[b - 1]);
                }
            } else if a < i {
                assert(after[a] == before[a] && after[b] == before[b - 1]);
            } else {
                assert(after[a] == before[a - 1] && after[b] == before[b - 1]);
            }
        }
        assert(after.to_set() =~= before.to_set().insert(xv)) by {
            assert forall|e: Seq<char>| after.to_set().contains(e) <==> before.to_set().insert(xv).contains(e) by {
                if after.to_set().contains(e) {
                    let k = choose|k: int| 0 <= k < after.len() && after[k] == e;
                    if k < i {
                        assert(before[k] == e);
                    } else if k > i {
                        assert(before[k - 1] == e);
                    }
                }
                if before.to_set().contains(e) {
                    let k = choose|k: int| 0 <= k < before.len() && before[k] == e;
                    if k < i {
                        assert(after[k] == e);
                    } else {
                        assert(after[k + 1] == e);
                    }
                }
                if e == xv {
                    assert(after[i as int] == e);
                }
            }
        }
    }
}

/// The distinct texts of `values`, in increasing order, as a `BTreeSet`
/// would hold them.
pub fn sorted_unique_text(values: &Vec<String>) -> (r: Vec<String>)
    ensures
        strictly_sorted_text(views_of(r@)),
        views_of(r@).to_set() == views_of(values@).to_set(),
{
    let mut out: Vec<String> = Vec::new();
    let mut i: usize = 0;
    assert(views_of(out@).to_set() =~= views_of(values@.take(0)).to_set());
    while i < values.len()
        invariant
            i <= values@.len(),
            strictly_sorted_text(views_of(out@)),
            views_of(out@).to_set() == views_of(values@.take(i as int)).to_set(),
        decreases values@.len() - i,
    {
        insert_text(&mut out, values[i].clone());
        assert(views_of(values@.take(i + 1)) =~= views_of(values@.take(i as int)).push(values@[i as int]@));
        proof {
            views_of(values@.take(i as int)).lemma_push_to_set_commute(values@[i as int]@);
        }
        i = i + 1;
    }
    assert(values@.take(values@.len() as int) =~= values@);
    out
}

} // verus!
