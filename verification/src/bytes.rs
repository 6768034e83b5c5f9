//! Searching and splitting byte strings.
use vstd::prelude::*;

verus! {

/// The first index at or after `from` where `pat` occurs in `data`, or -1.
pub open spec fn find_from(data: Seq<u8>, pat: Seq<u8>, from: int) -> int
    decreases data.len() + 1 - from,
{
    if from < 0 || from + pat.len() > data.len() {
        -1
    } else if data.subrange(from, from + pat.len()) == pat {
        from
    } else {
        find_from(data, pat, from + 1)
    }
}

/// The first index where `pat` occurs in `data`, or -1.
pub open spec fn find(data: Seq<u8>, pat: Seq<u8>) -> int {
    find_from(data, pat, 0)
}

/// What `find_from` finds: nothing from `from` on, or the first occurrence
/// at or after `from`.
pub proof fn lemma_find_from(data: Seq<u8>, pat: Seq<u8>, from: int)
    requires
        0 <= from,
    ensures
        find_from(data, pat, from) == -1 ==> forall|i: int|
            from <= i && i + pat.len() <= data.len() ==> #[trigger] data.subrange(i, i + pat.len()) != pat,
        find_from(data, pat, from) != -1 ==> {
            let k = find_from(data, pat, from);
            &&& from <= k && k + pat.len() <= data.len()
            &&& data.subrange(k, k + pat.len()) == pat
            &&& forall|i: int| from <= i < k ==> #[trigger] data.subrange(i, i + pat.len()) != pat
        },
    decreases data.len() + 1 - from,
{
    if from + pat.len() <= data.len() && data.subrange(from, from + pat.len()) != pat {
        lemma_find_from(data, pat, from + 1);
    }
}

/// `find` is the index of the first occurrence, found by elimination.
pub proof fn lemma_find_at(data: Seq<u8>, pat: Seq<u8>, k: int)
    requires
        0 <= k && k + pat.len() <= data.len(),
        data.subrange(k, k + pat.len()) == pat,
        forall|i: int| 0 <= i < k ==> #[trigger] data.subrange(i, i + pat.len()) != pat,
    ensures
        find(data, pat) == k,
{
    lemma_find_from(data, pat, 0);
}

/// `find` finds nothing.
pub proof fn lemma_find_none(data: Seq<u8>, pat: Seq<u8>)
    requires
        forall|i: int| 0 <= i && i + pat.len() <= data.len() ==> #[trigger] data.subrange(i, i + pat.len()) != pat,
    ensures
        find(data, pat) == -1,
{
    lemma_find_from(data, pat, 0);
}

/// Whether `pat` occurs at `at` in `data`.
pub fn occurs_at(data: &[u8], pat: &[u8], at: usize) -> (r: bool)
    requires
        at + pat@.len() <= data@.len(),
    ensures
        r == (data@.subrange(at as int, at + pat@.len()) == pat@),
{
    let n = data.len();
    let mut j: usize = 0;
    while j < pat.len()
        invariant
            n == data@.len(),
            at + pat@.len() <= data@.len(),
            j <= pat@.len(),
            forall|t: int| 0 <= t < j ==> data@[at + t] == pat@[t],
        decreases pat@.len() - j,
    {
        assert(at + j < data@.len());
        if data[at + j] != pat[j] {
            assert(data@.subrange(at as int, at + pat@.len())[j as int] != pat@[j as int]);
            return false;
        }
        j = j + 1;
    }
    assert(data@.subrange(at as int, at + pat@.len()) =~= pat@);
    true
}

/// The first position of `pat` in `data`.
pub fn find_bytes(data: &[u8], pat: &[u8]) -> (r: Option<usize>)
    ensures
        r is None <==> find(data@, pat@) == -1,
        r matches Some(k) ==> k == find(data@, pat@),
{
    proof {
        lemma_find_from(data@, pat@, 0);
    }
    if pat.len() > data.len() {
        return None;
    }
    let mut i: usize = 0;
    let last = data.len() - pat.len();
    loop
        invariant
            pat@.len() <= data@.len(),
            last == data@.len() - pat@.len(),
            i <= last,
            forall|t: int| 0 <= t < i ==> #[trigger] data@.subrange(t, t + pat@.len()) != pat@,
        ensures
            forall|t: int| 0 <= t <= last ==> #[trigger] data@.subrange(t, t + pat@.len()) != pat@,
        decreases last - i,
    {
        if occurs_at(data, pat, i) {
            proof {
                lemma_find_at(data@, pat@, i as int);
            }
            return Some(i);
        }
        if i == last {
            break;
        }
        i = i + 1;
    }
    proof {
        lemma_find_none(data@, pat@);
    }
    None
}

/// The pieces of `s` between occurrences of `sep`, as `slice::split` yields them.
pub open spec fn split_seq(s: Seq<u8>, sep: u8) -> Seq<Seq<u8>>
    decreases s.len(),
{
    if s.len() == 0 {
        seq![Seq::empty()]
    } else {
        let rest = split_seq(s.drop_last(), sep);
        if s.last() == sep {
            rest.push(Seq::empty())
        } else {
            rest.update(rest.len() - 1, rest.last().push(s.last()))
        }
    }
}

pub open spec fn vec_views(v: Seq<Vec<u8>>) -> Seq<Seq<u8>> {
    v.map_values(|x: Vec<u8>| x@)
}

/// Split `s` on every `sep`, keeping empty pieces.
pub fn split_bytes(s: &[u8], sep: u8) -> (r: Vec<Vec<u8>>)
    ensures
        vec_views(r@) == split_seq(s@, sep),
{
    let mut pieces: Vec<Vec<u8>> = Vec::new();
    let mut cur: Vec<u8> = Vec::new();
    let mut i: usize = 0;
    assert(s@.take(0) =~= Seq::<u8>::empty());
    assert(vec_views(pieces@).push(cur@) =~= seq![Seq::<u8>::empty()]);
    while i < s.len()
        invariant
            i <= s@.len(),
            vec_views(pieces@).push(cur@) == split_seq(s@.take(i as int), sep),
        decreases s@.len() - i,
    {
        let b = s[i];
        proof {
            let t = s@.take(i + 1);
            assert(t.drop_last() == s@.take(i as int));
            assert(t.last() == b);
        }
        if b == sep {
            let ghost before = pieces@;
            let ghost cur_view = cur@;
            pieces.push(cur);
            cur = Vec::new();
            assert(vec_views(pieces@) =~= vec_views(before).push(cur_view));
        } else {
            let ghost before = cur@;
            cur.push(b);
            assert(vec_views(pieces@).push(cur@) =~= vec_views(pieces@).push(before).update(
                vec_views(pieces@).len() as int,
                before.push(b),
            ));
        }
        i = i + 1;
    }
    assert(s@.take(s@.len() as int) =~= s@);
    let ghost before = pieces@;
    let ghost cur_view = cur@;
    pieces.push(cur);
    assert(vec_views(pieces@) =~= vec_views(before).push(cur_view));
    pieces
}

/// Append all of `src` to `out`.
pub fn extend_all(out: &mut Vec<u8>, src: &[u8])
    ensures
        final(out)@ == old(out)@ + src@,
{
    let mut i: usize = 0;
    while i < src.len()
        invariant
            i <= src@.len(),
            out@ == old(out)@ + src@.take(i as int),
        decreases src@.len() - i,
    {
        out.push(src[i]);
        assert(src@.take(i + 1) =~= src@.take(i as int).push(src@[i as int]));
        i = i + 1;
    }
    assert(src@.take(src@.len() as int) =~= src@);
}

/// Whether two byte strings are equal.
pub fn bytes_eq(a: &[u8], b: &[u8]) -> (r: bool)
    ensures
        r == (a@ == b@),
{
    if a.len() != b.len() {
        return false;
    }
    let r = occurs_at(a, b, 0);
    assert(a@.subrange(0, b@.len() as int) =~= a@);
    r
}


/// Lines joined with newlines between them.
pub open spec fn join_lines(lines: Seq<Seq<u8>>) -> Seq<u8>
    decreases lines.len(),
{
    if lines.len() == 0 {
        Seq::empty()
    } else if lines.len() == 1 {
        lines[0]
    } else {
        join_lines(lines.drop_last()) + seq![10u8] + lines.last()
    }
}

/// `split_seq` always yields at least one piece.
pub proof fn lemma_split_nonempty(s: Seq<u8>, sep: u8)
    ensures
        split_seq(s, sep).len() >= 1,
    decreases s.len(),
{
    if s.len() > 0 {
        lemma_split_nonempty(s.drop_last(), sep);
    }
}

/// A piece without the separator splits into itself.
pub proof fn lemma_split_single(s: Seq<u8>, sep: u8)
    requires
        !s.contains(sep),
    ensures
        split_seq(s, sep) == seq![s],
    decreases s.len(),
{
    if s.len() > 0 {
        assert(!s.drop_last().contains(sep)) by {
            if s.drop_last().contains(sep) {
                let j = choose|j: int| 0 <= j < s.drop_last().len() && s.drop_last()[j] == sep;
                assert(s[j] == sep);
            }
        }
        lemma_split_single(s.drop_last(), sep);
        assert(s[s.len() - 1] != sep);
        assert(s.drop_last().push(s.last()) =~= s);
        assert(seq![s.drop_last()].update(0, s.drop_last().push(s.last())) =~= seq![s]);
    } else {
        assert(s =~= Seq::<u8>::empty());
    }
}

/// Splitting around a separator splits each side.
pub proof fn lemma_split_concat(a: Seq<u8>, b: Seq<u8>, sep: u8)
    ensures
        split_seq(a + seq![sep] + b, sep) == split_seq(a, sep) + split_seq(b, sep),
    decreases b.len(),
{
    let s = a + seq![sep] + b;
    if b.len() == 0 {
        assert(s.drop_last() =~= a);
        assert(s.last() == sep);
        assert(split_seq(b, sep) =~= seq![Seq::<u8>::empty()]);
        assert(split_seq(a, sep).push(Seq::empty()) =~= split_seq(a, sep) + split_seq(b, sep));
    } else {
        assert(s.drop_last() =~= a + seq![sep] + b.drop_last());
        assert(s.last() == b.last());
        lemma_split_concat(a, b.drop_last(), sep);
        lemma_split_nonempty(b.drop_last(), sep);
        lemma_split_nonempty(a, sep);
        let ra = split_seq(a, sep);
        let rb = split_seq(b.drop_last(), sep);
        if b.last() == sep {
            assert((ra + rb).push(Seq::empty()) =~= ra + rb.push(Seq::empty()));
        } else {
            assert((ra + rb).update((ra + rb).len() - 1, (ra + rb).last().push(b.last())) =~= ra
                + rb.update(rb.len() - 1, rb.last().push(b.last())));
        }
    }
}

/// Lines without newlines are split back out of their join.
pub proof fn lemma_split_join(lines: Seq<Seq<u8>>)
    requires
        lines.len() >= 1,
        forall|i: int| 0 <= i < lines.len() ==> !(#[trigger] lines[i]).contains(10u8),
    ensures
        split_seq(join_lines(lines), 10u8) == lines,
    decreases lines.len(),
{
    if lines.len() == 1 {
        lemma_split_single(lines[0], 10u8);
        assert(lines =~= seq![lines[0]]);
    } else {
        let rest = lines.drop_last();
        assert forall|i: int| 0 <= i < rest.len() implies !(#[trigger] rest[i]).contains(10u8) by {
            assert(rest[i] == lines[i]);
        }
        lemma_split_join(rest);
        lemma_split_concat(join_lines(rest), lines.last(), 10u8);
        lemma_split_single(lines.last(), 10u8);
        assert(rest + seq![lines.last()] =~= lines);
    }
}

/// No two newlines in a row, and no newline at the end.
pub open spec fn no_blank_line(s: Seq<u8>) -> bool {
    &&& forall|i: int| 0 <= i && i + 1 < s.len() ==> !(#[trigger] s[i] == 10 && s[i + 1] == 10)
    &&& s.len() > 0 ==> s.last() != 10
}

/// Joining non-empty lines without newlines leaves no blank line.
pub proof fn lemma_join_no_blank(lines: Seq<Seq<u8>>)
    requires
        lines.len() >= 1,
        forall|i: int|
            0 <= i < lines.len() ==> !(#[trigger] lines[i]).contains(10u8) && lines[i].len() > 0,
    ensures
        no_blank_line(join_lines(lines)),
        join_lines(lines).len() > 0,
    decreases lines.len(),
{
    let l = lines.last();
    assert(!lines[lines.len() - 1].contains(10u8));
    assert forall|i: int| 0 <= i < l.len() implies l[i] != 10 by {
        if l[i] == 10 {
            assert(l.contains(10u8));
        }
    }
    if lines.len() > 1 {
        let rest = lines.drop_last();
        assert forall|i: int|
            0 <= i < rest.len() implies !(#[trigger] rest[i]).contains(10u8) && rest[i].len() > 0 by {
            assert(rest[i] == lines[i]);
        }
        lemma_join_no_blank(rest);
        let j = join_lines(rest);
        let s = join_lines(lines);
        assert(s == j + seq![10u8] + l);
        assert forall|i: int| 0 <= i && i + 1 < s.len() implies !(#[trigger] s[i] == 10 && s[i + 1]
            == 10) by {
            if i + 1 < j.len() {
                assert(s[i] == j[i] && s[i + 1] == j[i + 1]);
            } else if i + 1 == j.len() {
                assert(s[i] == j.last());
            } else if i == j.len() {
                assert(s[i + 1] == l[0]);
            } else {
                assert(s[i] == l[i - j.len() - 1]);
            }
        }
        assert(s.last() == l.last());
    }
}

/// A header without blank lines, then a blank line: the first `\n\n` is at
/// the header's end.
pub proof fn lemma_find_blank(h: Seq<u8>, rest: Seq<u8>)
    requires
        no_blank_line(h),
        h.len() > 0,
    ensures
        find(h + seq![10u8, 10] + rest, seq![10u8, 10]) == h.len(),
{
    let s = h + seq![10u8, 10] + rest;
    let p = seq![10u8, 10];
    assert(s.subrange(h.len() as int, h.len() + 2int) =~= p);
    assert forall|i: int| 0 <= i < h.len() implies #[trigger] s.subrange(i, i + p.len()) != p by {
        if s.subrange(i, i + 2) == p {
            assert(s.subrange(i, i + 2)[0] == 10 && s.subrange(i, i + 2)[1] == 10);
            if i + 1 < h.len() {
                assert(s[i] == h[i] && s[i + 1] == h[i + 1]);
            } else {
                assert(s[i] == h.last());
            }
        }
    }
    lemma_find_at(s, p, h.len() as int);
}

} // verus!
