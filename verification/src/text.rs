//! Character-level string helpers: whitespace trimming, splitting on a
//! separator, joining, and the small option/list conversions built on them.
use vstd::prelude::*;
use vstd::utf8::{decode_utf8, valid_utf8};

verus! {

/// The characters with the Unicode `White_Space` property, which is what
/// `char::is_whitespace` tests.
pub open spec fn white(c: char) -> bool {
    ||| ('\u{9}' <= c && c <= '\u{d}')
    ||| c == ' '
    ||| c == '\u{85}'
    ||| c == '\u{a0}'
    ||| c == '\u{1680}'
    ||| ('\u{2000}' <= c && c <= '\u{200a}')
    ||| c == '\u{2028}'
    ||| c == '\u{2029}'
    ||| c == '\u{202f}'
    ||| c == '\u{205f}'
    ||| c == '\u{3000}'
}

/// Drop leading whitespace.
pub open spec fn trim_start(s: Seq<char>) -> Seq<char>
    decreases s.len(),
{
    if s.len() > 0 && white(s[0]) {
        trim_start(s.skip(1))
    } else {
        s
    }
}

/// Drop trailing whitespace.
pub open spec fn trim_end(s: Seq<char>) -> Seq<char>
    decreases s.len(),
{
    if s.len() > 0 && white(s.last()) {
        trim_end(s.drop_last())
    } else {
        s
    }
}

/// Drop leading and trailing whitespace, as `str::trim` does.
pub open spec fn trim(s: Seq<char>) -> Seq<char> {
    trim_end(trim_start(s))
}

/// Whether `c` is Unicode whitespace.
pub fn is_white(c: char) -> (r: bool)
    ensures
        r == white(c),
{
    ('\u{9}' <= c && c <= '\u{d}') || c == ' ' || c == '\u{85}' || c == '\u{a0}' || c == '\u{1680}'
        || ('\u{2000}' <= c && c <= '\u{200a}') || c == '\u{2028}' || c == '\u{2029}' || c
        == '\u{202f}' || c == '\u{205f}' || c == '\u{3000}'
}

proof fn lemma_trim_start_at(s: Seq<char>, lo: int)
    requires
        0 <= lo <= s.len(),
        forall|j: int| 0 <= j < lo ==> white(#[trigger] s[j]),
        lo == s.len() || !white(s[lo]),
    ensures
        trim_start(s) == s.skip(lo),
    decreases lo,
{
    if lo == 0 {
        assert(s.skip(0) == s);
    } else {
        assert(white(s[0]));
        let t = s.skip(1);
        assert forall|j: int| 0 <= j < lo - 1 implies white(#[trigger] t[j]) by {
            assert(t[j] == s[j + 1]);
        }
        lemma_trim_start_at(t, lo - 1);
        assert(t.skip(lo - 1) == s.skip(lo));
    }
}

/// Trimming the end of `s` keeps `s[..hi]` when only whitespace follows
/// `hi` and the character before it is not whitespace.
pub proof fn lemma_trim_end_at(s: Seq<char>, hi: int)
    requires
        0 <= hi <= s.len(),
        forall|j: int| hi <= j < s.len() ==> white(#[trigger] s[j]),
        hi == 0 || !white(s[hi - 1]),
    ensures
        trim_end(s) == s.take(hi),
    decreases s.len() - hi,
{
    if hi == s.len() {
        assert(s.take(hi) == s);
    } else {
        assert(white(s.last()));
        let t = s.drop_last();
        assert forall|j: int| hi <= j < t.len() implies white(#[trigger] t[j]) by {
            assert(t[j] == s[j]);
        }
        lemma_trim_end_at(t, hi);
        assert(t.take(hi) == s.take(hi));
    }
}

/// Append `other` to `out`.
pub fn push_str(out: &mut String, other: &str)
    ensures
        final(out)@ == old(out)@ + other@,
{
    out.append(other);
}

/// A new string equal to `s`.
pub fn owned(s: &str) -> (r: String)
    ensures
        r@ == s@,
{
    s.to_owned()
}

/// The characters `s[from..to]` as a new string.
pub fn chars_range(s: &str, from: usize, to: usize) -> (r: String)
    requires
        from <= to <= s@.len(),
    ensures
        r@ == s@.subrange(from as int, to as int),
{
    s.substring_char(from, to).to_owned()
}

/// `s` without leading and trailing whitespace.
pub fn trim_str(s: &str) -> (r: String)
    ensures
        r@ == trim(s@),
{
    let n = s.unicode_len();
    let mut lo: usize = 0;
    while lo < n && is_white(s.get_char(lo))
        invariant
            n == s@.len(),
            lo <= n,
            forall|j: int| 0 <= j < lo ==> white(#[trigger] s@[j]),
        decreases n - lo,
    {
        lo = lo + 1;
    }
    proof {
        lemma_trim_start_at(s@, lo as int);
    }
    let mut hi: usize = n;
    while hi > lo && is_white(s.get_char(hi - 1))
        invariant
            n == s@.len(),
            lo <= hi <= n,
            forall|j: int| hi <= j < n ==> white(#[trigger] s@[j]),
        decreases hi,
    {
        hi = hi - 1;
    }
    proof {
        let t = s@.skip(lo as int);
        assert forall|j: int| hi - lo <= j < t.len() implies white(#[trigger] t[j]) by {
            assert(t[j] == s@[j + lo]);
        }
        if hi > lo {
            assert(t[hi - lo - 1] == s@[hi - 1]);
        }
        lemma_trim_end_at(t, hi - lo);
        assert(t.take(hi - lo) == s@.subrange(lo as int, hi as int));
    }
    chars_range(s, lo, hi)
}

/// `s` without trailing whitespace.
pub fn trim_end_str(s: &str) -> (r: String)
    ensures
        r@ == trim_end(s@),
{
    let n = s.unicode_len();
    let mut hi: usize = n;
    while hi > 0 && is_white(s.get_char(hi - 1))
        invariant
            n == s@.len(),
            hi <= n,
            forall|j: int| hi <= j < n ==> white(#[trigger] s@[j]),
        decreases hi,
    {
        hi = hi - 1;
    }
    proof {
        lemma_trim_end_at(s@, hi as int);
    }
    chars_range(s, 0, hi)
}

/// `None` for a blank value, otherwise the value itself.
pub fn to_opt(value: &str) -> (r: Option<String>)
    ensures
        trim(value@).len() == 0 ==> r is None,
        trim(value@).len() != 0 ==> (r matches Some(v) && v@ == value@),
{
    let t = trim_str(value);
    if t.unicode_len() == 0 {
        None
    } else {
        Some(owned(value))
    }
}

/// The pieces of `s` between occurrences of `sep`, as `str::split` yields them.
pub open spec fn split_on(s: Seq<char>, sep: char) -> Seq<Seq<char>>
    decreases s.len(),
{
    if s.len() == 0 {
        seq![Seq::empty()]
    } else {
        let rest = split_on(s.drop_last(), sep);
        if s.last() == sep {
            rest.push(Seq::empty())
        } else {
            rest.update(rest.len() - 1, rest.last().push(s.last()))
        }
    }
}

/// Splitting always yields at least one piece.
pub proof fn lemma_split_on_nonempty(s: Seq<char>, sep: char)
    ensures
        split_on(s, sep).len() >= 1,
    decreases s.len(),
{
    if s.len() > 0 {
        lemma_split_on_nonempty(s.drop_last(), sep);
    }
}

/// Split `s` on every `sep`, keeping empty pieces.
pub fn split_chars(s: &str, sep: char) -> (r: Vec<String>)
    ensures
        r@.map_values(|x: String| x@) == split_on(s@, sep),
{
    let n = s.unicode_len();
    let mut pieces: Vec<String> = Vec::new();
    let mut start: usize = 0;
    let mut i: usize = 0;
    proof {
        assert(s@.take(0) =~= Seq::<char>::empty());
        assert(s@.subrange(0, 0) =~= Seq::<char>::empty());
        assert(pieces@.map_values(|x: String| x@).push(s@.subrange(0, 0)) =~= seq![Seq::<char>::empty()]);
    }
    while i < n
        invariant
            n == s@.len(),
            start <= i <= n,
            pieces@.map_values(|x: String| x@).push(s@.subrange(start as int, i as int)) == split_on(
                s@.take(i as int),
                sep,
            ),
        decreases n - i,
    {
        let c = s.get_char(i);
        proof {
            let t = s@.take(i + 1);
            assert(t.drop_last() == s@.take(i as int));
            assert(t.last() == c);
        }
        if c == sep {
            let piece = chars_range(s, start, i);
            let ghost before = pieces@;
            pieces.push(piece);
            proof {
                assert(pieces@.map_values(|x: String| x@) =~= before.map_values(|x: String| x@).push(
                    s@.subrange(start as int, i as int),
                ));
                assert(s@.subrange((i + 1) as int, (i + 1) as int) =~= Seq::<char>::empty());
            }
            start = i + 1;
        } else {
            proof {
                let old_views = pieces@.map_values(|x: String| x@);
                let prev = old_views.push(s@.subrange(start as int, i as int));
                assert(s@.subrange(start as int, i + 1) =~= s@.subrange(start as int, i as int).push(c));
                assert(prev.update(prev.len() - 1, prev.last().push(c)) =~= old_views.push(
                    s@.subrange(start as int, i + 1),
                ));
            }
        }
        i = i + 1;
    }
    let last = chars_range(s, start, n);
    let ghost before = pieces@;
    pieces.push(last);
    proof {
        assert(s@.take(n as int) == s@);
        assert(pieces@.map_values(|x: String| x@) =~= before.map_values(|x: String| x@).push(
            s@.subrange(start as int, n as int),
        ));
    }
    pieces
}

/// The trimmed, non-blank pieces of one comma-separated value, in order.
pub open spec fn comma_items(value: Seq<char>) -> Seq<Seq<char>> {
    split_on(value, ',').map_values(|p: Seq<char>| trim(p)).filter(|p: Seq<char>| p.len() != 0)
}

/// The items of all values, one value after another.
pub open spec fn all_comma_items(values: Seq<Seq<char>>) -> Seq<Seq<char>>
    decreases values.len(),
{
    if values.len() == 0 {
        Seq::empty()
    } else {
        all_comma_items(values.drop_last()) + comma_items(values.last())
    }
}

pub open spec fn views_of(v: Seq<String>) -> Seq<Seq<char>> {
    v.map_values(|x: String| x@)
}

/// Split each value on commas, trim every piece, and keep the non-blank ones.
pub fn split_comma_args(values: &Vec<String>) -> (r: Vec<String>)
    ensures
        views_of(r@) == all_comma_items(views_of(values@)),
{
    let mut items: Vec<String> = Vec::new();
    let mut k: usize = 0;
    while k < values.len()
        invariant
            k <= values@.len(),
            views_of(items@) == all_comma_items(views_of(values@.take(k as int))),
        decreases values@.len() - k,
    {
        let pieces = split_chars(values[k].as_str(), ',');
        let ghost start_items = items@;
        let ghost trimmed = views_of(pieces@).map_values(|p: Seq<char>| trim(p));
        let mut j: usize = 0;
        while j < pieces.len()
            invariant
                k < values@.len(),
                j <= pieces@.len(),
                trimmed == views_of(pieces@).map_values(|p: Seq<char>| trim(p)),
                views_of(items@) == views_of(start_items) + trimmed.take(j as int).filter(
                    |p: Seq<char>| p.len() != 0,
                ),
            decreases pieces@.len() - j,
        {
            let t = trim_str(pieces[j].as_str());
            proof {
                assert(trimmed.take(j + 1).drop_last() == trimmed.take(j as int));
                assert(trimmed[j as int] == t@);
                reveal(Seq::filter);
            }
            if t.unicode_len() != 0 {
                let ghost before = items@;
                items.push(t);
                assert(views_of(items@) =~= views_of(before).push(t@));
            }
            j = j + 1;
        }
        proof {
            assert(trimmed.take(pieces@.len() as int) == trimmed);
            assert(values@.take(k + 1).drop_last() == values@.take(k as int));
            assert(views_of(values@.take(k + 1)).drop_last() =~= views_of(values@.take(k as int)));
            assert(views_of(values@.take(k + 1)).last() == values@[k as int]@);
        }
        k = k + 1;
    }
    assert(values@.take(values@.len() as int) == values@);
    items
}

/// The values joined with `sep` between each pair.
pub open spec fn joined(values: Seq<Seq<char>>, sep: Seq<char>) -> Seq<char>
    decreases values.len(),
{
    if values.len() == 0 {
        Seq::empty()
    } else if values.len() == 1 {
        values[0]
    } else {
        joined(values.drop_last(), sep) + sep + values.last()
    }
}

/// Join the values with `sep`, as `[String]::join` does.
pub fn join_with(values: &Vec<String>, sep: &str) -> (r: String)
    ensures
        r@ == joined(views_of(values@), sep@),
{
    let mut out = String::new();
    let mut i: usize = 0;
    while i < values.len()
        invariant
            i <= values@.len(),
            out@ == joined(views_of(values@.take(i as int)), sep@),
        decreases values@.len() - i,
    {
        proof {
            assert(views_of(values@.take(i + 1)).drop_last() =~= views_of(values@.take(i as int)));
            assert(views_of(values@.take(i + 1)).last() == values@[i as int]@);
        }
        if i > 0 {
            push_str(&mut out, sep);
        } else {
            assert(views_of(values@.take(1))[0] == values@[0]@);
        }
        push_str(&mut out, values[i].as_str());
        i = i + 1;
    }
    assert(values@.take(values@.len() as int) == values@);
    out
}

/// The lines joined with newlines.
pub fn serialize_lines(values: &Vec<String>) -> (r: String)
    ensures
        r@ == joined(views_of(values@), seq!['\n']),
{
    proof {
        reveal_strlit("\n");
        assert("\n"@ =~= seq!['\n']);
    }
    join_with(values, "\n")
}


/// The text that `String::from_utf8_lossy` makes of `b`.
pub uninterp spec fn lossy_decoded(b: Seq<u8>) -> Seq<char>;

/// Calls `String::from_utf8_lossy`. Claimed: the result is the named decoding
/// of `b`, a function of `b` alone, and for valid UTF-8 it is the plain
/// decoding, as std documents.
#[verifier::external_body]
pub(crate) fn lossy_text(b: &[u8]) -> (r: String)
    ensures
        r@ == lossy_decoded(b@),
        valid_utf8(b@) ==> r@ == decode_utf8(b@),
{
    String::from_utf8_lossy(b).into_owned()
}

} // verus!
