//! Applying compiled mappings to bytes.
use vstd::prelude::*;
use crate::casing::{preserve_case, preserve_case_spec};
use crate::matcher::{regex_matches, spans_view, valid_spans};
use crate::options::{patterns_view, Pattern, PatternSpec};

verus! {

/// What one match is replaced with.
pub open spec fn replacement_for(
    data: Seq<u8>,
    span: (int, int),
    replacement: Seq<u8>,
    preserve: bool,
) -> Seq<u8> {
    if preserve {
        preserve_case_spec(data.subrange(span.0, span.1), replacement)
    } else {
        replacement
    }
}

/// Where the text after the first `k` matches starts.
pub open spec fn end_before(spans: Seq<(int, int)>, k: int) -> int {
    if k <= 0 {
        0
    } else {
        spans[k - 1].1
    }
}

/// The output up to the end of the replacement of the first `k` matches.
pub open spec fn spliced_prefix(
    data: Seq<u8>,
    spans: Seq<(int, int)>,
    replacement: Seq<u8>,
    preserve: bool,
    k: nat,
) -> Seq<u8>
    decreases k,
{
    if k == 0 {
        Seq::empty()
    } else {
        spliced_prefix(data, spans, replacement, preserve, (k - 1) as nat) + data.subrange(
            end_before(spans, k - 1),
            spans[k - 1].0,
        ) + replacement_for(data, spans[k - 1], replacement, preserve)
    }
}

/// `data` with every span replaced.
pub open spec fn splice(
    data: Seq<u8>,
    spans: Seq<(int, int)>,
    replacement: Seq<u8>,
    preserve: bool,
) -> Seq<u8> {
    spliced_prefix(data, spans, replacement, preserve, spans.len()) + data.subrange(
        end_before(spans, spans.len() as int),
        data.len() as int,
    )
}

/// The output up to the end of the replacement of the first `k` matches,
/// each match replaced by `f` of the matched bytes.
pub open spec fn spliced_with(
    data: Seq<u8>,
    spans: Seq<(int, int)>,
    f: spec_fn(Seq<u8>) -> Seq<u8>,
    k: nat,
) -> Seq<u8>
    decreases k,
{
    if k == 0 {
        Seq::empty()
    } else {
        spliced_with(data, spans, f, (k - 1) as nat) + data.subrange(end_before(spans, k - 1), spans[k
            - 1].0) + f(data.subrange(spans[k - 1].0, spans[k - 1].1))
    }
}

/// `data` with every span replaced by `f` of the bytes it covers.
pub open spec fn splice_with(data: Seq<u8>, spans: Seq<(int, int)>, f: spec_fn(Seq<u8>) -> Seq<u8>) -> Seq<
    u8,
> {
    spliced_with(data, spans, f, spans.len()) + data.subrange(
        end_before(spans, spans.len() as int),
        data.len() as int,
    )
}

/// The matches of a mapping in `data`.
pub open spec fn pattern_matches(p: PatternSpec, data: Seq<u8>) -> Seq<(int, int)> {
    regex_matches(p.source, p.ignore_case, p.unicode, data)
}

/// The data after the first `k` mappings, and whether any of them matched.
pub open spec fn apply_prefix(
    patterns: Seq<PatternSpec>,
    preserve: bool,
    data: Seq<u8>,
    k: nat,
) -> (Seq<u8>, bool)
    decreases k,
{
    if k == 0 {
        (data, false)
    } else {
        let prev = apply_prefix(patterns, preserve, data, (k - 1) as nat);
        let p = patterns[k - 1];
        let spans = pattern_matches(p, prev.0);
        if spans.len() == 0 {
            prev
        } else {
            (splice(prev.0, spans, p.replacement, preserve), true)
        }
    }
}

/// Each mapping in turn replaces all of its matches in the output of the
/// previous one; `None` when no mapping matched at all.
pub open spec fn apply_patterns_spec(patterns: Seq<PatternSpec>, preserve: bool, data: Seq<u8>) -> Option<
    Seq<u8>,
> {
    let r = apply_prefix(patterns, preserve, data, patterns.len());
    if r.1 {
        Some(r.0)
    } else {
        None
    }
}

/// Append `data[start..end]` to `out`.
pub fn extend_range(out: &mut Vec<u8>, data: &[u8], start: usize, end: usize)
    requires
        start <= end <= data@.len(),
    ensures
        final(out)@ == old(out)@ + data@.subrange(start as int, end as int),
{
    let mut i = start;
    while i < end
        invariant
            start <= i <= end <= data@.len(),
            out@ == old(out)@ + data@.subrange(start as int, i as int),
        decreases end - i,
    {
        out.push(data[i]);
        assert(data@.subrange(start as int, i + 1) =~= data@.subrange(start as int, i as int).push(
            data@[i as int],
        ));
        i = i + 1;
    }
}

/// Replace every span of `data` with the replacement, cased like the matched
/// text when `preserve` is set.
pub fn replace_spans(data: &[u8], spans: &Vec<(usize, usize)>, replacement: &[u8], preserve: bool) -> (r:
    Vec<u8>)
    requires
        valid_spans(spans_view(spans@), data@.len() as int),
    ensures
        r@ == splice(data@, spans_view(spans@), replacement@, preserve),
{
    let ghost sv = spans_view(spans@);
    let mut out: Vec<u8> = Vec::new();
    let mut last: usize = 0;
    let mut k: usize = 0;
    while k < spans.len()
        invariant
            sv == spans_view(spans@),
            valid_spans(sv, data@.len() as int),
            k <= spans@.len(),
            last as int == end_before(sv, k as int),
            last <= data@.len(),
            out@ == spliced_prefix(data@, sv, replacement@, preserve, k as nat),
        decreases spans@.len() - k,
    {
        let (start, end) = spans[k];
        assert(sv[k as int] == (start as int, end as int));
        if k > 0 {
            assert(sv[k - 1].1 <= sv[k as int].0);
        }
        extend_range(&mut out, data, last, start);
        if preserve {
            let matched = crate::casing::slice_range(data, start, end);
            let repl = preserve_case(matched.as_slice(), replacement);
            extend_range(&mut out, repl.as_slice(), 0, repl.len());
            assert(repl@.subrange(0, repl@.len() as int) =~= repl@);
        } else {
            extend_range(&mut out, replacement, 0, replacement.len());
            assert(replacement@.subrange(0, replacement@.len() as int) =~= replacement@);
        }
        last = end;
        k = k + 1;
    }
    extend_range(&mut out, data, last, data.len());
    out
}

/// Apply every mapping, in order, to `input`; `None` when none matched.
pub fn apply_patterns(input: &[u8], patterns: &Vec<Pattern>, preserve: bool) -> (r: Option<Vec<u8>>)
    ensures
        crate::options::opt_bytes(r) == apply_patterns_spec(patterns_view(patterns@), preserve, input@),
{
    let ghost ps = patterns_view(patterns@);
    let mut data: Vec<u8> = crate::casing::slice_range(input, 0, input.len());
    assert(input@.subrange(0, input@.len() as int) =~= input@);
    let mut changed = false;
    let mut k: usize = 0;
    while k < patterns.len()
        invariant
            ps == patterns_view(patterns@),
            k <= patterns@.len(),
            (data@, changed) == apply_prefix(ps, preserve, input@, k as nat),
        decreases patterns@.len() - k,
    {
        let spans = patterns[k].matcher.find_all(data.as_slice());
        assert(ps[k as int] == patterns@[k as int]@);
        if spans.len() != 0 {
            data = replace_spans(data.as_slice(), &spans, patterns[k].replacement.as_slice(), preserve);
            changed = true;
        }
        k = k + 1;
    }
    if changed {
        Some(data)
    } else {
        None
    }
}

} // verus!
