//! What the rewrite does to each entry of a tree: delete it, leave it, or
//! rename it and rewrite its content, and the log lines of each replacement.
use vstd::prelude::*;
use crate::casing::{is_binary, preserve_case, slice_range};
use crate::context::{context_lines, extract_context};
use crate::matcher::{spans_view, valid_spans};
use crate::options::{opt_bytes, patterns_view, Options, Pattern, PatternSpec};
use crate::replace::{apply_patterns, apply_patterns_spec, apply_prefix, pattern_matches, replace_spans, replacement_for};
use crate::text::{lossy_decoded, lossy_text, owned};

verus! {

/// Where the line holding position `i` starts: just after the last newline
/// before `i`, or at 0.
pub open spec fn line_start_at(d: Seq<u8>, i: int) -> int
    decreases i,
{
    if i <= 0 {
        0
    } else if d[i - 1] == 10 {
        i
    } else {
        line_start_at(d, i - 1)
    }
}

/// Where the line holding position `i` ends: at the first newline at or
/// after `i`, or at the end.
pub open spec fn line_end_at(d: Seq<u8>, i: int) -> int
    decreases d.len() - i,
{
    if i >= d.len() {
        d.len() as int
    } else if d[i] == 10 {
        i
    } else {
        line_end_at(d, i + 1)
    }
}

proof fn lemma_line_start_range(d: Seq<u8>, i: int)
    requires
        0 <= i <= d.len(),
    ensures
        0 <= line_start_at(d, i) <= i,
    decreases i,
{
    if i > 0 && d[i - 1] != 10 {
        lemma_line_start_range(d, i - 1);
    }
}

proof fn lemma_line_end_range(d: Seq<u8>, i: int)
    requires
        0 <= i <= d.len(),
    ensures
        i <= line_end_at(d, i) <= d.len(),
    decreases d.len() - i,
{
    if i < d.len() && d[i] != 10 {
        lemma_line_end_range(d, i + 1);
    }
}

/// One replacement as logged: the path, and the lines before and after.
pub struct ReplacementLog {
    pub path: String,
    pub before: String,
    pub after: String,
}

impl View for ReplacementLog {
    type V = (Seq<char>, Seq<char>, Seq<char>);

    open spec fn view(&self) -> Self::V {
        (self.path@, self.before@, self.after@)
    }
}

pub open spec fn logs_view(v: Seq<ReplacementLog>) -> Seq<(Seq<char>, Seq<char>, Seq<char>)> {
    v.map_values(|l: ReplacementLog| l@)
}

/// The log of one replacement: the words around the match on its line, with
/// the matched text on one side and the replacing text on the other.
pub open spec fn span_log(path: Seq<char>, data: Seq<u8>, span: (int, int), repl: Seq<u8>) -> (
    Seq<char>,
    Seq<char>,
    Seq<char>,
) {
    let ls = line_start_at(data, span.0);
    let le = line_end_at(data, span.1);
    let lines = context_lines(
        lossy_decoded(data.subrange(ls, span.0)),
        lossy_decoded(data.subrange(span.1, le)),
        lossy_decoded(data.subrange(span.0, span.1)),
        lossy_decoded(repl),
    );
    (path, lines.0, lines.1)
}

/// The log of the replacement of `data[start..end]` with `repl`.
pub fn replacement_log(path: &str, data: &[u8], start: usize, end: usize, repl: &[u8]) -> (r:
    ReplacementLog)
    requires
        start <= end <= data@.len(),
    ensures
        r@ == span_log(path@, data@, (start as int, end as int), repl@),
{
    let mut line_start = start;
    while line_start > 0 && data[line_start - 1] != 10u8
        invariant
            0 <= line_start <= start <= end <= data@.len(),
            line_start_at(data@, line_start as int) == line_start_at(data@, start as int),
        decreases line_start,
    {
        line_start = line_start - 1;
    }
    let n = data.len();
    let mut line_end = end;
    while line_end < n && data[line_end] != 10u8
        invariant
            n == data@.len(),
            start <= end <= line_end <= n,
            line_end_at(data@, line_end as int) == line_end_at(data@, end as int),
        decreases n - line_end,
    {
        line_end = line_end + 1;
    }
    let prefix = lossy_text(slice_range(data, line_start, start).as_slice());
    let suffix = lossy_text(slice_range(data, end, line_end).as_slice());
    let match_text = lossy_text(slice_range(data, start, end).as_slice());
    let repl_text = lossy_text(repl);
    let (before, after) = extract_context(
        prefix.as_str(),
        suffix.as_str(),
        match_text.as_str(),
        repl_text.as_str(),
    );
    ReplacementLog { path: owned(path), before, after }
}

/// The logs of all replacements of the first `k` mappings, in order.
pub open spec fn logs_prefix(
    patterns: Seq<PatternSpec>,
    preserve: bool,
    data: Seq<u8>,
    path: Seq<char>,
    k: nat,
) -> Seq<(Seq<char>, Seq<char>, Seq<char>)>
    decreases k,
{
    if k == 0 {
        Seq::empty()
    } else {
        let d = apply_prefix(patterns, preserve, data, (k - 1) as nat).0;
        let p = patterns[k - 1];
        let spans = pattern_matches(p, d);
        logs_prefix(patterns, preserve, data, path, (k - 1) as nat) + Seq::new(
            spans.len(),
            |i: int| span_log(path, d, spans[i], replacement_for(d, spans[i], p.replacement, preserve)),
        )
    }
}

/// The logs of the replacements of one mapping's matches in `data`.
fn span_logs(
    path: &str,
    data: &[u8],
    spans: &Vec<(usize, usize)>,
    replacement: &[u8],
    preserve: bool,
) -> (r: Vec<ReplacementLog>)
    requires
        valid_spans(spans_view(spans@), data@.len() as int),
    ensures
        logs_view(r@) == Seq::new(
            spans@.len(),
            |i: int|
                span_log(
                    path@,
                    data@,
                    spans_view(spans@)[i],
                    replacement_for(data@, spans_view(spans@)[i], replacement@, preserve),
                ),
        ),
{
    let ghost sv = spans_view(spans@);
    let mut out: Vec<ReplacementLog> = Vec::new();
    let mut k: usize = 0;
    while k < spans.len()
        invariant
            sv == spans_view(spans@),
            valid_spans(sv, data@.len() as int),
            k <= spans@.len(),
            logs_view(out@) == Seq::new(
                k as nat,
                |i: int|
                    span_log(
                        path@,
                        data@,
                        sv[i],
                        replacement_for(data@, sv[i], replacement@, preserve),
                    ),
            ),
        decreases spans@.len() - k,
    {
        let (start, end) = spans[k];
        assert(sv[k as int] == (start as int, end as int));
        let log = if preserve {
            let matched = slice_range(data, start, end);
            let repl = preserve_case(matched.as_slice(), replacement);
            replacement_log(path, data, start, end, repl.as_slice())
        } else {
            replacement_log(path, data, start, end, replacement)
        };
        assert(log@ == span_log(
            path@,
            data@,
            sv[k as int],
            replacement_for(data@, sv[k as int], replacement@, preserve),
        ));
        let ghost before = out@;
        out.push(log);
        assert(logs_view(out@) =~= logs_view(before).push(log@));
        assert(logs_view(out@) =~= Seq::new(
            (k + 1) as nat,
            |i: int|
                span_log(path@, data@, sv[i], replacement_for(data@, sv[i], replacement@, preserve)),
        ));
        k = k + 1;
    }
    out
}

/// Apply every mapping, in order, to `input`, as [`apply_patterns`] does,
/// and log every replacement with the path it was made in.
pub fn apply_patterns_with_log(input: &[u8], path: &str, patterns: &Vec<Pattern>, preserve: bool) -> (r: (
    Option<Vec<u8>>,
    Vec<ReplacementLog>,
))
    ensures
        opt_bytes(r.0) == apply_patterns_spec(patterns_view(patterns@), preserve, input@),
        logs_view(r.1@) == logs_prefix(
            patterns_view(patterns@),
            preserve,
            input@,
            path@,
            patterns@.len(),
        ),
{
    let ghost ps = patterns_view(patterns@);
    let mut data: Vec<u8> = slice_range(input, 0, input.len());
    assert(input@.subrange(0, input@.len() as int) =~= input@);
    let mut logs: Vec<ReplacementLog> = Vec::new();
    let mut changed = false;
    let mut k: usize = 0;
    while k < patterns.len()
        invariant
            ps == patterns_view(patterns@),
            k <= patterns@.len(),
            (data@, changed) == apply_prefix(ps, preserve, input@, k as nat),
            logs_view(logs@) == logs_prefix(ps, preserve, input@, path@, k as nat),
        decreases patterns@.len() - k,
    {
        let spans = patterns[k].matcher.find_all(data.as_slice());
        assert(ps[k as int] == patterns@[k as int]@);
        let new_logs = span_logs(path, data.as_slice(), &spans, patterns[k].replacement.as_slice(), preserve);
        let ghost before = logs@;
        let mut j: usize = 0;
        while j < new_logs.len()
            invariant
                j <= new_logs@.len(),
                logs_view(logs@) == logs_view(before) + logs_view(new_logs@).take(j as int),
            decreases new_logs@.len() - j,
        {
            let l = ReplacementLog {
                path: new_logs[j].path.clone(),
                before: new_logs[j].before.clone(),
                after: new_logs[j].after.clone(),
            };
            let ghost mid = logs@;
            logs.push(l);
            assert(logs_view(logs@) =~= logs_view(mid).push(new_logs@[j as int]@));
            assert(logs_view(new_logs@).take(j + 1) =~= logs_view(new_logs@).take(j as int).push(
                new_logs@[j as int]@,
            ));
            j = j + 1;
        }
        assert(logs_view(new_logs@).take(new_logs@.len() as int) =~= logs_view(new_logs@));
        assert(logs_view(logs@) =~= logs_prefix(ps, preserve, input@, path@, (k + 1) as nat));
        if spans.len() != 0 {
            data = replace_spans(data.as_slice(), &spans, patterns[k].replacement.as_slice(), preserve);
            changed = true;
        }
        k = k + 1;
    }
    if changed {
        (Some(data), logs)
    } else {
        (None, logs)
    }
}


/// What happens to an entry, judged by its path.
pub enum PathDecision {
    /// A delete glob matches: the entry goes.
    Delete,
    /// An exclude glob matches: the entry stays as it is.
    Excluded,
    /// The entry is kept under `new_path` (its path after renaming).
    Keep { new_path: Vec<u8> },
}

/// The same, as contracts see it.
pub enum PathVerdict {
    Delete,
    Excluded,
    Keep(Seq<u8>),
}

pub open spec fn verdict_of(d: PathDecision) -> PathVerdict {
    match d {
        PathDecision::Delete => PathVerdict::Delete,
        PathDecision::Excluded => PathVerdict::Excluded,
        PathDecision::Keep { new_path } => PathVerdict::Keep(new_path@),
    }
}

/// The path after renaming: the mappings applied to it when renaming is on
/// and some mapping matched, otherwise the path itself.
pub open spec fn renamed_path(path: Seq<u8>, options: Options) -> Seq<u8> {
    if options.rename_files {
        match apply_patterns_spec(patterns_view(options.patterns@), options.preserve_case, path) {
            Some(u) => u,
            None => path,
        }
    } else {
        path
    }
}

/// What happens to the entry at `path`: delete globs first, then exclude
/// globs, both tested on the path as text; otherwise it is kept, renamed.
pub open spec fn path_verdict(path: Seq<u8>, options: Options) -> PathVerdict {
    let text = lossy_decoded(path);
    if options.delete matches Some(g) && g.matches_path(text) {
        PathVerdict::Delete
    } else if options.exclude matches Some(g) && g.matches_path(text) {
        PathVerdict::Excluded
    } else {
        PathVerdict::Keep(renamed_path(path, options))
    }
}

/// Without renaming, an entry that no delete or exclude glob takes is kept
/// under its own path, whatever the mappings; with renaming, under its path
/// as the mappings rewrite it (itself when none matches).
pub proof fn lemma_paths_renamed_only_when_asked(path: Seq<u8>, options: Options)
    ensures
        path_verdict(path, options) is Delete || path_verdict(path, options) is Excluded || path_verdict(
            path,
            options,
        ) is Keep,
        !options.rename_files && path_verdict(path, options) is Keep ==> path_verdict(path, options)
            == PathVerdict::Keep(path),
        options.rename_files && path_verdict(path, options) is Keep && apply_patterns_spec(
            patterns_view(options.patterns@),
            options.preserve_case,
            path,
        ) is None ==> path_verdict(path, options) == PathVerdict::Keep(path),
        (options.delete matches Some(g) && g.matches_path(lossy_decoded(path))) ==> path_verdict(
            path,
            options,
        ) is Delete,
{
}

/// Judge an entry by its path.
pub fn decide_path(path: &[u8], options: &Options) -> (r: PathDecision)
    ensures
        verdict_of(r) == path_verdict(path@, *options),
{
    let text = lossy_text(path);
    if let Some(g) = &options.delete {
        if g.is_match(text.as_str()) {
            return PathDecision::Delete;
        }
    }
    if let Some(g) = &options.exclude {
        if g.is_match(text.as_str()) {
            return PathDecision::Excluded;
        }
    }
    let same = slice_range(path, 0, path.len());
    assert(path@.subrange(0, path@.len() as int) =~= path@);
    if options.rename_files {
        match apply_patterns(path, &options.patterns, options.preserve_case) {
            Some(updated) => PathDecision::Keep { new_path: updated },
            None => PathDecision::Keep { new_path: same },
        }
    } else {
        PathDecision::Keep { new_path: same }
    }
}

/// What to do with a blob kept under `new_path`: its new content, when the
/// mappings change it, the logs of the replacements, and the edits to the
/// tree.
pub struct BlobPlan {
    pub content: Option<Vec<u8>>,
    pub logs: Vec<ReplacementLog>,
    pub remove_old: bool,
    pub upsert: bool,
}

/// The new content of a blob: none for binary data (it holds a zero byte),
/// none when no mapping changes it.
pub open spec fn new_content(data: Seq<u8>, options: Options) -> Option<Seq<u8>> {
    if data.contains(0u8) {
        None
    } else {
        match apply_patterns_spec(patterns_view(options.patterns@), options.preserve_case, data) {
            Some(u) => if u == data {
                None
            } else {
                Some(u)
            },
            None => None,
        }
    }
}

/// The replacement logs of a blob: none for binary data.
pub open spec fn content_logs(path: Seq<u8>, data: Seq<u8>, options: Options) -> Seq<
    (Seq<char>, Seq<char>, Seq<char>),
> {
    if data.contains(0u8) {
        Seq::empty()
    } else {
        logs_prefix(
            patterns_view(options.patterns@),
            options.preserve_case,
            data,
            lossy_decoded(path),
            options.patterns@.len(),
        )
    }
}

/// Plan the rewrite of a blob at `path`, kept under `new_path`: rewrite its
/// content unless it is binary; remove the old entry when renamed; write the
/// new entry when renamed or changed.
pub fn plan_blob(path: &[u8], new_path: &[u8], data: &[u8], options: &Options) -> (r: BlobPlan)
    ensures
        opt_bytes(r.content) == new_content(data@, *options),
        logs_view(r.logs@) == content_logs(new_path@, data@, *options),
        r.remove_old == (new_path@ != path@),
        r.upsert == (new_path@ != path@ || new_content(data@, *options) is Some),
{
    let renamed = !crate::bytes::bytes_eq(new_path, path);
    if is_binary(data) {
        return BlobPlan { content: None, logs: Vec::new(), remove_old: renamed, upsert: renamed };
    }
    let text = lossy_text(new_path);
    let (updated, logs) = apply_patterns_with_log(
        data,
        text.as_str(),
        &options.patterns,
        options.preserve_case,
    );
    let content = match updated {
        Some(u) => if crate::bytes::bytes_eq(u.as_slice(), data) {
            None
        } else {
            Some(u)
        },
        None => None,
    };
    let changed = content.is_some();
    BlobPlan { content, logs, remove_old: renamed, upsert: renamed || changed }
}

/// Whether a rewrite leaves every tree as it is: no mappings, no renaming,
/// nothing to delete.
pub open spec fn trees_untouched(options: Options) -> bool {
    options.patterns@.len() == 0 && !options.rename_files && options.delete is None
}

/// Whether a rewrite leaves every tree as it is.
pub fn leaves_trees(options: &Options) -> (r: bool)
    ensures
        r == trees_untouched(*options),
{
    options.patterns.len() == 0 && !options.rename_files && options.delete.is_none()
}

/// With no mappings, no renaming and nothing to delete, no entry is deleted
/// or renamed and no blob is changed.
pub proof fn lemma_untouched_trees_stay(path: Seq<u8>, data: Seq<u8>, options: Options)
    requires
        trees_untouched(options),
    ensures
        path_verdict(path, options) is Excluded || path_verdict(path, options) == PathVerdict::Keep(
            path,
        ),
        new_content(data, options) is None,
        content_logs(path, data, options).len() == 0,
{
    let ps = patterns_view(options.patterns@);
    assert(ps.len() == 0);
    assert(apply_prefix(ps, options.preserve_case, data, 0) == (data, false));
    assert(logs_prefix(ps, options.preserve_case, data, lossy_decoded(path), 0) =~= Seq::empty());
}

} // verus!
