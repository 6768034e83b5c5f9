//! Blob mappings written `old:new`, where `\:` stands for a literal colon.
use vstd::prelude::*;
use crate::matcher::{escape_regex, regex_escaped};
use crate::text::{joined, push_str, views_of};

verus! {

/// A mapping that has no unescaped colon.
pub struct MappingError {
    pub entry: String,
}

/// A colon at `k` that is not preceded by a backslash separates old from new.
pub open spec fn separator_at(s: Seq<char>, k: int) -> bool {
    0 <= k < s.len() && s[k] == ':' && (k == 0 || s[k - 1] != '\\')
}

/// The first separator at or after `from`, or -1.
pub open spec fn first_separator(s: Seq<char>, from: int) -> int
    decreases s.len() - from,
{
    if from < 0 || from >= s.len() {
        -1
    } else if separator_at(s, from) {
        from
    } else {
        first_separator(s, from + 1)
    }
}

/// Replace every `\:` by `:`.
pub open spec fn unescape(s: Seq<char>) -> Seq<char>
    decreases s.len(),
{
    if s.len() == 0 {
        s
    } else if s.len() >= 2 && s[0] == '\\' && s[1] == ':' {
        seq![':'] + unescape(s.skip(2))
    } else {
        seq![s[0]] + unescape(s.skip(1))
    }
}

/// The (old, new) pair a mapping denotes, or `None` without a separator.
pub open spec fn mapping_spec(s: Seq<char>) -> Option<(Seq<char>, Seq<char>)> {
    let k = first_separator(s, 0);
    if k < 0 {
        None
    } else {
        Some((unescape(s.take(k)), unescape(s.skip(k + 1))))
    }
}

proof fn lemma_first_separator_range(s: Seq<char>, from: int)
    ensures
        first_separator(s, from) == -1 || (from <= first_separator(s, from) < s.len()
            && separator_at(s, first_separator(s, from))),
    decreases s.len() - from,
{
    if 0 <= from < s.len() && !separator_at(s, from) {
        lemma_first_separator_range(s, from + 1);
    }
}

/// Every `:` written as `\:`.
pub open spec fn escape_colons(s: Seq<char>) -> Seq<char>
    decreases s.len(),
{
    if s.len() == 0 {
        s
    } else if s[0] == ':' {
        seq!['\\', ':'] + escape_colons(s.skip(1))
    } else {
        seq![s[0]] + escape_colons(s.skip(1))
    }
}

proof fn lemma_escape_colons(x: Seq<char>)
    requires
        !x.contains('\\'),
    ensures
        unescape(escape_colons(x)) == x,
        forall|j: int|
            0 <= j < escape_colons(x).len() && #[trigger] escape_colons(x)[j] == ':' ==> j > 0
                && escape_colons(x)[j - 1] == '\\',
        forall|j: int|
            0 <= j < escape_colons(x).len() && #[trigger] escape_colons(x)[j] == '\\' ==> j + 1
                < escape_colons(x).len() && escape_colons(x)[j + 1] == ':',
    decreases x.len(),
{
    if x.len() > 0 {
        let rest = x.skip(1);
        assert(!rest.contains('\\')) by {
            if rest.contains('\\') {
                let k = choose|k: int| 0 <= k < rest.len() && rest[k] == '\\';
                assert(x[k + 1] == '\\');
            }
        }
        lemma_escape_colons(rest);
        let er = escape_colons(rest);
        let e = escape_colons(x);
        if x[0] == ':' {
            assert(e =~= seq!['\\', ':'] + er);
            assert(e.skip(2) =~= er);
            assert(unescape(e) == seq![':'] + unescape(e.skip(2)));
            assert(unescape(e) =~= x);
            assert forall|j: int| 0 <= j < e.len() && #[trigger] e[j] == ':' implies j > 0 && e[j - 1] == '\\' by {
                if j >= 2 {
                    assert(e[j] == er[j - 2]);
                }
            }
            assert forall|j: int| 0 <= j < e.len() && #[trigger] e[j] == '\\' implies j + 1 < e.len() && e[j + 1] == ':' by {
                if j >= 2 {
                    assert(e[j] == er[j - 2]);
                }
            }
        } else {
            assert(e =~= seq![x[0]] + er);
            assert(x[0] != '\\');
            assert(e.skip(1) =~= er);
            assert(unescape(e) == seq![x[0]] + unescape(e.skip(1)));
            assert(unescape(e) =~= x);
            assert forall|j: int| 0 <= j < e.len() && #[trigger] e[j] == ':' implies j > 0 && e[j - 1] == '\\' by {
                if j >= 1 {
                    assert(e[j] == er[j - 1]);
                }
            }
            assert forall|j: int| 0 <= j < e.len() && #[trigger] e[j] == '\\' implies j + 1 < e.len() && e[j + 1] == ':' by {
                if j >= 1 {
                    assert(e[j] == er[j - 1]);
                }
            }
        }
    }
}

proof fn lemma_first_separator_at(s: Seq<char>, from: int, k: int)
    requires
        0 <= from <= k < s.len(),
        separator_at(s, k),
        forall|j: int| from <= j < k ==> !#[trigger] separator_at(s, j),
    ensures
        first_separator(s, from) == k,
    decreases k - from,
{
    if from < k {
        lemma_first_separator_at(s, from + 1, k);
    }
}

/// A mapping written with every colon of both sides escaped reads back as
/// the two sides, for sides without backslashes.
pub proof fn lemma_escaped_mapping_reads_back(old: Seq<char>, new: Seq<char>)
    requires
        !old.contains('\\'),
        !new.contains('\\'),
    ensures
        mapping_spec(escape_colons(old) + seq![':'] + escape_colons(new)) == Some((old, new)),
{
    lemma_escape_colons(old);
    lemma_escape_colons(new);
    let eo = escape_colons(old);
    let s = eo + seq![':'] + escape_colons(new);
    let k = eo.len() as int;
    assert(s[k] == ':');
    assert(k > 0 ==> eo[k - 1] != '\\') by {
        if k > 0 && eo[k - 1] == '\\' {
            assert(eo[k - 1] == '\\');
        }
    }
    assert(separator_at(s, k));
    assert forall|j: int| 0 <= j < k implies !#[trigger] separator_at(s, j) by {
        assert(s[j] == eo[j]);
        if s[j] == ':' {
            assert(eo[j] == ':');
            assert(s[j - 1] == eo[j - 1]);
        }
    }
    lemma_first_separator_at(s, 0, k);
    assert(s.take(k) =~= eo);
    assert(s.skip(k + 1) =~= escape_colons(new));
}

/// `s[from..to]` with every `\:` replaced by `:`.
fn unescape_range(s: &str, from: usize, to: usize) -> (r: String)
    requires
        from <= to <= s@.len(),
    ensures
        r@ == unescape(s@.subrange(from as int, to as int)),
{
    let mut out = String::new();
    let mut i = from;
    proof {
        reveal_strlit(":");
    }
    while i < to
        invariant
            from <= i <= to <= s@.len(),
            out@ + unescape(s@.subrange(i as int, to as int)) == unescape(
                s@.subrange(from as int, to as int),
            ),
        decreases to - i,
    {
        let t = Ghost(s@.subrange(i as int, to as int));
        if i + 1 < to && s.get_char(i) == '\\' && s.get_char(i + 1) == ':' {
            proof {
                reveal_strlit(":");
                assert(t@[0] == '\\' && t@[1] == ':');
                assert(t@.skip(2) =~= s@.subrange(i + 2, to as int));
                assert(":"@ =~= seq![':']);
            }
            let ghost before = out@;
            push_str(&mut out, ":");
            proof {
                assert(unescape(t@) == seq![':'] + unescape(t@.skip(2)));
                assert(out@ + unescape(s@.subrange(i + 2, to as int)) =~= before + unescape(t@));
            }
            i = i + 2;
        } else {
            let piece = s.substring_char(i, i + 1);
            proof {
                assert(piece@ =~= seq![t@[0]]);
                assert(t@.skip(1) =~= s@.subrange(i + 1, to as int));
            }
            let ghost before = out@;
            push_str(&mut out, piece);
            proof {
                assert(unescape(t@) == seq![t@[0]] + unescape(t@.skip(1)));
                assert(out@ + unescape(s@.subrange(i + 1, to as int)) =~= before + unescape(t@));
            }
            i = i + 1;
        }
    }
    out
}

/// Split a mapping at its first unescaped colon into (old, new), each with
/// `\:` turned into `:`.
pub fn parse_mapping(entry: &str) -> (r: Result<(String, String), MappingError>)
    ensures
        mapping_spec(entry@) is None ==> r is Err,
        mapping_spec(entry@) matches Some(p) ==> (r matches Ok(q) && q.0@ == p.0 && q.1@ == p.1),
        r matches Err(e) ==> e.entry@ == entry@,
{
    let n = entry.unicode_len();
    let mut k: usize = 0;
    while k < n
        invariant
            n == entry@.len(),
            k <= n,
            first_separator(entry@, 0) == first_separator(entry@, k as int),
        decreases n - k,
    {
        if entry.get_char(k) == ':' && (k == 0 || entry.get_char(k - 1) != '\\') {
            let old = unescape_range(entry, 0, k);
            let new = unescape_range(entry, k + 1, n);
            assert(entry@.subrange(0, k as int) == entry@.take(k as int));
            assert(entry@.subrange(k + 1, n as int) == entry@.skip(k + 1));
            return Ok((old, new));
        }
        k = k + 1;
    }
    Err(MappingError { entry: entry.to_owned() })
}

pub open spec fn all_mappings_valid(entries: Seq<String>) -> bool {
    forall|i: int| 0 <= i < entries.len() ==> mapping_spec(#[trigger] entries[i]@) is Some
}

/// The first entry that is not a mapping.
pub open spec fn first_invalid(entries: Seq<String>) -> int {
    choose|i: int|
        0 <= i < entries.len() && mapping_spec(#[trigger] entries[i]@) is None && forall|j: int|
            0 <= j < i ==> mapping_spec(#[trigger] entries[j]@) is Some
}

/// Check that every entry is a mapping and return the entries unchanged;
/// otherwise the error names the first entry that is not.
pub fn parse_blob_map(entries: &Vec<String>) -> (r: Result<Vec<String>, MappingError>)
    ensures
        all_mappings_valid(entries@) ==> (r matches Ok(v) && v@ == entries@),
        !all_mappings_valid(entries@) ==> (r matches Err(e) && e.entry@ == entries@[first_invalid(
            entries@,
        )]@),
{
    let mut parsed: Vec<String> = Vec::new();
    let mut i: usize = 0;
    while i < entries.len()
        invariant
            i <= entries@.len(),
            parsed@ == entries@.take(i as int),
            forall|j: int| 0 <= j < i ==> mapping_spec(#[trigger] entries@[j]@) is Some,
        decreases entries@.len() - i,
    {
        match parse_mapping(entries[i].as_str()) {
            Ok(_) => {},
            Err(e) => {
                proof {
                    assert(mapping_spec(entries@[i as int]@) is None);
                    let w = i as int;
                    assert(0 <= w < entries@.len() && mapping_spec(entries@[w]@) is None && forall|
                        j: int,
                    | 0 <= j < w ==> mapping_spec(#[trigger] entries@[j]@) is Some);
                    let c = first_invalid(entries@);
                    if c < w {
                        assert(mapping_spec(entries@[c]@) is Some);
                    }
                    if c > w {
                        assert(mapping_spec(entries@[w]@) is Some);
                    }
                }
                return Err(e);
            },
        }
        parsed.push(entries[i].clone());
        assert(parsed@ =~= entries@.take(i + 1));
        i = i + 1;
    }
    assert(entries@.take(entries@.len() as int) =~= entries@);
    Ok(parsed)
}

/// The old and new sides of each mapping, joined by `between`, one per line.
pub open spec fn mapping_lines(entries: Seq<String>, between: Seq<char>) -> Seq<Seq<char>> {
    entries.map_values(
        |e: String| mapping_spec(e@).unwrap().0 + between + mapping_spec(e@).unwrap().1,
    )
}

/// Each mapping rendered as old, `between`, new; the lines joined with `\n`.
fn render_mappings(entries: &Vec<String>, between: &str) -> (r: Result<String, MappingError>)
    ensures
        all_mappings_valid(entries@) ==> (r matches Ok(s) && s@ == joined(
            mapping_lines(entries@, between@),
            seq!['\n'],
        )),
        !all_mappings_valid(entries@) ==> (r matches Err(e) && e.entry@ == entries@[first_invalid(
            entries@,
        )]@),
{
    let mut lines: Vec<String> = Vec::new();
    let mut i: usize = 0;
    while i < entries.len()
        invariant
            i <= entries@.len(),
            views_of(lines@) == mapping_lines(entries@.take(i as int), between@),
            forall|j: int| 0 <= j < i ==> mapping_spec(#[trigger] entries@[j]@) is Some,
        decreases entries@.len() - i,
    {
        match parse_mapping(entries[i].as_str()) {
            Ok((old, new)) => {
                let mut line = old;
                push_str(&mut line, between);
                push_str(&mut line, new.as_str());
                let ghost before = lines@;
                lines.push(line);
                proof {
                    assert(entries@.take(i + 1) =~= entries@.take(i as int).push(entries@[i as int]));
                    assert(views_of(lines@) =~= views_of(before).push(line@));
                    assert(mapping_lines(entries@.take(i + 1), between@) =~= mapping_lines(
                        entries@.take(i as int),
                        between@,
                    ).push(line@));
                }
            },
            Err(e) => {
                proof {
                    let w = i as int;
                    assert(0 <= w < entries@.len() && mapping_spec(entries@[w]@) is None && forall|
                        j: int,
                    | 0 <= j < w ==> mapping_spec(#[trigger] entries@[j]@) is Some);
                    let c = first_invalid(entries@);
                    if c < w {
                        assert(mapping_spec(entries@[c]@) is Some);
                    }
                    if c > w {
                        assert(mapping_spec(entries@[w]@) is Some);
                    }
                }
                return Err(e);
            },
        }
        i = i + 1;
    }
    assert(entries@.take(entries@.len() as int) =~= entries@);
    let joined_lines = crate::text::serialize_lines(&lines);
    Ok(joined_lines)
}

/// The mappings as `old<TAB>new` lines, the form the comparison callbacks read.
pub fn build_blob_map_env(entries: &Vec<String>) -> (r: Result<String, MappingError>)
    ensures
        all_mappings_valid(entries@) ==> (r matches Ok(s) && s@ == joined(
            mapping_lines(entries@, seq!['\t']),
            seq!['\n'],
        )),
        !all_mappings_valid(entries@) ==> (r matches Err(e) && e.entry@ == entries@[first_invalid(
            entries@,
        )]@),
{
    proof {
        reveal_strlit("\t");
        assert("\t"@ =~= seq!['\t']);
    }
    render_mappings(entries, "\t")
}

/// The mappings as `old==>new` lines, the replacement file format of BFG.
pub fn build_bfg_replace_text(entries: &Vec<String>) -> (r: Result<String, MappingError>)
    ensures
        all_mappings_valid(entries@) ==> (r matches Ok(s) && s@ == joined(
            mapping_lines(entries@, seq!['=', '=', '>']),
            seq!['\n'],
        )),
        !all_mappings_valid(entries@) ==> (r matches Err(e) && e.entry@ == entries@[first_invalid(
            entries@,
        )]@),
{
    proof {
        reveal_strlit("==>");
        assert("==>"@ =~= seq!['=', '=', '>']);
    }
    render_mappings(entries, "==>")
}

/// The entries that are mappings, rewritten as `escaped-old:new` where the old
/// side is escaped for use as a regex.
pub open spec fn regexified(entries: Seq<String>) -> Seq<Seq<char>> {
    entries.filter(|e: String| mapping_spec(e@) is Some).map_values(
        |e: String| regex_escaped(mapping_spec(e@).unwrap().0) + seq![':'] + mapping_spec(
            e@,
        ).unwrap().1,
    )
}

/// Turn literal mappings into regex mappings that match the same text;
/// entries that are not mappings are dropped.
pub fn regexify_blob_map(entries: &Vec<String>) -> (r: Vec<String>)
    ensures
        views_of(r@) == regexified(entries@),
{
    let mut out: Vec<String> = Vec::new();
    let mut i: usize = 0;
    proof {
        reveal_strlit(":");
        assert(":"@ =~= seq![':']);
    }
    while i < entries.len()
        invariant
            i <= entries@.len(),
            views_of(out@) == regexified(entries@.take(i as int)),
        decreases entries@.len() - i,
    {
        proof {
            assert(entries@.take(i + 1).drop_last() =~= entries@.take(i as int));
            reveal(Seq::filter);
            reveal_strlit(":");
            assert(":"@ =~= seq![':']);
        }
        match parse_mapping(entries[i].as_str()) {
            Ok((old, new)) => {
                let mut line = escape_regex(old.as_str());
                push_str(&mut line, ":");
                push_str(&mut line, new.as_str());
                let ghost before = out@;
                out.push(line);
                proof {
                    let f = |e: String| mapping_spec(e@) is Some;
                    let g = |e: String|
                        regex_escaped(mapping_spec(e@).unwrap().0) + seq![':'] + mapping_spec(
                            e@,
                        ).unwrap().1;
                    assert(entries@.take(i + 1).filter(f) =~= entries@.take(i as int).filter(f).push(
                        entries@[i as int],
                    ));
                    assert(views_of(out@) =~= views_of(before).push(line@));
                    assert(entries@.take(i + 1).filter(f).map_values(g) =~= entries@.take(
                        i as int,
                    ).filter(f).map_values(g).push(line@));
                }
            },
            Err(_) => {
                proof {
                    let f = |e: String| mapping_spec(e@) is Some;
                    assert(entries@.take(i + 1).filter(f) =~= entries@.take(i as int).filter(f));
                }
            },
        }
        i = i + 1;
    }
    assert(entries@.take(entries@.len() as int) =~= entries@);
    out
}

} // verus!
