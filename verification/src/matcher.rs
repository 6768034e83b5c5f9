//! Compiled byte regexes and glob sets, each kept together with the text it
//! was compiled from, so that contracts can speak of that text.
use vstd::prelude::*;
use crate::text::views_of;

verus! {

#[verifier::external_type_specification]
#[verifier::external_body]
pub struct ExRegex(regex::bytes::Regex);

#[verifier::external_type_specification]
#[verifier::external_body]
pub struct ExGlob(globset::Glob);

#[verifier::external_type_specification]
#[verifier::external_body]
pub struct ExGlobSet(globset::GlobSet);

/// Whether the regex crate accepts `source` as a pattern under the given
/// case and Unicode flags.
pub uninterp spec fn regex_accepts(source: Seq<char>, ignore_case: bool, unicode: bool) -> bool;

/// The successive non-overlapping matches, as (start, end) byte offsets, that
/// the regex crate finds for `source` (with the given flags) in `haystack`.
pub uninterp spec fn regex_matches(
    source: Seq<char>,
    ignore_case: bool,
    unicode: bool,
    haystack: Seq<u8>,
) -> Seq<(int, int)>;

/// The characters `regex::escape` puts a backslash before.
pub open spec fn is_regex_meta(c: char) -> bool {
    c == '\\' || c == '.' || c == '+' || c == '*' || c == '?' || c == '(' || c == ')' || c == '|'
        || c == '[' || c == ']' || c == '{' || c == '}' || c == '^' || c == '$' || c == '#' || c == '&'
        || c == '-' || c == '~'
}

/// The text that `regex::escape` produces for `text`: every character
/// kept, with a backslash before each of `\ . + * ? ( ) | [ ] { } ^ $ # & - ~`.
pub open spec fn regex_escaped(text: Seq<char>) -> Seq<char>
    decreases text.len(),
{
    if text.len() == 0 {
        text
    } else {
        regex_escaped(text.drop_last()) + if is_regex_meta(text.last()) {
            seq!['\\', text.last()]
        } else {
            seq![text.last()]
        }
    }
}

/// Whether globset accepts `pattern` as a glob.
pub uninterp spec fn glob_accepts(pattern: Seq<char>) -> bool;

/// Whether globset can build a set out of globs with these texts.
pub uninterp spec fn glob_set_builds(patterns: Seq<Seq<char>>) -> bool;

/// Whether some glob of the set built from `patterns` matches `path`.
pub uninterp spec fn glob_set_matches(patterns: Seq<Seq<char>>, path: Seq<char>) -> bool;

/// Spans are ordered, do not overlap, and lie within a haystack of `len` bytes.
pub open spec fn valid_spans(spans: Seq<(int, int)>, len: int) -> bool {
    &&& forall|i: int| 0 <= i < spans.len() ==> 0 <= (#[trigger] spans[i]).0 <= spans[i].1 <= len
    &&& forall|i: int, j: int|
        0 <= i < j < spans.len() ==> (#[trigger] spans[i]).1 <= (#[trigger] spans[j]).0
}

pub open spec fn span_view(p: (usize, usize)) -> (int, int) {
    (p.0 as int, p.1 as int)
}

pub open spec fn spans_view(s: Seq<(usize, usize)>) -> Seq<(int, int)> {
    s.map_values(|p: (usize, usize)| span_view(p))
}

/// Builds a byte regex with `regex::bytes::RegexBuilder` from `source`, with
/// case-insensitive matching set to `ignore_case` and Unicode mode set to
/// `unicode`. Claimed: it succeeds exactly when the regex crate accepts the
/// pattern under those flags.
#[verifier::external_body]
fn build_regex(source: &str, ignore_case: bool, unicode: bool) -> (r: Option<regex::bytes::Regex>)
    ensures
        r is Some <==> regex_accepts(source@, ignore_case, unicode),
{
    regex::bytes::RegexBuilder::new(source).case_insensitive(ignore_case).unicode(unicode).build().ok()
}

/// Calls `regex::escape`. Claimed, as regex-syntax's `escape_into` and
/// `is_meta_character` show: the result is `text` with a backslash before
/// each meta character.
#[verifier::external_body]
pub(crate) fn escape_regex(text: &str) -> (r: String)
    ensures
        r@ == regex_escaped(text@),
{
    regex::escape(text)
}

/// Builds a glob with `globset::Glob::new`. Claimed: it succeeds exactly
/// when globset accepts the pattern.
#[verifier::external_body]
fn build_glob(pattern: &str) -> (r: Option<globset::Glob>)
    ensures
        r is Some <==> glob_accepts(pattern@),
{
    globset::Glob::new(pattern).ok()
}

/// A compiled byte regex together with the pattern text and flags it was
/// compiled from. Only [`Matcher::compile`] makes one.
pub struct Matcher {
    source: String,
    ignore_case: bool,
    unicode: bool,
    regex: regex::bytes::Regex,
}

impl Matcher {
    pub closed spec fn source(&self) -> Seq<char> {
        self.source@
    }

    pub closed spec fn ignore_case(&self) -> bool {
        self.ignore_case
    }

    pub closed spec fn unicode(&self) -> bool {
        self.unicode
    }

    /// The matches of this regex in `haystack`.
    pub open spec fn matches_in(&self, haystack: Seq<u8>) -> Seq<(int, int)> {
        regex_matches(self.source(), self.ignore_case(), self.unicode(), haystack)
    }

    /// Compile `source` under the given flags; `None` when the regex crate
    /// rejects it.
    pub fn compile(source: &str, ignore_case: bool, unicode: bool) -> (r: Option<Matcher>)
        ensures
            r is Some <==> regex_accepts(source@, ignore_case, unicode),
            r matches Some(m) ==> m.source() == source@ && m.ignore_case() == ignore_case
                && m.unicode() == unicode,
    {
        match build_regex(source, ignore_case, unicode) {
            Some(regex) => Some(Matcher { source: source.to_owned(), ignore_case, unicode, regex }),
            None => None,
        }
    }

    /// Calls `regex::bytes::Regex::find_iter` and collects each match's
    /// start and end. Claimed: the spans are the named matches of the source
    /// the regex was compiled from, and, as the crate documents them
    /// ("successive non-overlapping matches"), they are ordered, do not
    /// overlap and lie inside the haystack.
    #[verifier::external_body]
    pub(crate) fn find_all(&self, haystack: &[u8]) -> (r: Vec<(usize, usize)>)
        ensures
            spans_view(r@) == regex_matches(
                self.source(),
                self.ignore_case(),
                self.unicode(),
                haystack@,
            ),
            valid_spans(spans_view(r@), haystack@.len() as int),
    {
        self.regex.find_iter(haystack).map(|m| (m.start(), m.end())).collect()
    }
}

/// A glob together with the text it was compiled from. Only
/// [`GlobText::compile`] makes one.
pub struct GlobText {
    text: String,
    glob: globset::Glob,
}

impl GlobText {
    pub closed spec fn text(&self) -> Seq<char> {
        self.text@
    }

    /// Compile `pattern`; `None` when globset rejects it.
    pub fn compile(pattern: &str) -> (r: Option<GlobText>)
        ensures
            r is Some <==> glob_accepts(pattern@),
            r matches Some(g) ==> g.text() == pattern@,
    {
        match build_glob(pattern) {
            Some(glob) => Some(GlobText { text: pattern.to_owned(), glob }),
            None => None,
        }
    }
}

pub open spec fn glob_texts(v: Seq<GlobText>) -> Seq<Seq<char>> {
    v.map_values(|g: GlobText| g.text())
}

/// Builds a set with `globset::GlobSet::new` from the given globs. Claimed:
/// it succeeds exactly when globset can build a set of globs with those
/// texts.
#[verifier::external_body]
fn build_glob_set(globs: &Vec<GlobText>) -> (r: Option<globset::GlobSet>)
    ensures
        r is Some <==> glob_set_builds(glob_texts(globs@)),
{
    globset::GlobSet::new(globs.iter().map(|g| g.glob.clone())).ok()
}

/// Whether every text is a glob and the texts together make a set.
pub open spec fn globs_build(v: Seq<Seq<char>>) -> bool {
    (forall|i: int| 0 <= i < v.len() ==> glob_accepts(#[trigger] v[i])) && glob_set_builds(v)
}

/// A glob set together with the glob texts it was built from. Only
/// [`GlobPatterns::build`] makes one.
pub struct GlobPatterns {
    patterns: Ghost<Seq<Seq<char>>>,
    set: globset::GlobSet,
}

impl GlobPatterns {
    pub closed spec fn patterns(&self) -> Seq<Seq<char>> {
        self.patterns@
    }

    /// Whether some glob of the set matches `path`.
    pub open spec fn matches_path(&self, path: Seq<char>) -> bool {
        glob_set_matches(self.patterns(), path)
    }

    /// Compile each text as a glob and build the set; `None` when a glob or
    /// the set is rejected.
    pub fn build(patterns: &Vec<String>) -> (r: Option<GlobPatterns>)
        ensures
            r is Some <==> globs_build(views_of(patterns@)),
            r matches Some(g) ==> g.patterns() == views_of(patterns@),
    {
        let mut globs: Vec<GlobText> = Vec::new();
        let mut i: usize = 0;
        while i < patterns.len()
            invariant
                i <= patterns@.len(),
                glob_texts(globs@) == views_of(patterns@.take(i as int)),
                forall|j: int| 0 <= j < i ==> glob_accepts(#[trigger] patterns@[j]@),
            decreases patterns@.len() - i,
        {
            match GlobText::compile(patterns[i].as_str()) {
                Some(g) => {
                    let ghost before = globs@;
                    globs.push(g);
                    assert(patterns@.take(i + 1) == patterns@.take(i as int).push(patterns@[i as int]));
                    assert(glob_texts(globs@) =~= glob_texts(before).push(patterns@[i as int]@));
                    assert(views_of(patterns@.take(i + 1)) =~= views_of(patterns@.take(i as int)).push(
                        patterns@[i as int]@,
                    ));
                },
                None => {
                    assert(views_of(patterns@)[i as int] == patterns@[i as int]@);
                    return None;
                },
            }
            i = i + 1;
        }
        assert(patterns@.take(patterns@.len() as int) == patterns@);
        match build_glob_set(&globs) {
            Some(set) => Some(GlobPatterns { patterns: Ghost(views_of(patterns@)), set }),
            None => None,
        }
    }

    /// Calls `globset::GlobSet::is_match` on `path`. Claimed: the answer is
    /// the named match of the texts the set was built from.
    #[verifier::external_body]
    pub(crate) fn is_match(&self, path: &str) -> (r: bool)
        ensures
            r == glob_set_matches(self.patterns(), path@),
    {
        self.set.is_match(path)
    }
}

} // verus!
