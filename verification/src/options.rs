//! The rewrite configuration as given, and its compiled form.
use vstd::prelude::*;
use crate::mapping::{mapping_spec, parse_mapping};
use crate::matcher::{escape_regex, globs_build, regex_accepts, regex_escaped, GlobPatterns, Matcher};
use crate::text::{trim, trim_str, views_of};
use vstd::utf8::encode_utf8;

verus! {

/// What a rewrite should change. Empty strings and blank list entries mean
/// "not given".
#[derive(Clone, Debug)]
pub struct RewriteConfig {
    pub new_name: Option<String>,
    pub new_email: Option<String>,
    pub old_name: Option<String>,
    pub old_emails: Vec<String>,
    pub blob_map: Vec<String>,
    pub exclude_patterns: Vec<String>,
    pub delete_paths: Vec<String>,
    pub regex_map: bool,
    pub preserve_case: bool,
    pub ignore_case: bool,
    pub rename_files: bool,
    pub quiet: bool,
}

impl Default for RewriteConfig {
    fn default() -> (r: Self)
        ensures
            r.new_name is None,
            r.new_email is None,
            r.old_name is None,
            r.old_emails@.len() == 0,
            r.blob_map@.len() == 0,
            r.exclude_patterns@.len() == 0,
            r.delete_paths@.len() == 0,
            !r.regex_map && !r.preserve_case && !r.ignore_case && !r.rename_files && !r.quiet,
    {
        RewriteConfig {
            new_name: None,
            new_email: None,
            old_name: None,
            old_emails: Vec::new(),
            blob_map: Vec::new(),
            exclude_patterns: Vec::new(),
            delete_paths: Vec::new(),
            regex_map: false,
            preserve_case: false,
            ignore_case: false,
            rename_files: false,
            quiet: false,
        }
    }
}

/// How many commits and tags a rewrite wrote anew.
#[derive(PartialEq, Eq, Structural, Clone, Copy, Debug)]
pub struct RewriteStats {
    pub commits: usize,
    pub tags: usize,
}

/// Why a configuration cannot be compiled.
pub enum ConfigError {
    /// A blob mapping without an unescaped colon.
    InvalidMapping { entry: String },
    /// The old side of a mapping is not a valid regex.
    InvalidRegex { pattern: String },
    /// An exclude glob, or the exclude set, was rejected.
    InvalidExclude,
    /// A delete glob, or the delete set, was rejected.
    InvalidDeletePath,
}

/// The text that `str::to_lowercase` produces for `s`.
pub uninterp spec fn lowercase(s: Seq<char>) -> Seq<char>;

/// Calls `str::to_lowercase`. Claimed: the result is the named lower-case
/// form of `s`, a function of `s` alone.
#[verifier::external_body]
pub(crate) fn to_lowercase(s: &str) -> (r: String)
    ensures
        r@ == lowercase(s@),
{
    s.to_lowercase()
}

/// One mapping, compiled: a matcher for the old side and the bytes of the new.
pub struct Pattern {
    pub matcher: Matcher,
    pub replacement: Vec<u8>,
}

/// A mapping as contracts see it.
pub struct PatternSpec {
    pub source: Seq<char>,
    pub ignore_case: bool,
    pub unicode: bool,
    pub replacement: Seq<u8>,
}

impl View for Pattern {
    type V = PatternSpec;

    open spec fn view(&self) -> PatternSpec {
        PatternSpec {
            source: self.matcher.source(),
            ignore_case: self.matcher.ignore_case(),
            unicode: self.matcher.unicode(),
            replacement: self.replacement@,
        }
    }
}

pub open spec fn patterns_view(v: Seq<Pattern>) -> Seq<PatternSpec> {
    v.map_values(|p: Pattern| p@)
}

/// The regex source for the old side of a mapping.
pub open spec fn source_for(old: Seq<char>, regex_map: bool) -> Seq<char> {
    if regex_map {
        old
    } else {
        regex_escaped(old)
    }
}

/// The compiled form a mapping entry is expected to take.
pub open spec fn pattern_for(entry: Seq<char>, regex_map: bool, ignore_case: bool) -> PatternSpec {
    PatternSpec {
        source: source_for(mapping_spec(entry).unwrap().0, regex_map),
        ignore_case,
        unicode: false,
        replacement: encode_utf8(mapping_spec(entry).unwrap().1),
    }
}

/// Whether a mapping entry parses and its regex compiles.
pub open spec fn entry_compiles(entry: Seq<char>, regex_map: bool, ignore_case: bool) -> bool {
    mapping_spec(entry) is Some && regex_accepts(
        source_for(mapping_spec(entry).unwrap().0, regex_map),
        ignore_case,
        false,
    )
}

/// The UTF-8 bytes of a string.
pub fn string_bytes(s: &str) -> (r: Vec<u8>)
    ensures
        r@ == encode_utf8(s@),
{
    let b = s.as_bytes();
    let mut out: Vec<u8> = Vec::new();
    let mut i: usize = 0;
    while i < b.len()
        invariant
            i <= b@.len(),
            out@ == b@.take(i as int),
        decreases b@.len() - i,
    {
        out.push(b[i]);
        assert(out@ =~= b@.take(i + 1));
        i = i + 1;
    }
    assert(b@.take(b@.len() as int) =~= b@);
    out
}


/// The index of the first entry that does not compile.
pub open spec fn first_failing(entries: Seq<String>, regex_map: bool, ignore_case: bool) -> int {
    choose|i: int|
        0 <= i < entries.len() && !entry_compiles(#[trigger] entries[i]@, regex_map, ignore_case)
            && forall|j: int|
            0 <= j < i ==> entry_compiles(#[trigger] entries[j]@, regex_map, ignore_case)
}

/// The error a failing entry is reported with.
pub open spec fn entry_error(entry: Seq<char>, e: ConfigError) -> bool {
    if mapping_spec(entry) is None {
        e matches ConfigError::InvalidMapping { entry: x } && x@ == entry
    } else {
        e matches ConfigError::InvalidRegex { pattern: x } && x@ == mapping_spec(entry).unwrap().0
    }
}

/// Compile every mapping: the old side, escaped unless `regex_map`, becomes a
/// byte regex (ASCII-only, case-insensitive when `ignore_case`); the new side
/// becomes the replacement bytes.
pub fn parse_patterns(entries: &Vec<String>, regex_map: bool, ignore_case: bool) -> (r: Result<
    Vec<Pattern>,
    ConfigError,
>)
    ensures
        (forall|i: int|
            0 <= i < entries@.len() ==> entry_compiles(#[trigger] entries@[i]@, regex_map, ignore_case))
            ==> (r matches Ok(v) && patterns_view(v@) == entries@.map_values(
            |e: String| pattern_for(e@, regex_map, ignore_case),
        )),
        !(forall|i: int|
            0 <= i < entries@.len() ==> entry_compiles(#[trigger] entries@[i]@, regex_map, ignore_case))
            ==> (r matches Err(e) && entry_error(
            entries@[first_failing(entries@, regex_map, ignore_case)]@,
            e,
        )),
{
    let mut patterns: Vec<Pattern> = Vec::new();
    let mut i: usize = 0;
    while i < entries.len()
        invariant
            i <= entries@.len(),
            patterns_view(patterns@) == entries@.take(i as int).map_values(
                |e: String| pattern_for(e@, regex_map, ignore_case),
            ),
            forall|j: int| 0 <= j < i ==> entry_compiles(#[trigger] entries@[j]@, regex_map, ignore_case),
        decreases entries@.len() - i,
    {
        let ghost w = i as int;
        let failed: ConfigError;
        match parse_mapping(entries[i].as_str()) {
            Ok((old, new)) => {
                let source = if regex_map {
                    old.clone()
                } else {
                    escape_regex(old.as_str())
                };
                match Matcher::compile(source.as_str(), ignore_case, false) {
                    Some(matcher) => {
                        let replacement = string_bytes(new.as_str());
                        let ghost before = patterns@;
                        patterns.push(Pattern { matcher, replacement });
                        proof {
                            assert(entries@.take(i + 1) =~= entries@.take(i as int).push(entries@[w]));
                            assert(patterns_view(patterns@) =~= patterns_view(before).push(
                                pattern_for(entries@[w]@, regex_map, ignore_case),
                            ));
                            assert(entries@.take(i + 1).map_values(
                                |e: String| pattern_for(e@, regex_map, ignore_case),
                            ) =~= entries@.take(i as int).map_values(
                                |e: String| pattern_for(e@, regex_map, ignore_case),
                            ).push(pattern_for(entries@[w]@, regex_map, ignore_case)));
                        }
                        i = i + 1;
                        continue ;
                    },
                    None => {
                        failed = ConfigError::InvalidRegex { pattern: old };
                    },
                }
            },
            Err(e) => {
                failed = ConfigError::InvalidMapping { entry: e.entry };
            },
        }
        proof {
            assert(!entry_compiles(entries@[w]@, regex_map, ignore_case));
            assert(0 <= w < entries@.len() && !entry_compiles(entries@[w]@, regex_map, ignore_case)
                && forall|j: int|
                0 <= j < w ==> entry_compiles(#[trigger] entries@[j]@, regex_map, ignore_case));
            let c = first_failing(entries@, regex_map, ignore_case);
            if c < w {
                assert(entry_compiles(entries@[c]@, regex_map, ignore_case));
            }
            if c > w {
                assert(entry_compiles(entries@[w]@, regex_map, ignore_case));
            }
        }
        return Err(failed);
    }
    assert(entries@.take(entries@.len() as int) =~= entries@);
    Ok(patterns)
}


/// A configuration in the form the rewrite works with.
pub struct Options {
    pub new_name: Option<Vec<u8>>,
    pub new_email: Option<Vec<u8>>,
    pub old_name: Option<String>,
    pub old_emails: Vec<String>,
    pub patterns: Vec<Pattern>,
    pub exclude: Option<GlobPatterns>,
    pub delete: Option<GlobPatterns>,
    pub preserve_case: bool,
    pub rename_files: bool,
    pub quiet: bool,
}

/// Trimmed, and absent when blank.
pub open spec fn given(v: Option<String>) -> Option<Seq<char>> {
    match v {
        Some(s) => if trim(s@).len() == 0 {
            None
        } else {
            Some(trim(s@))
        },
        None => None,
    }
}

/// The entries that are not blank, untouched.
pub open spec fn nonblank(v: Seq<Seq<char>>) -> Seq<Seq<char>> {
    v.filter(|s: Seq<char>| trim(s).len() != 0)
}

/// The entries trimmed, blank ones dropped.
pub open spec fn trimmed_nonblank(v: Seq<Seq<char>>) -> Seq<Seq<char>> {
    v.map_values(|s: Seq<char>| trim(s)).filter(|s: Seq<char>| s.len() != 0)
}

/// The old emails as compared: trimmed, lower-cased, blank ones dropped.
pub open spec fn normalized_emails(v: Seq<Seq<char>>) -> Seq<Seq<char>> {
    v.map_values(|s: Seq<char>| lowercase(trim(s))).filter(|s: Seq<char>| s.len() != 0)
}


/// Keep the entries whose trimmed form is not blank (`trim_them`: keep the
/// trimmed form; otherwise the entry as given).
fn keep_nonblank(values: &Vec<String>, trim_them: bool) -> (r: Vec<String>)
    ensures
        trim_them ==> views_of(r@) == trimmed_nonblank(views_of(values@)),
        !trim_them ==> views_of(r@) == nonblank(views_of(values@)),
{
    let mut out: Vec<String> = Vec::new();
    let mut i: usize = 0;
    while i < values.len()
        invariant
            i <= values@.len(),
            trim_them ==> views_of(out@) == trimmed_nonblank(views_of(values@.take(i as int))),
            !trim_them ==> views_of(out@) == nonblank(views_of(values@.take(i as int))),
        decreases values@.len() - i,
    {
        let t = trim_str(values[i].as_str());
        proof {
            reveal(Seq::filter);
            let v1 = views_of(values@.take(i + 1));
            assert(v1 =~= views_of(values@.take(i as int)).push(values@[i as int]@));
            assert(v1.drop_last() =~= views_of(values@.take(i as int)));
            let m1 = v1.map_values(|s: Seq<char>| trim(s));
            assert(m1.drop_last() =~= views_of(values@.take(i as int)).map_values(
                |s: Seq<char>| trim(s),
            ));
            assert(m1.last() == t@);
        }
        if t.unicode_len() != 0 {
            let ghost before = out@;
            if trim_them {
                out.push(t);
            } else {
                out.push(values[i].clone());
            }
            assert(views_of(out@) =~= views_of(before).push(views_of(out@).last()));
        }
        i = i + 1;
    }
    assert(values@.take(values@.len() as int) =~= values@);
    out
}

/// The trimmed, lower-cased, non-blank emails.
fn normalize_emails(values: &Vec<String>) -> (r: Vec<String>)
    ensures
        views_of(r@) == normalized_emails(views_of(values@)),
{
    let mut out: Vec<String> = Vec::new();
    let mut i: usize = 0;
    while i < values.len()
        invariant
            i <= values@.len(),
            views_of(out@) == normalized_emails(views_of(values@.take(i as int))),
        decreases values@.len() - i,
    {
        let t = trim_str(values[i].as_str());
        let l = to_lowercase(t.as_str());
        proof {
            reveal(Seq::filter);
            let v1 = views_of(values@.take(i + 1));
            assert(v1 =~= views_of(values@.take(i as int)).push(values@[i as int]@));
            let m1 = v1.map_values(|s: Seq<char>| lowercase(trim(s)));
            assert(m1.drop_last() =~= views_of(values@.take(i as int)).map_values(
                |s: Seq<char>| lowercase(trim(s)),
            ));
            assert(m1.last() == l@);
        }
        if l.unicode_len() != 0 {
            let ghost before = out@;
            out.push(l);
            assert(views_of(out@) =~= views_of(before).push(views_of(out@).last()));
        }
        i = i + 1;
    }
    assert(values@.take(values@.len() as int) =~= values@);
    out
}

/// A trimmed, non-blank value, or `None`.
fn given_value(v: &Option<String>) -> (r: Option<String>)
    ensures
        r matches Some(x) ==> given(*v) == Some(x@),
        r is None ==> given(*v) is None,
{
    match v {
        Some(s) => {
            let t = trim_str(s.as_str());
            if t.unicode_len() == 0 {
                None
            } else {
                Some(t)
            }
        },
        None => None,
    }
}

/// The view of an optional set of bytes taken from an optional string.
pub open spec fn bytes_of(v: Option<Seq<char>>) -> Option<Seq<u8>> {
    match v {
        Some(s) => Some(encode_utf8(s)),
        None => None,
    }
}

pub open spec fn opt_bytes(v: Option<Vec<u8>>) -> Option<Seq<u8>> {
    match v {
        Some(b) => Some(b@),
        None => None,
    }
}

pub open spec fn patterns_compile(config: RewriteConfig) -> bool {
    forall|i: int|
        0 <= i < config.blob_map@.len() ==> entry_compiles(
            #[trigger] config.blob_map@[i]@,
            config.regex_map,
            config.ignore_case,
        )
}

impl Options {
    /// Compile a configuration. Mappings are checked first, then the exclude
    /// globs (only when some were given), then the delete globs.
    pub fn from_config(config: &RewriteConfig) -> (r: Result<Options, ConfigError>)
        ensures
            !patterns_compile(*config) ==> (r matches Err(e) && entry_error(
                config.blob_map@[first_failing(
                    config.blob_map@,
                    config.regex_map,
                    config.ignore_case,
                )]@,
                e,
            )),
            patterns_compile(*config) && config.exclude_patterns@.len() != 0 && !globs_build(
                nonblank(views_of(config.exclude_patterns@)),
            ) ==> (r matches Err(e) && e is InvalidExclude),
            patterns_compile(*config) && (config.exclude_patterns@.len() == 0 || globs_build(
                nonblank(views_of(config.exclude_patterns@)),
            )) && trimmed_nonblank(views_of(config.delete_paths@)).len() != 0 && !globs_build(
                trimmed_nonblank(views_of(config.delete_paths@)),
            ) ==> (r matches Err(e) && e is InvalidDeletePath),
            r matches Ok(o) ==> {
                &&& patterns_compile(*config)
                &&& patterns_view(o.patterns@) == config.blob_map@.map_values(
                    |e: String| pattern_for(e@, config.regex_map, config.ignore_case),
                )
                &&& (config.exclude_patterns@.len() == 0 ==> o.exclude is None)
                &&& (config.exclude_patterns@.len() != 0 ==> (o.exclude matches Some(g)
                    && g.patterns() == nonblank(views_of(config.exclude_patterns@))))
                &&& (trimmed_nonblank(views_of(config.delete_paths@)).len() == 0 ==> o.delete is None)
                &&& (trimmed_nonblank(views_of(config.delete_paths@)).len() != 0 ==> (
                o.delete matches Some(g) && g.patterns() == trimmed_nonblank(
                    views_of(config.delete_paths@),
                )))
                &&& views_of(o.old_emails@) == normalized_emails(views_of(config.old_emails@))
                &&& (given(config.old_name) is None ==> o.old_name is None)
                &&& (given(config.old_name) matches Some(n) ==> (o.old_name matches Some(x)
                    && x@ == lowercase(n)))
                &&& opt_bytes(o.new_name) == bytes_of(given(config.new_name))
                &&& opt_bytes(o.new_email) == bytes_of(given(config.new_email))
                &&& o.preserve_case == config.preserve_case
                &&& o.rename_files == config.rename_files
                &&& o.quiet == config.quiet
            },
            patterns_compile(*config) && (config.exclude_patterns@.len() == 0 || globs_build(
                nonblank(views_of(config.exclude_patterns@)),
            )) && (trimmed_nonblank(views_of(config.delete_paths@)).len() == 0 || globs_build(
                trimmed_nonblank(views_of(config.delete_paths@)),
            )) ==> r is Ok,
    {
        let patterns = match parse_patterns(&config.blob_map, config.regex_map, config.ignore_case) {
            Ok(p) => p,
            Err(e) => {
                return Err(e);
            },
        };
        let exclude = if config.exclude_patterns.len() == 0 {
            None
        } else {
            let kept = keep_nonblank(&config.exclude_patterns, false);
            match GlobPatterns::build(&kept) {
                Some(g) => Some(g),
                None => {
                    return Err(ConfigError::InvalidExclude);
                },
            }
        };
        let delete_list = keep_nonblank(&config.delete_paths, true);
        let delete = if delete_list.len() == 0 {
            None
        } else {
            match GlobPatterns::build(&delete_list) {
                Some(g) => Some(g),
                None => {
                    return Err(ConfigError::InvalidDeletePath);
                },
            }
        };
        let old_emails = normalize_emails(&config.old_emails);
        let old_name = match given_value(&config.old_name) {
            Some(n) => Some(to_lowercase(n.as_str())),
            None => None,
        };
        let new_name = match given_value(&config.new_name) {
            Some(n) => Some(string_bytes(n.as_str())),
            None => None,
        };
        let new_email = match given_value(&config.new_email) {
            Some(n) => Some(string_bytes(n.as_str())),
            None => None,
        };
        Ok(Options {
            new_name,
            new_email,
            old_name,
            old_emails,
            patterns,
            exclude,
            delete,
            preserve_case: config.preserve_case,
            rename_files: config.rename_files,
            quiet: config.quiet,
        })
    }
}

} // verus!
