//! The decisions of the rewrite-verification harness: which repositories it
//! checks, where it clones them, which rewrites it compares, and how it
//! judges the results.
use vstd::prelude::*;
use crate::cli::{lines_of, nonblank_lines, text_lines};
use crate::mapping::{mapping_spec, parse_mapping, regexified, regexify_blob_map, MappingError};
use crate::options::{string_bytes, RewriteConfig};
use crate::text::{owned, to_opt, trim, trim_str, views_of};
use crate::transfer::{split_once, split_once_str};
use vstd::utf8::encode_utf8;

verus! {

/// The options of one compared rewrite.
pub struct VerifyOptions {
    pub new_name: String,
    pub new_email: String,
    pub old_email: String,
    pub old_name: String,
    pub blob_map: Vec<String>,
    pub exclude: Vec<String>,
    pub preserve_case: bool,
    pub ignore_case: bool,
    pub rename_files: bool,
    pub regex_map: bool,
}

/// `1` for a set flag, `0` otherwise.
pub open spec fn flag_text(b: bool) -> Seq<char> {
    if b {
        "1"@
    } else {
        "0"@
    }
}

/// The variables the git-filter-repo callbacks read, given the rendered
/// blob map: names, emails, the mappings as `old<TAB>new` lines, the exclude
/// globs one per line, and each flag as `1` or `0`.
pub open spec fn filter_env_spec(o: VerifyOptions, blob_env: Seq<char>) -> Seq<(Seq<char>, Seq<char>)> {
    seq![
        ("GITKIT_NEW_NAME"@, o.new_name@),
        ("GITKIT_NEW_EMAIL"@, o.new_email@),
        ("GITKIT_OLD_NAME"@, o.old_name@),
        ("GITKIT_OLD_EMAILS"@, crate::text::joined(seq![o.old_email@], seq!['\n'])),
        ("GITKIT_BLOB_MAP"@, blob_env),
        ("GITKIT_EXCLUDE_PATTERNS"@, crate::text::joined(views_of(o.exclude@), seq!['\n'])),
        ("GITKIT_PRESERVE_CASE"@, flag_text(o.preserve_case)),
        ("GITKIT_REGEX_MAP"@, flag_text(o.regex_map)),
        ("GITKIT_IGNORE_CASE"@, flag_text(o.ignore_case)),
        ("GITKIT_RENAME_FILES"@, flag_text(o.rename_files)),
    ]
}

pub open spec fn env_view(v: Seq<(String, String)>) -> Seq<(Seq<char>, Seq<char>)> {
    v.map_values(|p: (String, String)| (p.0@, p.1@))
}

fn flag_value(b: bool) -> (r: String)
    ensures
        r@ == flag_text(b),
{
    if b {
        owned("1")
    } else {
        owned("0")
    }
}

/// The environment a git-filter-repo run gets besides the inherited one;
/// an entry of the blob map that is not a mapping is an error naming it.
pub fn filter_repo_env(o: &VerifyOptions) -> (r: Result<Vec<(String, String)>, MappingError>)
    ensures
        crate::mapping::all_mappings_valid(o.blob_map@) ==> (r matches Ok(v) && env_view(v@)
            == filter_env_spec(
            *o,
            crate::text::joined(crate::mapping::mapping_lines(o.blob_map@, seq!['\t']), seq!['\n']),
        )),
        !crate::mapping::all_mappings_valid(o.blob_map@) ==> (r matches Err(e) && e.entry@
            == o.blob_map@[crate::mapping::first_invalid(o.blob_map@)]@),
{
    let blob_env = match crate::mapping::build_blob_map_env(&o.blob_map) {
        Ok(b) => b,
        Err(e) => {
            return Err(e);
        },
    };
    let old_emails = vec![o.old_email.clone()];
    assert(views_of(old_emails@) =~= seq![o.old_email@]);
    let v = vec![
        (owned("GITKIT_NEW_NAME"), o.new_name.clone()),
        (owned("GITKIT_NEW_EMAIL"), o.new_email.clone()),
        (owned("GITKIT_OLD_NAME"), o.old_name.clone()),
        (owned("GITKIT_OLD_EMAILS"), crate::text::serialize_lines(&old_emails)),
        (owned("GITKIT_BLOB_MAP"), blob_env),
        (owned("GITKIT_EXCLUDE_PATTERNS"), crate::text::serialize_lines(&o.exclude)),
        (owned("GITKIT_PRESERVE_CASE"), flag_value(o.preserve_case)),
        (owned("GITKIT_REGEX_MAP"), flag_value(o.regex_map)),
        (owned("GITKIT_IGNORE_CASE"), flag_value(o.ignore_case)),
        (owned("GITKIT_RENAME_FILES"), flag_value(o.rename_files)),
    ];
    assert(env_view(v@) =~= filter_env_spec(
        *o,
        crate::text::joined(crate::mapping::mapping_lines(o.blob_map@, seq!['\t']), seq!['\n']),
    ));
    Ok(v)
}

/// The configuration GitKat runs with for a compared rewrite: one old email,
/// nothing deleted, no logging.
pub fn run_gitkat(options: &VerifyOptions) -> (r: RewriteConfig)
    ensures
        trim(options.new_name@).len() == 0 ==> r.new_name is None,
        trim(options.new_name@).len() != 0 ==> (r.new_name matches Some(v) && v@ == options.new_name@),
        trim(options.new_email@).len() == 0 ==> r.new_email is None,
        trim(options.new_email@).len() != 0 ==> (r.new_email matches Some(v) && v@
            == options.new_email@),
        trim(options.old_name@).len() == 0 ==> r.old_name is None,
        trim(options.old_name@).len() != 0 ==> (r.old_name matches Some(v) && v@ == options.old_name@),
        views_of(r.old_emails@) == seq![options.old_email@],
        r.blob_map@ == options.blob_map@,
        r.exclude_patterns@ == options.exclude@,
        r.delete_paths@.len() == 0,
        r.regex_map == options.regex_map && r.preserve_case == options.preserve_case,
        r.ignore_case == options.ignore_case && r.rename_files == options.rename_files,
        r.quiet,
{
    let old_emails = vec![options.old_email.clone()];
    assert(views_of(old_emails@) =~= seq![options.old_email@]);
    RewriteConfig {
        new_name: to_opt(options.new_name.as_str()),
        new_email: to_opt(options.new_email.as_str()),
        old_name: to_opt(options.old_name.as_str()),
        old_emails,
        blob_map: options.blob_map.clone(),
        exclude_patterns: options.exclude.clone(),
        delete_paths: Vec::new(),
        regex_map: options.regex_map,
        preserve_case: options.preserve_case,
        ignore_case: options.ignore_case,
        rename_files: options.rename_files,
        quiet: true,
    }
}

/// The arguments of `git clone` for a remote repository.
pub fn clone_repo(url: &str, dest: &str) -> (r: Vec<String>)
    ensures
        views_of(r@) == seq!["clone"@, "--quiet"@, url@, dest@],
{
    let v = vec![owned("clone"), owned("--quiet"), owned(url), owned(dest)];
    assert(views_of(v@) =~= seq!["clone"@, "--quiet"@, url@, dest@]);
    v
}

/// The arguments of `git clone` for a local copy that shares no files.
pub fn clone_local(source: &str, dest: &str) -> (r: Vec<String>)
    ensures
        views_of(r@) == seq!["clone"@, "--quiet"@, "--no-hardlinks"@, source@, dest@],
{
    let v = vec![owned("clone"), owned("--quiet"), owned("--no-hardlinks"), owned(source), owned(dest)];
    assert(views_of(v@) =~= seq!["clone"@, "--quiet"@, "--no-hardlinks"@, source@, dest@]);
    v
}

/// The arguments of `git clone` for a mirror.
pub fn clone_mirror(source: &str, dest: &str) -> (r: Vec<String>)
    ensures
        views_of(r@) == seq!["clone"@, "--quiet"@, "--mirror"@, source@, dest@],
{
    let v = vec![owned("clone"), owned("--quiet"), owned("--mirror"), owned(source), owned(dest)];
    assert(views_of(v@) =~= seq!["clone"@, "--quiet"@, "--mirror"@, source@, dest@]);
    v
}

/// Why a verification run fails.
pub enum VerifyError {
    /// Both explicit repositories and `--ci` were given.
    ReposAndCi,
    /// No repository to verify.
    NoRepos,
    /// The latest commit has no readable author identity.
    NoIdentity,
    /// The BFG comparison was asked for options it cannot express.
    UnsupportedBfgOptions,
    /// The BFG comparison was asked for without a jar.
    MissingBfgJar,
    /// The two rewrites of a repository differ.
    Mismatch { name: String, label: String, gix_hash: Vec<u8>, filter_hash: Vec<u8> },
}

/// The text after the last `/`, or all of it.
pub open spec fn after_last_slash(s: Seq<char>) -> Seq<char>
    decreases s.len(),
{
    if s.len() == 0 {
        s
    } else if s.last() == '/' {
        Seq::empty()
    } else {
        after_last_slash(s.drop_last()).push(s.last())
    }
}

/// The text with every trailing `.git` removed.
pub open spec fn without_git_suffix(s: Seq<char>) -> Seq<char>
    decreases s.len(),
{
    if s.len() >= 4 && s.skip(s.len() - 4) == ".git"@ {
        without_git_suffix(s.take(s.len() - 4))
    } else {
        s
    }
}

/// The name of a repository: the last path segment of its URL without
/// trailing `.git`.
pub fn repo_name_from_url(url: &str) -> (r: String)
    ensures
        r@ == without_git_suffix(after_last_slash(url@)),
{
    let n = url.unicode_len();
    let mut start: usize = n;
    assert(url@.take(n as int) =~= url@);
    assert(url@.subrange(n as int, n as int) =~= Seq::<char>::empty());
    while start > 0 && url.get_char(start - 1) != '/'
        invariant
            n == url@.len(),
            start <= n,
            forall|j: int| start <= j < n ==> url@[j] != '/',
            after_last_slash(url@) == after_last_slash(url@.take(start as int)) + url@.subrange(
                start as int,
                n as int,
            ),
        decreases start,
    {
        proof {
            let t = url@.take(start as int);
            assert(t.drop_last() =~= url@.take(start - 1));
            assert(t.last() == url@[start - 1]);
            assert(url@.subrange(start - 1, n as int) =~= seq![url@[start - 1]] + url@.subrange(
                start as int,
                n as int,
            ));
        }
        start = start - 1;
    }
    proof {
        if start > 0 {
            let t = url@.take(start as int);
            assert(t.last() == '/');
        } else {
            assert(url@.take(0) =~= Seq::<char>::empty());
        }
        assert(url@.take(n as int) =~= url@);
    }
    let mut end: usize = n;
    proof {
        reveal_strlit(".git");
    }
    while end - start >= 4 && url.get_char(end - 4) == '.' && url.get_char(end - 3) == 'g'
        && url.get_char(end - 2) == 'i' && url.get_char(end - 1) == 't'
        invariant
            n == url@.len(),
            start <= end <= n,
            without_git_suffix(after_last_slash(url@)) == without_git_suffix(url@.subrange(
                start as int,
                end as int,
            )),
            after_last_slash(url@) == url@.subrange(start as int, n as int),
        decreases end,
    {
        proof {
            reveal_strlit(".git");
            let s = url@.subrange(start as int, end as int);
            assert(s.skip(s.len() - 4) =~= ".git"@);
            assert(s.take(s.len() - 4) =~= url@.subrange(start as int, end - 4));
        }
        end = end - 4;
    }
    proof {
        reveal_strlit(".git");
        let s = url@.subrange(start as int, end as int);
        if s.len() >= 4 {
            assert(s.skip(s.len() - 4)[0] == url@[end - 4]);
            assert(s.skip(s.len() - 4)[1] == url@[end - 3]);
            assert(s.skip(s.len() - 4)[2] == url@[end - 2]);
            assert(s.skip(s.len() - 4)[3] == url@[end - 1]);
        }
    }
    crate::text::chars_range(url, start, end)
}

/// The name and email of the latest commit's author, taken from `git log
/// -n 1 --format=%an%x00%ae`, with the name again as the old name.
pub fn pick_identity(output: &str) -> (r: Result<(String, String, String), VerifyError>)
    ensures
        split_once(trim(output@), '\0') is None ==> (r matches Err(e) && e is NoIdentity),
        split_once(trim(output@), '\0') matches Some(p) ==> (r matches Ok(t) && t.0@ == p.0 && t.1@
            == p.1 && t.2@ == p.0),
{
    let line = trim_str(output);
    match split_once_str(line.as_str(), '\0') {
        Some((name, email)) => {
            let again = name.clone();
            Ok((name, email, again))
        },
        None => Err(VerifyError::NoIdentity),
    }
}

/// The directories the two rewrites of a filter-repo comparison run in.
pub fn verify_with_filter_repo(name: &str, label: &str) -> (r: (String, String))
    ensures
        r.0@ == name@ + "-"@ + label@ + "-gix"@,
        r.1@ == name@ + "-"@ + label@ + "-filter"@,
{
    let mut gix = owned(name);
    gix.append("-");
    gix.append(label);
    let mut filter = gix.clone();
    gix.append("-gix");
    filter.append("-filter");
    (gix, filter)
}

/// The verdict of a filter-repo comparison: the two export hashes agree.
pub fn compare_exports(name: &str, label: &str, gix_hash: &[u8], filter_hash: &[u8]) -> (r: Result<
    (),
    VerifyError,
>)
    ensures
        r is Ok <==> gix_hash@ == filter_hash@,
        r matches Err(e) ==> (e matches VerifyError::Mismatch { name: n, label: l, gix_hash: g, filter_hash: f }
            && n@ == name@ && l@ == label@ && g@ == gix_hash@ && f@ == filter_hash@),
{
    if crate::bytes::bytes_eq(gix_hash, filter_hash) {
        Ok(())
    } else {
        Err(
            VerifyError::Mismatch {
                name: owned(name),
                label: owned(label),
                gix_hash: crate::casing::slice_range(gix_hash, 0, gix_hash.len()),
                filter_hash: crate::casing::slice_range(filter_hash, 0, filter_hash.len()),
            },
        )
    }
}

/// What a BFG comparison runs: the two mirror directories and the
/// blob-only options GitKat runs with.
pub struct BfgPlan {
    pub gix_dir: String,
    pub bfg_dir: String,
    pub blob_only: VerifyOptions,
}

/// Plan a BFG comparison: nothing to compare without blob mappings; only
/// literal, case-sensitive, content-only mappings can be compared.
pub fn verify_with_bfg(name: &str, options: &VerifyOptions) -> (r: Result<Option<BfgPlan>, VerifyError>)
    ensures
        options.blob_map@.len() == 0 ==> r matches Ok(None),
        options.blob_map@.len() != 0 && (options.regex_map || options.ignore_case
            || options.preserve_case || options.rename_files) ==> (r matches Err(e)
            && e is UnsupportedBfgOptions),
        options.blob_map@.len() != 0 && !(options.regex_map || options.ignore_case
            || options.preserve_case || options.rename_files) ==> (r matches Ok(Some(p)) && {
            &&& p.gix_dir@ == name@ + "-bfg-gix"@
            &&& p.bfg_dir@ == name@ + "-bfg"@
            &&& p.blob_only.new_name@.len() == 0 && p.blob_only.new_email@.len() == 0
            &&& p.blob_only.old_email@.len() == 0 && p.blob_only.old_name@.len() == 0
            &&& p.blob_only.blob_map@ == options.blob_map@
            &&& p.blob_only.exclude@.len() == 0
            &&& !p.blob_only.ignore_case && !p.blob_only.preserve_case
            &&& !p.blob_only.rename_files && !p.blob_only.regex_map
        }),
{
    if options.blob_map.len() == 0 {
        return Ok(None);
    }
    if options.regex_map || options.ignore_case || options.preserve_case || options.rename_files {
        return Err(VerifyError::UnsupportedBfgOptions);
    }
    let mut gix_dir = owned(name);
    gix_dir.append("-bfg-gix");
    let mut bfg_dir = owned(name);
    bfg_dir.append("-bfg");
    let blob_only = VerifyOptions {
        new_name: String::new(),
        new_email: String::new(),
        old_email: String::new(),
        old_name: String::new(),
        blob_map: options.blob_map.clone(),
        exclude: Vec::new(),
        ignore_case: false,
        preserve_case: false,
        rename_files: false,
        regex_map: false,
    };
    Ok(Some(BfgPlan { gix_dir, bfg_dir, blob_only }))
}

/// One comparison of a verification run.
pub enum VerifyStep {
    /// Compare GitKat with git-filter-repo under `label`.
    FilterRepo { label: String, options: VerifyOptions },
    /// Compare GitKat with the BFG using the jar given.
    Bfg { options: VerifyOptions },
    /// The BFG comparison was asked for without a jar: stop here.
    Fail { error: VerifyError },
}

/// The comparisons run on a repository, in order: the literal rewrite, the
/// regex rewrite when asked for, then the BFG comparison when asked for (or
/// a failure when no jar was given). Every rewrite renames the identity to
/// `GitKat Rewrite <rewrite@example.test>`.
pub fn verify_repo(
    old_email: &str,
    old_name: &str,
    blob_map: &Vec<String>,
    with_regex: bool,
    with_bfg: bool,
    has_bfg_jar: bool,
) -> (r: Vec<VerifyStep>)
    ensures
        r@.len() == 1 + (if with_regex { 1int } else { 0 }) + (if with_bfg { 1int } else { 0 }),
        r@[0] matches VerifyStep::FilterRepo { label, options } && label@ == "literal"@
            && options.new_name@ == "GitKat Rewrite"@ && options.new_email@ == "rewrite@example.test"@
            && options.old_email@ == old_email@ && options.old_name@ == old_name@
            && options.blob_map@ == blob_map@ && options.exclude@.len() == 0 && !options.ignore_case
            && !options.preserve_case && !options.rename_files && !options.regex_map,
        with_regex ==> (r@[1] matches VerifyStep::FilterRepo { label, options } && label@ == "regex"@
            && options.new_name@ == "GitKat Rewrite"@ && options.new_email@ == "rewrite@example.test"@
            && options.old_email@ == old_email@ && options.old_name@ == old_name@
            && views_of(options.blob_map@) == regexified(blob_map@) && options.exclude@.len() == 0
            && !options.ignore_case && !options.preserve_case && !options.rename_files
            && options.regex_map),
        with_bfg && has_bfg_jar ==> (r@.last() matches VerifyStep::Bfg { options }
            && options.new_name@ == "GitKat Rewrite"@ && options.new_email@ == "rewrite@example.test"@
            && options.old_email@ == old_email@ && options.old_name@ == old_name@
            && options.blob_map@ == blob_map@ && options.exclude@.len() == 0 && !options.ignore_case
            && !options.preserve_case && !options.rename_files && !options.regex_map),
        with_bfg && !has_bfg_jar ==> (r@.last() matches VerifyStep::Fail { error }
            && error is MissingBfgJar),
{
    let mut steps: Vec<VerifyStep> = Vec::new();
    let base = VerifyOptions {
        new_name: owned("GitKat Rewrite"),
        new_email: owned("rewrite@example.test"),
        old_email: owned(old_email),
        old_name: owned(old_name),
        blob_map: blob_map.clone(),
        exclude: Vec::new(),
        ignore_case: false,
        preserve_case: false,
        rename_files: false,
        regex_map: false,
    };
    steps.push(VerifyStep::FilterRepo { label: owned("literal"), options: base });
    if with_regex {
        let regex_options = VerifyOptions {
            new_name: owned("GitKat Rewrite"),
            new_email: owned("rewrite@example.test"),
            old_email: owned(old_email),
            old_name: owned(old_name),
            blob_map: regexify_blob_map(blob_map),
            exclude: Vec::new(),
            ignore_case: false,
            preserve_case: false,
            rename_files: false,
            regex_map: true,
        };
        steps.push(VerifyStep::FilterRepo { label: owned("regex"), options: regex_options });
    }
    if with_bfg {
        if has_bfg_jar {
            let bfg_options = VerifyOptions {
                new_name: owned("GitKat Rewrite"),
                new_email: owned("rewrite@example.test"),
                old_email: owned(old_email),
                old_name: owned(old_name),
                blob_map: blob_map.clone(),
                exclude: Vec::new(),
                ignore_case: false,
                preserve_case: false,
                rename_files: false,
                regex_map: false,
            };
            steps.push(VerifyStep::Bfg { options: bfg_options });
        } else {
            steps.push(VerifyStep::Fail { error: VerifyError::MissingBfgJar });
        }
    }
    steps
}


/// The repositories a full run verifies.
pub open spec fn default_repos() -> Seq<Seq<char>> {
    seq![
        "https://github.com/octocat/Hello-World.git"@,
        "https://github.com/githubtraining/hellogitworld.git"@,
        "https://github.com/github/gitignore.git"@,
        "https://github.com/psf/requests.git"@,
        "https://github.com/pallets/flask.git"@,
        "https://github.com/BurntSushi/ripgrep.git"@,
        "https://github.com/tpope/vim-fugitive.git"@,
        "https://github.com/serde-rs/serde.git"@,
    ]
}

/// The repositories a CI run verifies.
pub open spec fn ci_repos() -> Seq<Seq<char>> {
    seq![
        "https://github.com/octocat/Hello-World.git"@,
        "https://github.com/githubtraining/hellogitworld.git"@,
        "https://github.com/github/gitignore.git"@,
    ]
}

/// The repositories to verify: the ones given, or the CI list with `--ci`,
/// or the full list; giving both repositories and `--ci` is an error.
pub fn select_repos(repos: &Vec<String>, ci: bool) -> (r: Result<Vec<String>, VerifyError>)
    ensures
        repos@.len() != 0 && ci ==> (r matches Err(e) && e is ReposAndCi),
        repos@.len() != 0 && !ci ==> (r matches Ok(v) && v@ == repos@),
        repos@.len() == 0 && ci ==> (r matches Ok(v) && views_of(v@) == ci_repos()),
        repos@.len() == 0 && !ci ==> (r matches Ok(v) && views_of(v@) == default_repos()),
{
    if repos.len() != 0 && ci {
        return Err(VerifyError::ReposAndCi);
    }
    let chosen = if repos.len() != 0 {
        repos.clone()
    } else if ci {
        let v = vec![
            owned("https://github.com/octocat/Hello-World.git"),
            owned("https://github.com/githubtraining/hellogitworld.git"),
            owned("https://github.com/github/gitignore.git"),
        ];
        assert(views_of(v@) =~= ci_repos());
        v
    } else {
        let v = vec![
            owned("https://github.com/octocat/Hello-World.git"),
            owned("https://github.com/githubtraining/hellogitworld.git"),
            owned("https://github.com/github/gitignore.git"),
            owned("https://github.com/psf/requests.git"),
            owned("https://github.com/pallets/flask.git"),
            owned("https://github.com/BurntSushi/ripgrep.git"),
            owned("https://github.com/tpope/vim-fugitive.git"),
            owned("https://github.com/serde-rs/serde.git"),
        ];
        assert(views_of(v@) =~= default_repos());
        v
    };
    if chosen.len() == 0 {
        return Err(VerifyError::NoRepos);
    }
    Ok(chosen)
}

/// The ids of the objects with a path in `git rev-list --all --objects`
/// output: lines of an id, a space and a non-blank path.
pub open spec fn listed_blob_ids(output: Seq<char>) -> Seq<Seq<char>> {
    lines_of(output).filter(
        |l: Seq<char>| split_once(l, ' ') is Some && trim(split_once(l, ' ').unwrap().1).len() != 0,
    ).map_values(|l: Seq<char>| split_once(l, ' ').unwrap().0)
}

/// The ids of the objects listed with a path.
pub fn object_listing_ids(output: &str) -> (r: Vec<String>)
    ensures
        views_of(r@) == listed_blob_ids(output@),
{
    let lines = text_lines(output);
    let ghost lv = lines_of(output@);
    let ghost keep = |l: Seq<char>| split_once(l, ' ') is Some && trim(split_once(l, ' ').unwrap().1).len() != 0;
    let ghost idf = |l: Seq<char>| split_once(l, ' ').unwrap().0;
    let mut out: Vec<String> = Vec::new();
    let mut i: usize = 0;
    while i < lines.len()
        invariant
            views_of(lines@) == lv,
            lv == lines_of(output@),
            keep == (|l: Seq<char>| split_once(l, ' ') is Some && trim(split_once(l, ' ').unwrap().1).len() != 0),
            idf == (|l: Seq<char>| split_once(l, ' ').unwrap().0),
            i <= lines@.len(),
            views_of(out@) == lv.take(i as int).filter(keep).map_values(idf),
        decreases lines@.len() - i,
    {
        proof {
            reveal(Seq::filter);
            assert(lv.take(i + 1).drop_last() =~= lv.take(i as int));
            assert(lv.take(i + 1).last() == lines@[i as int]@);
        }
        match split_once_str(lines[i].as_str(), ' ') {
            Some((id, path)) => {
                if trim_str(path.as_str()).unicode_len() != 0 {
                    let ghost before = out@;
                    out.push(id);
                    proof {
                        let f0 = lv.take(i as int).filter(keep);
                        assert(lv.take(i + 1).filter(keep) =~= f0.push(lv[i as int]));
                        assert(views_of(out@) =~= f0.map_values(idf).push(idf(lv[i as int])));
                        assert(f0.push(lv[i as int]).map_values(idf) =~= f0.map_values(idf).push(
                            idf(lv[i as int]),
                        ));
                    }
                } else {
                    assert(lv.take(i + 1).filter(keep) =~= lv.take(i as int).filter(keep));
                }
            },
            None => {
                assert(lv.take(i + 1).filter(keep) =~= lv.take(i as int).filter(keep));
            },
        }
        i = i + 1;
    }
    assert(lv.take(lines@.len() as int) =~= lv);
    out
}


/// `pat` occurs somewhere in `data`.
pub open spec fn bytes_occur(data: Seq<u8>, pat: Seq<u8>) -> bool {
    crate::bytes::find(data, pat) != -1
}

/// What a scan has seen of each mapping: its old and new text, whether the
/// old text was found, whether the new text was found (an empty new text
/// counts as found).
pub struct BlobScan {
    rules: Vec<(Vec<u8>, Vec<u8>)>,
    found_old: Vec<bool>,
    found_new: Vec<bool>,
}

impl BlobScan {
    pub closed spec fn state(&self) -> Seq<(Seq<u8>, Seq<u8>, bool, bool)> {
        Seq::new(
            self.rules@.len(),
            |i: int| (self.rules@[i].0@, self.rules@[i].1@, self.found_old@[i], self.found_new@[i]),
        )
    }

    pub closed spec fn well_formed(&self) -> bool {
        self.found_old@.len() == self.rules@.len() && self.found_new@.len() == self.rules@.len()
    }

    /// Start a scan for the mappings; an entry that is not a mapping is an
    /// error naming it.
    pub fn new(blob_map: &Vec<String>) -> (r: Result<BlobScan, MappingError>)
        ensures
            !crate::mapping::all_mappings_valid(blob_map@) ==> (r matches Err(e) && e.entry@
                == blob_map@[crate::mapping::first_invalid(blob_map@)]@),
            crate::mapping::all_mappings_valid(blob_map@) ==> (r matches Ok(s) && s.well_formed()
                && s.state() == blob_map@.map_values(
                |e: String|
                    {
                        let p = mapping_spec(e@).unwrap();
                        (encode_utf8(p.0), encode_utf8(p.1), false, encode_utf8(p.1).len() == 0)
                    },
            )),
    {
        let checked = match crate::mapping::parse_blob_map(blob_map) {
            Ok(c) => c,
            Err(e) => {
                return Err(e);
            },
        };
        let mut rules: Vec<(Vec<u8>, Vec<u8>)> = Vec::new();
        let mut found_old: Vec<bool> = Vec::new();
        let mut found_new: Vec<bool> = Vec::new();
        let mut i: usize = 0;
        while i < checked.len()
            invariant
                checked@ == blob_map@,
                crate::mapping::all_mappings_valid(blob_map@),
                i <= blob_map@.len(),
                rules@.len() == i && found_old@.len() == i && found_new@.len() == i,
                forall|j: int|
                    0 <= j < i ==> {
                        let p = mapping_spec(#[trigger] blob_map@[j]@).unwrap();
                        &&& rules@[j].0@ == encode_utf8(p.0)
                        &&& rules@[j].1@ == encode_utf8(p.1)
                        &&& !found_old@[j]
                        &&& found_new@[j] == (encode_utf8(p.1).len() == 0)
                    },
            decreases blob_map@.len() - i,
        {
            assert(mapping_spec(blob_map@[i as int]@) is Some);
            let (old, new) = match parse_mapping(checked[i].as_str()) {
                Ok(p) => p,
                Err(_) => {
                    return Err(MappingError { entry: checked[i].clone() });
                },
            };
            let old_bytes = string_bytes(old.as_str());
            let new_bytes = string_bytes(new.as_str());
            let empty_new = new_bytes.len() == 0;
            rules.push((old_bytes, new_bytes));
            found_old.push(false);
            found_new.push(empty_new);
            i = i + 1;
        }
        let s = BlobScan { rules, found_old, found_new };
        assert(s.state() =~= blob_map@.map_values(
            |e: String|
                {
                    let p = mapping_spec(e@).unwrap();
                    (encode_utf8(p.0), encode_utf8(p.1), false, encode_utf8(p.1).len() == 0)
                },
        ));
        Ok(s)
    }

    /// Note which old and new texts occur in one blob's data.
    pub fn observe(&mut self, data: &[u8])
        requires
            old(self).well_formed(),
            forall|i: int| 0 <= i < old(self).state().len() ==> (#[trigger] old(self).state()[i]).0.len() > 0,
        ensures
            final(self).well_formed(),
            final(self).state().len() == old(self).state().len(),
            forall|i: int|
                0 <= i < old(self).state().len() ==> {
                    let before = #[trigger] old(self).state()[i];
                    let after = final(self).state()[i];
                    &&& after.0 == before.0 && after.1 == before.1
                    &&& after.2 == (before.2 || bytes_occur(data@, before.0))
                    &&& after.3 == (before.3 || (before.1.len() > 0 && bytes_occur(data@, before.1)))
                },
    {
        let ghost start = self.state();
        let mut i: usize = 0;
        while i < self.rules.len()
            invariant
                self.well_formed(),
                self.state().len() == start.len(),
                i <= start.len(),
                forall|j: int|
                    0 <= j < start.len() ==> {
                        let before = #[trigger] start[j];
                        let now = self.state()[j];
                        &&& now.0 == before.0 && now.1 == before.1
                        &&& j >= i ==> now.2 == before.2 && now.3 == before.3
                        &&& j < i ==> now.2 == (before.2 || bytes_occur(data@, before.0))
                        &&& j < i ==> now.3 == (before.3 || (before.1.len() > 0 && bytes_occur(
                            data@,
                            before.1,
                        )))
                    },
            decreases start.len() - i,
        {
            let seen_old = self.found_old[i] || crate::bytes::find_bytes(data, self.rules[i].0.as_slice()).is_some();
            let seen_new = self.found_new[i] || (self.rules[i].1.len() > 0 && crate::bytes::find_bytes(
                data,
                self.rules[i].1.as_slice(),
            ).is_some());
            self.found_old.set(i, seen_old);
            self.found_new.set(i, seen_new);
            i = i + 1;
        }
    }

    /// Whether the scan has any mapping to look for.
    pub fn has_rules(&self) -> (r: bool)
        ensures
            r == (self.state().len() > 0),
    {
        self.rules.len() > 0
    }

    /// The verdict of the scan: the first mapping whose old text was seen,
    /// or whose new text was not, fails it.
    pub fn verdict(&self) -> (r: Result<(), ScanFailure>)
        requires
            self.well_formed(),
        ensures
            r == scan_verdict(self.state()),
    {
        let ghost st = self.state();
        assert(st.skip(0) =~= st);
        let mut i: usize = 0;
        while i < self.rules.len()
            invariant
                self.well_formed(),
                st == self.state(),
                i <= st.len(),
                scan_verdict(st.skip(i as int)) == scan_verdict(st),
            decreases st.len() - i,
        {
            assert(st.skip(i as int)[0] == st[i as int]);
            assert(st.skip(i as int).skip(1) =~= st.skip(i + 1));
            if self.found_old[i] {
                return Err(ScanFailure::OldStillPresent);
            }
            if !self.found_new[i] {
                return Err(ScanFailure::NewMissing);
            }
            i = i + 1;
        }
        assert(st.skip(st.len() as int) =~= Seq::<(Seq<u8>, Seq<u8>, bool, bool)>::empty());
        Ok(())
    }
}

/// Why a rewrite fails the blob scan.
#[derive(PartialEq, Eq, Structural, Clone, Copy, Debug)]
pub enum ScanFailure {
    /// An old text is still in some blob.
    OldStillPresent,
    /// A new text is in no blob.
    NewMissing,
}

/// The verdict of a scan, mapping by mapping.
pub open spec fn scan_verdict(v: Seq<(Seq<u8>, Seq<u8>, bool, bool)>) -> Result<(), ScanFailure>
    decreases v.len(),
{
    if v.len() == 0 {
        Ok(())
    } else if v[0].2 {
        Err(ScanFailure::OldStillPresent)
    } else if !v[0].3 {
        Err(ScanFailure::NewMissing)
    } else {
        scan_verdict(v.skip(1))
    }
}

/// The outcome of the blob check of a rewrite, given the ids of the
/// objects listed with a path and the scan of their blobs: passed at once
/// when nothing is listed or there is no mapping, otherwise the verdict of
/// the scan.
pub fn blob_check(listed: &Vec<String>, scan: &BlobScan) -> (r: Result<(), ScanFailure>)
    requires
        scan.well_formed(),
    ensures
        listed@.len() == 0 ==> r is Ok,
        scan.state().len() == 0 ==> r is Ok,
        listed@.len() != 0 ==> r == scan_verdict(scan.state()),
{
    if listed.len() == 0 {
        return Ok(());
    }
    scan.verdict()
}

/// Whether the kind named in a `git cat-file --batch` header is `blob`, the
/// only objects the blob check reads.
pub fn is_blob_kind(kind: &str) -> (r: bool)
    ensures
        r == (kind@ == "blob"@),
{
    owned(kind) == owned("blob")
}

/// The kind and size in a `git cat-file --batch` header: its second and
/// third words, the size 0 when absent or not a number.
pub open spec fn batch_header_spec(header: Seq<u8>) -> (Seq<char>, nat) {
    let w = crate::context::words(crate::text::lossy_decoded(header));
    (
        if w.len() > 1 {
            w[1]
        } else {
            Seq::empty()
        },
        if w.len() > 2 {
            match crate::transfer::parse_usize_spec(w[2]) {
                Some(n) => n,
                None => 0,
            }
        } else {
            0
        },
    )
}

/// Read the kind and size of a `git cat-file --batch` header.
pub fn batch_header(header: &[u8]) -> (r: (String, usize))
    ensures
        (r.0@, r.1 as nat) == batch_header_spec(header@),
{
    let text = crate::text::lossy_text(header);
    let words = crate::context::split_words(text.as_str());
    let kind = if words.len() > 1 {
        words[1].clone()
    } else {
        String::new()
    };
    let size = if words.len() > 2 {
        match crate::transfer::parse_usize(words[2].as_str()) {
            Some(n) => n,
            None => 0,
        }
    } else {
        0
    };
    (kind, size)
}

/// The SHA-256 digest of `data`.
pub uninterp spec fn sha256_digest(data: Seq<u8>) -> Seq<u8>;

/// Calls `sha2::Sha256::digest`. Claimed: the result is the named digest of
/// `data`, 32 bytes long.
#[verifier::external_body]
fn sha256(data: &[u8]) -> (r: Vec<u8>)
    ensures
        r@ == sha256_digest(data@),
        r@.len() == 32,
{
    <sha2::Sha256 as sha2::Digest>::digest(data).to_vec()
}

/// The lower-case hex SHA-256 of a `git fast-export --all` stream, by which
/// two rewrites are compared.
pub fn fast_export_hash(stream: &[u8]) -> (r: Vec<u8>)
    ensures
        r@ == crate::objects::hex_encode(sha256_digest(stream@)),
        r@.len() == 64,
{
    let digest = sha256(stream);
    crate::objects::to_hex(digest.as_slice())
}

/// The pattern of a token worth redacting in a README's first line.
pub open spec fn token_pattern() -> Seq<char> {
    "[A-Za-z][A-Za-z0-9_-]{5,}"@
}

pub open spec fn is_token_matcher(m: crate::matcher::Matcher) -> bool {
    m.source() == token_pattern() && !m.ignore_case() && m.unicode()
}

/// Compile the token pattern.
pub fn token_matcher() -> (r: Option<crate::matcher::Matcher>)
    ensures
        r is Some <==> crate::matcher::regex_accepts(token_pattern(), false, true),
        r matches Some(m) ==> is_token_matcher(m),
{
    crate::matcher::Matcher::compile("[A-Za-z][A-Za-z0-9_-]{5,}", false, true)
}

/// The first line of a text, or nothing.
pub open spec fn first_line(content: Seq<char>) -> Seq<char> {
    if lines_of(content).len() > 0 {
        lines_of(content)[0]
    } else {
        Seq::empty()
    }
}

/// The mapping a README suggests: its first token of six or more word
/// characters in the first line, mapped to itself with `_REDACTED` added.
pub open spec fn readme_mapping(content: Seq<char>) -> Option<Seq<char>> {
    let line = encode_utf8(first_line(content));
    let spans = crate::matcher::regex_matches(token_pattern(), false, true, line);
    if spans.len() == 0 {
        None
    } else {
        let token = crate::text::lossy_decoded(line.subrange(spans[0].0, spans[0].1));
        Some(token + ":"@ + token + "_REDACTED"@)
    }
}

/// The blob mapping suggested by a README's content, if its first line has
/// a token.
pub fn readme_blob_map(content: &str, m: &crate::matcher::Matcher) -> (r: Option<Vec<String>>)
    requires
        is_token_matcher(*m),
    ensures
        readme_mapping(content@) is None ==> r is None,
        readme_mapping(content@) matches Some(x) ==> (r matches Some(v) && views_of(v@) == seq![x]),
{
    let lines = text_lines(content);
    let first = if lines.len() > 0 {
        lines[0].clone()
    } else {
        String::new()
    };
    assert(first@ == first_line(content@));
    let bytes = string_bytes(first.as_str());
    let spans = m.find_all(bytes.as_slice());
    if spans.len() == 0 {
        return None;
    }
    let (start, end) = spans[0];
    assert(crate::matcher::spans_view(spans@)[0] == (start as int, end as int));
    let token = crate::text::lossy_text(crate::casing::slice_range(bytes.as_slice(), start, end).as_slice());
    let mut entry = token.clone();
    entry.append(":");
    entry.append(token.as_str());
    entry.append("_REDACTED");
    let v = vec![entry];
    assert(views_of(v@) =~= seq![v@[0]@]);
    Some(v)
}

} // verus!
