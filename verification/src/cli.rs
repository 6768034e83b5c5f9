//! The decisions of the command-line tool: reading git's output, checking a
//! rewrite request, and planning how remotes are captured and restored.
use vstd::prelude::*;
use crate::mapping::{all_mappings_valid, first_invalid, parse_blob_map, MappingError};
use crate::options::{lowercase, to_lowercase, RewriteConfig};
use crate::text::{
    all_comma_items, chars_range, owned, split_chars, split_comma_args, split_on, to_opt, trim,
    trim_str, views_of,
};

verus! {

/// A line without the carriage return that ended it.
pub open spec fn strip_cr(line: Seq<char>) -> Seq<char> {
    if line.len() > 0 && line.last() == '\r' {
        line.drop_last()
    } else {
        line
    }
}

/// The lines of `s`, as `str::lines` yields them: split at newlines, a
/// carriage return before a newline dropped, and no empty last line after
/// a final newline.
pub open spec fn lines_of(s: Seq<char>) -> Seq<Seq<char>> {
    let p = split_on(s, '\n');
    p.drop_last().map_values(|l: Seq<char>| strip_cr(l)) + if p.last().len() > 0 {
        seq![p.last()]
    } else {
        Seq::empty()
    }
}

/// The lines of `s`.
pub fn text_lines(s: &str) -> (r: Vec<String>)
    ensures
        views_of(r@) == lines_of(s@),
{
    let pieces = split_chars(s, '\n');
    proof {
        crate::text::lemma_split_on_nonempty(s@, '\n');
    }
    let ghost p = split_on(s@, '\n');
    assert(views_of(pieces@) == p);
    let mut out: Vec<String> = Vec::new();
    let last = pieces.len() - 1;
    let mut i: usize = 0;
    while i < last
        invariant
            views_of(pieces@) == p,
            last == p.len() - 1,
            i <= last,
            views_of(out@) == p.take(i as int).map_values(|l: Seq<char>| strip_cr(l)),
        decreases last - i,
    {
        let piece = pieces[i].as_str();
        let n = piece.unicode_len();
        let line = if n > 0 && piece.get_char(n - 1) == '\r' {
            chars_range(piece, 0, n - 1)
        } else {
            owned(piece)
        };
        proof {
            assert(piece@ == p[i as int]);
            if n > 0 && piece@[n - 1] == '\r' {
                assert(piece@.subrange(0, n - 1) =~= piece@.drop_last());
            }
        }
        let ghost before = out@;
        out.push(line);
        assert(views_of(out@) =~= views_of(before).push(strip_cr(p[i as int])));
        assert(p.take(i + 1).map_values(|l: Seq<char>| strip_cr(l)) =~= p.take(i as int).map_values(
            |l: Seq<char>| strip_cr(l),
        ).push(strip_cr(p[i as int])));
        i = i + 1;
    }
    assert(p.take(last as int) =~= p.drop_last());
    if pieces[last].unicode_len() > 0 {
        let ghost before = out@;
        out.push(pieces[last].clone());
        assert(views_of(out@) =~= views_of(before).push(p.last()));
    } else {
        assert(views_of(out@) =~= views_of(out@) + Seq::<Seq<char>>::empty());
    }
    out
}

/// `needle` occurs in `hay`.
pub open spec fn contains_text(hay: Seq<char>, needle: Seq<char>) -> bool {
    exists|i: int| 0 <= i && i + needle.len() <= hay.len() && #[trigger] hay.subrange(i, i + needle.len()) == needle
}

/// Whether `needle` occurs in `hay`, as `str::contains` finds it.
pub fn has_text(hay: &str, needle: &str) -> (r: bool)
    ensures
        r == contains_text(hay@, needle@),
{
    let n = hay.unicode_len();
    let m = needle.unicode_len();
    if m > n {
        return false;
    }
    let mut i: usize = 0;
    while i <= n - m
        invariant
            n == hay@.len(),
            m == needle@.len(),
            m <= n,
            i <= n - m + 1,
            forall|j: int| 0 <= j < i ==> #[trigger] hay@.subrange(j, j + m) != needle@,
        decreases n - m + 1 - i,
    {
        let mut k: usize = 0;
        while k < m && hay.get_char(i + k) == needle.get_char(k)
            invariant
                n == hay@.len(),
                m == needle@.len(),
                i + m <= n,
                k <= m,
                forall|t: int| 0 <= t < k ==> hay@[i + t] == needle@[t],
            decreases m - k,
        {
            k = k + 1;
        }
        if k == m {
            assert(hay@.subrange(i as int, i + m) =~= needle@);
            return true;
        }
        assert(hay@.subrange(i as int, i + m)[k as int] != needle@[k as int]);
        i = i + 1;
    }
    false
}

/// Lines whose lower-case form contains the lower-case needle.
pub open spec fn matching_lines(lines: Seq<Seq<char>>, needle: Seq<char>) -> Seq<Seq<char>> {
    lines.filter(|l: Seq<char>| contains_text(lowercase(l), lowercase(needle)))
}

/// How many lines of `git log --format=%ae` output mention `email`,
/// ignoring case; none for an empty email.
pub fn count_matching_emails(output: &str, email: &str) -> (r: usize)
    ensures
        r == (if email@.len() == 0 {
            0
        } else {
            matching_lines(lines_of(output@), email@).len()
        }),
{
    if email.unicode_len() == 0 {
        return 0;
    }
    let needle = to_lowercase(email);
    let lines = text_lines(output);
    let ghost lv = views_of(lines@);
    let mut count: usize = 0;
    let mut i: usize = 0;
    while i < lines.len()
        invariant
            lv == views_of(lines@),
            needle@ == lowercase(email@),
            i <= lines@.len(),
            count <= i,
            count == matching_lines(lv.take(i as int), email@).len(),
        decreases lines@.len() - i,
    {
        proof {
            reveal(Seq::filter);
            assert(lv.take(i + 1).drop_last() =~= lv.take(i as int));
            assert(lv.take(i + 1).last() == lines@[i as int]@);
        }
        let lower = to_lowercase(lines[i].as_str());
        if has_text(lower.as_str(), needle.as_str()) {
            count = count + 1;
        }
        i = i + 1;
    }
    assert(lv.take(lines@.len() as int) =~= lv);
    count
}

/// Whether the author and committer listing mentions `name`, ignoring case.
pub fn mentions_identity(output: &str, name: &str) -> (r: bool)
    ensures
        r == contains_text(lowercase(output@), lowercase(name@)),
{
    let hay = to_lowercase(output);
    let needle = to_lowercase(name);
    has_text(hay.as_str(), needle.as_str())
}

/// The lines of `s`, trimmed, blank ones dropped.
pub open spec fn nonblank_lines(s: Seq<char>) -> Seq<Seq<char>> {
    lines_of(s).map_values(|l: Seq<char>| trim(l)).filter(|l: Seq<char>| l.len() != 0)
}

/// The trimmed, non-blank lines of `s`.
pub fn trimmed_lines(s: &str) -> (r: Vec<String>)
    ensures
        views_of(r@) == nonblank_lines(s@),
{
    let lines = text_lines(s);
    let ghost tv = lines_of(s@).map_values(|l: Seq<char>| trim(l));
    let mut out: Vec<String> = Vec::new();
    let mut i: usize = 0;
    while i < lines.len()
        invariant
            views_of(lines@) == lines_of(s@),
            tv == lines_of(s@).map_values(|l: Seq<char>| trim(l)),
            i <= lines@.len(),
            views_of(out@) == tv.take(i as int).filter(|l: Seq<char>| l.len() != 0),
        decreases lines@.len() - i,
    {
        let t = trim_str(lines[i].as_str());
        proof {
            reveal(Seq::filter);
            assert(tv.take(i + 1).drop_last() =~= tv.take(i as int));
            assert(tv.take(i + 1).last() == t@);
        }
        if t.unicode_len() != 0 {
            let ghost before = out@;
            out.push(t);
            assert(views_of(out@) =~= views_of(before).push(tv[i as int]));
        }
        i = i + 1;
    }
    assert(tv.take(lines@.len() as int) =~= tv);
    out
}

/// The branch to push: the trimmed output of `git rev-parse --abbrev-ref
/// HEAD`, unless it is `HEAD`, `detached` or empty.
pub fn push_branch(output: &str) -> (r: Option<String>)
    ensures
        (trim(output@) == "HEAD"@ || trim(output@) == "detached"@ || trim(output@).len() == 0)
            ==> r is None,
        !(trim(output@) == "HEAD"@ || trim(output@) == "detached"@ || trim(output@).len() == 0)
            ==> (r matches Some(b) && b@ == trim(output@)),
{
    let branch = trim_str(output);
    if branch == owned("HEAD") || branch == owned("detached") || branch.unicode_len() == 0 {
        None
    } else {
        Some(branch)
    }
}


/// The arguments of the force-push of a branch and of all tags to `origin`.
pub fn push_args(branch: &str) -> (r: Vec<String>)
    ensures
        views_of(r@) == seq!["push"@, "-f"@, "--tags"@, "origin"@, branch@],
{
    let v = vec![owned("push"), owned("-f"), owned("--tags"), owned("origin"), owned(branch)];
    assert(views_of(v@) =~= seq!["push"@, "-f"@, "--tags"@, "origin"@, branch@]);
    v
}

/// A remote as captured before a rewrite: its name, fetch URLs and push URLs.
pub struct RemoteConfig {
    pub name: String,
    pub fetch_urls: Vec<String>,
    pub push_urls: Vec<String>,
}

impl View for RemoteConfig {
    type V = (Seq<char>, Seq<Seq<char>>, Seq<Seq<char>>);

    open spec fn view(&self) -> Self::V {
        (self.name@, views_of(self.fetch_urls@), views_of(self.push_urls@))
    }
}

pub open spec fn remotes_view(v: Seq<RemoteConfig>) -> Seq<(Seq<char>, Seq<Seq<char>>, Seq<Seq<char>>)> {
    v.map_values(|r: RemoteConfig| r@)
}

/// The config key of a remote's fetch URLs.
pub fn remote_url_key(name: &str) -> (r: String)
    ensures
        r@ == "remote."@ + name@ + ".url"@,
{
    let mut key = owned("remote.");
    key.append(name);
    key.append(".url");
    key
}

/// The config key of a remote's push URLs.
pub fn remote_pushurl_key(name: &str) -> (r: String)
    ensures
        r@ == "remote."@ + name@ + ".pushurl"@,
{
    let mut key = owned("remote.");
    key.append(name);
    key.append(".pushurl");
    key
}

/// The remotes captured from, for each remote name, the output of `git
/// config --get-all` for its URL key and for its push URL key: the URLs are
/// the trimmed, non-blank lines.
pub fn capture_remotes(queried: &Vec<(String, String, String)>) -> (r: Vec<RemoteConfig>)
    ensures
        remotes_view(r@) == queried@.map_values(
            |q: (String, String, String)| (q.0@, nonblank_lines(q.1@), nonblank_lines(q.2@)),
        ),
{
    let mut out: Vec<RemoteConfig> = Vec::new();
    let mut i: usize = 0;
    while i < queried.len()
        invariant
            i <= queried@.len(),
            remotes_view(out@) == queried@.take(i as int).map_values(
                |q: (String, String, String)| (q.0@, nonblank_lines(q.1@), nonblank_lines(q.2@)),
            ),
        decreases queried@.len() - i,
    {
        let (name, fetch, push) = &queried[i];
        let remote = RemoteConfig {
            name: name.clone(),
            fetch_urls: trimmed_lines(fetch.as_str()),
            push_urls: trimmed_lines(push.as_str()),
        };
        let ghost before = out@;
        out.push(remote);
        assert(remotes_view(out@) =~= remotes_view(before).push(
            (queried@[i as int].0@, nonblank_lines(queried@[i as int].1@), nonblank_lines(queried@[i as int].2@)),
        ));
        assert(queried@.take(i + 1).map_values(
            |q: (String, String, String)| (q.0@, nonblank_lines(q.1@), nonblank_lines(q.2@)),
        ) =~= queried@.take(i as int).map_values(
            |q: (String, String, String)| (q.0@, nonblank_lines(q.1@), nonblank_lines(q.2@)),
        ).push(
            (queried@[i as int].0@, nonblank_lines(queried@[i as int].1@), nonblank_lines(queried@[i as int].2@)),
        ));
        i = i + 1;
    }
    assert(queried@.take(queried@.len() as int) =~= queried@);
    out
}

/// A git command to run, and the one to run instead when it fails.
pub struct GitCommand {
    pub args: Vec<String>,
    pub fallback: Option<Vec<String>>,
}

impl View for GitCommand {
    type V = (Seq<Seq<char>>, Option<Seq<Seq<char>>>);

    open spec fn view(&self) -> Self::V {
        (
            views_of(self.args@),
            match self.fallback {
                Some(f) => Some(views_of(f@)),
                None => None,
            },
        )
    }
}

pub open spec fn commands_view(v: Seq<GitCommand>) -> Seq<(Seq<Seq<char>>, Option<Seq<Seq<char>>>)> {
    v.map_values(|c: GitCommand| c@)
}

/// The commands that put one remote back: add it with its first fetch URL
/// (or, when that fails, set that URL), add the other fetch URLs, then add
/// each push URL.
pub open spec fn remote_commands(r: (Seq<char>, Seq<Seq<char>>, Seq<Seq<char>>)) -> Seq<
    (Seq<Seq<char>>, Option<Seq<Seq<char>>>),
> {
    let (name, fetch, push) = r;
    let first: Seq<(Seq<Seq<char>>, Option<Seq<Seq<char>>>)> = if fetch.len() > 0 {
        seq![
            (
                seq!["remote"@, "add"@, name, fetch[0]],
                Some(seq!["remote"@, "set-url"@, name, fetch[0]]),
            ),
        ]
    } else {
        Seq::empty()
    };
    let extra = if fetch.len() > 0 {
        fetch.skip(1).map_values(
            |u: Seq<char>|
                (
                    seq!["remote"@, "set-url"@, "--add"@, name, u],
                    None::<Seq<Seq<char>>>,
                ),
        )
    } else {
        Seq::empty()
    };
    let pushes = push.map_values(
        |u: Seq<char>|
            (seq!["remote"@, "set-url"@, "--add"@, "--push"@, name, u], None::<Seq<Seq<char>>>),
    );
    first + extra + pushes
}

/// The commands for all remotes, one remote after another.
pub open spec fn restore_plan(remotes: Seq<(Seq<char>, Seq<Seq<char>>, Seq<Seq<char>>)>) -> Seq<
    (Seq<Seq<char>>, Option<Seq<Seq<char>>>),
>
    decreases remotes.len(),
{
    if remotes.len() == 0 {
        Seq::empty()
    } else {
        restore_plan(remotes.drop_last()) + remote_commands(remotes.last())
    }
}

fn words4(a: &str, b: &str, c: &str, d: &str) -> (r: Vec<String>)
    ensures
        views_of(r@) == seq![a@, b@, c@, d@],
{
    let v = vec![owned(a), owned(b), owned(c), owned(d)];
    assert(views_of(v@) =~= seq![a@, b@, c@, d@]);
    v
}

fn words5(a: &str, b: &str, c: &str, d: &str, e: &str) -> (r: Vec<String>)
    ensures
        views_of(r@) == seq![a@, b@, c@, d@, e@],
{
    let v = vec![owned(a), owned(b), owned(c), owned(d), owned(e)];
    assert(views_of(v@) =~= seq![a@, b@, c@, d@, e@]);
    v
}

fn words6(a: &str, b: &str, c: &str, d: &str, e: &str, f: &str) -> (r: Vec<String>)
    ensures
        views_of(r@) == seq![a@, b@, c@, d@, e@, f@],
{
    let v = vec![owned(a), owned(b), owned(c), owned(d), owned(e), owned(f)];
    assert(views_of(v@) =~= seq![a@, b@, c@, d@, e@, f@]);
    v
}

/// Append the commands that put one remote back.
fn push_remote_commands(out: &mut Vec<GitCommand>, remote: &RemoteConfig)
    ensures
        commands_view(final(out)@) == commands_view(old(out)@) + remote_commands(remote@),
{
    let ghost start = commands_view(out@);
    let name = remote.name.as_str();
    let ghost fetch = views_of(remote.fetch_urls@);
    let ghost push = views_of(remote.push_urls@);
    if remote.fetch_urls.len() > 0 {
        let first = remote.fetch_urls[0].as_str();
        let cmd = GitCommand {
            args: words4("remote", "add", name, first),
            fallback: Some(words4("remote", "set-url", name, first)),
        };
        let ghost b0 = out@;
        out.push(cmd);
        assert(commands_view(out@) =~= commands_view(b0).push(cmd@));
        let mut i: usize = 1;
        while i < remote.fetch_urls.len()
            invariant
                fetch == views_of(remote.fetch_urls@),
                fetch.len() > 0,
                1 <= i <= fetch.len(),
                name@ == remote.name@,
                commands_view(out@) == start + seq![
                    (
                        seq!["remote"@, "add"@, name@, fetch[0]],
                        Some(seq!["remote"@, "set-url"@, name@, fetch[0]]),
                    ),
                ] + fetch.subrange(1, i as int).map_values(
                    |u: Seq<char>|
                        (seq!["remote"@, "set-url"@, "--add"@, name@, u], None::<Seq<Seq<char>>>),
                ),
            decreases fetch.len() - i,
        {
            let cmd = GitCommand {
                args: words5("remote", "set-url", "--add", name, remote.fetch_urls[i].as_str()),
                fallback: None,
            };
            let ghost b1 = out@;
            out.push(cmd);
            assert(commands_view(out@) =~= commands_view(b1).push(cmd@));
            assert(fetch.subrange(1, i + 1).map_values(
                |u: Seq<char>| (seq!["remote"@, "set-url"@, "--add"@, name@, u], None::<Seq<Seq<char>>>),
            ) =~= fetch.subrange(1, i as int).map_values(
                |u: Seq<char>| (seq!["remote"@, "set-url"@, "--add"@, name@, u], None::<Seq<Seq<char>>>),
            ).push(cmd@));
            i = i + 1;
        }
        assert(fetch.subrange(1, fetch.len() as int) =~= fetch.skip(1));
    }
    let ghost mid = commands_view(out@);
    let mut j: usize = 0;
    while j < remote.push_urls.len()
        invariant
            push == views_of(remote.push_urls@),
            j <= push.len(),
            name@ == remote.name@,
            commands_view(out@) == mid + push.take(j as int).map_values(
                |u: Seq<char>|
                    (seq!["remote"@, "set-url"@, "--add"@, "--push"@, name@, u], None::<Seq<Seq<char>>>),
            ),
        decreases push.len() - j,
    {
        let cmd = GitCommand {
            args: words6("remote", "set-url", "--add", "--push", name, remote.push_urls[j].as_str()),
            fallback: None,
        };
        let ghost b2 = out@;
        out.push(cmd);
        assert(commands_view(out@) =~= commands_view(b2).push(cmd@));
        assert(push.take(j + 1).map_values(
            |u: Seq<char>|
                (seq!["remote"@, "set-url"@, "--add"@, "--push"@, name@, u], None::<Seq<Seq<char>>>),
        ) =~= push.take(j as int).map_values(
            |u: Seq<char>|
                (seq!["remote"@, "set-url"@, "--add"@, "--push"@, name@, u], None::<Seq<Seq<char>>>),
        ).push(cmd@));
        j = j + 1;
    }
    assert(push.take(push.len() as int) =~= push);
    assert(commands_view(out@) =~= start + remote_commands(remote@));
}

/// The commands that put the captured remotes back after a rewrite.
pub fn restore_remotes(remotes: &Vec<RemoteConfig>) -> (r: Vec<GitCommand>)
    ensures
        commands_view(r@) == restore_plan(remotes_view(remotes@)),
{
    let mut out: Vec<GitCommand> = Vec::new();
    let mut i: usize = 0;
    while i < remotes.len()
        invariant
            i <= remotes@.len(),
            commands_view(out@) == restore_plan(remotes_view(remotes@.take(i as int))),
        decreases remotes@.len() - i,
    {
        push_remote_commands(&mut out, &remotes[i]);
        assert(remotes_view(remotes@.take(i + 1)).drop_last() =~= remotes_view(remotes@.take(i as int)));
        assert(remotes_view(remotes@.take(i + 1)).last() == remotes@[i as int]@);
        i = i + 1;
    }
    assert(remotes@.take(remotes@.len() as int) =~= remotes@);
    out
}


/// The last component of a path, as `Path::file_name` gives it (as text).
pub uninterp spec fn path_file_name(path: Seq<char>) -> Option<Seq<char>>;

/// Calls `std::path::Path::file_name` on `path` and turns the name back into
/// text. Claimed: the result is the named last component of `path`, a
/// function of the text alone.
#[verifier::external_body]
fn file_name_of(path: &str) -> (r: Option<String>)
    ensures
        match r {
            Some(n) => path_file_name(path@) == Some(n@),
            None => path_file_name(path@) is None,
        },
{
    std::path::Path::new(path).file_name().and_then(|n| n.to_str()).map(|n| n.to_owned())
}

/// How a repository is shown: the name of its directory, or `<unknown>`.
pub open spec fn repo_display(path: Seq<char>) -> Seq<char> {
    match path_file_name(path) {
        Some(n) => n,
        None => "<unknown>"@,
    }
}

/// The repositories a rewrite runs on, each with how it is shown: the
/// repositories found directly under the base directory, shown by directory
/// name; or else the repository that holds the base directory, shown by its
/// path; or none.
pub fn resolve_repos(children: &Vec<String>, git_root: &Option<String>) -> (r: Vec<(String, String)>)
    ensures
        children@.len() > 0 ==> r@.map_values(|p: (String, String)| (p.0@, p.1@)) == views_of(
            children@,
        ).map_values(|c: Seq<char>| (c, repo_display(c))),
        children@.len() == 0 && git_root is Some ==> r@.map_values(|p: (String, String)| (p.0@, p.1@))
            == seq![(git_root.unwrap()@, git_root.unwrap()@)],
        children@.len() == 0 && git_root is None ==> r@.len() == 0,
{
    let mut out: Vec<(String, String)> = Vec::new();
    if children.len() > 0 {
        let mut i: usize = 0;
        while i < children.len()
            invariant
                i <= children@.len(),
                out@.map_values(|p: (String, String)| (p.0@, p.1@)) == views_of(children@.take(i as int)).map_values(
                    |c: Seq<char>| (c, repo_display(c)),
                ),
            decreases children@.len() - i,
        {
            let path = children[i].clone();
            let display = match file_name_of(path.as_str()) {
                Some(n) => n,
                None => owned("<unknown>"),
            };
            let ghost before = out@;
            out.push((path, display));
            assert(out@.map_values(|p: (String, String)| (p.0@, p.1@)) =~= before.map_values(
                |p: (String, String)| (p.0@, p.1@),
            ).push((children@[i as int]@, repo_display(children@[i as int]@))));
            assert(views_of(children@.take(i + 1)).map_values(|c: Seq<char>| (c, repo_display(c)))
                =~= views_of(children@.take(i as int)).map_values(|c: Seq<char>| (c, repo_display(c))).push(
                (children@[i as int]@, repo_display(children@[i as int]@)),
            ));
            i = i + 1;
        }
        assert(children@.take(children@.len() as int) =~= children@);
        return out;
    }
    if let Some(root) = git_root {
        out.push((root.clone(), root.clone()));
        assert(out@.map_values(|p: (String, String)| (p.0@, p.1@)) =~= seq![(root@, root@)]);
    }
    out
}

/// The arguments of a rewrite as given on the command line.
pub struct RewriteArgs {
    pub new_name: Option<String>,
    pub new_email: Option<String>,
    pub old_emails: Vec<String>,
    pub old_name: Option<String>,
    pub blob_map: Vec<String>,
    pub exclude_patterns: Vec<String>,
    pub delete_paths: Vec<String>,
    pub regex_map: bool,
    pub rename_files: bool,
    pub preserve_case: bool,
    pub ignore_case: bool,
    pub quiet: bool,
}

/// A rewrite request, normalized: absent values are empty, comma-separated
/// lists are split.
pub struct RewriteOptions {
    pub new_name: String,
    pub new_email: String,
    pub old_name: String,
    pub old_emails: Vec<String>,
    pub blob_map: Vec<String>,
    pub exclude_patterns: Vec<String>,
    pub delete_paths: Vec<String>,
    pub regex_map: bool,
    pub preserve_case: bool,
    pub ignore_case: bool,
    pub rename_files: bool,
    pub quiet: bool,
}

pub open spec fn or_empty(v: Option<String>) -> Seq<char> {
    match v {
        Some(s) => s@,
        None => Seq::empty(),
    }
}

fn value_or_empty(v: &Option<String>) -> (r: String)
    ensures
        r@ == or_empty(*v),
{
    match v {
        Some(s) => s.clone(),
        None => String::new(),
    }
}

/// Normalize the arguments of a rewrite; an entry of the blob map that is
/// not a mapping is an error naming it.
pub fn rewrite_options(args: &RewriteArgs) -> (r: Result<RewriteOptions, MappingError>)
    ensures
        !all_mappings_valid(args.blob_map@) ==> (r matches Err(e) && e.entry@ == args.blob_map@[first_invalid(
            args.blob_map@,
        )]@),
        all_mappings_valid(args.blob_map@) ==> (r matches Ok(o) && {
            &&& o.new_name@ == or_empty(args.new_name)
            &&& o.new_email@ == or_empty(args.new_email)
            &&& o.old_name@ == or_empty(args.old_name)
            &&& views_of(o.old_emails@) == all_comma_items(views_of(args.old_emails@))
            &&& o.blob_map@ == args.blob_map@
            &&& views_of(o.exclude_patterns@) == all_comma_items(views_of(args.exclude_patterns@))
            &&& views_of(o.delete_paths@) == all_comma_items(views_of(args.delete_paths@))
            &&& o.regex_map == args.regex_map && o.preserve_case == args.preserve_case
            &&& o.ignore_case == args.ignore_case && o.rename_files == args.rename_files
            &&& o.quiet == args.quiet
        }),
{
    let blob_map = match parse_blob_map(&args.blob_map) {
        Ok(b) => b,
        Err(e) => {
            return Err(e);
        },
    };
    Ok(
        RewriteOptions {
            new_name: value_or_empty(&args.new_name),
            new_email: value_or_empty(&args.new_email),
            old_name: value_or_empty(&args.old_name),
            old_emails: split_comma_args(&args.old_emails),
            blob_map,
            exclude_patterns: split_comma_args(&args.exclude_patterns),
            delete_paths: split_comma_args(&args.delete_paths),
            regex_map: args.regex_map,
            preserve_case: args.preserve_case,
            ignore_case: args.ignore_case,
            rename_files: args.rename_files,
            quiet: args.quiet,
        },
    )
}

/// Why a rewrite request is refused.
#[derive(PartialEq, Eq, Structural, Clone, Copy, Debug)]
pub enum RequestError {
    /// No identity rewrite, no blob mapping and no path to delete.
    NothingToRewrite,
    /// Old emails without a new email.
    NewEmailRequired,
    /// A new email without old emails.
    OldEmailsRequired,
}

/// Check that a rewrite request asks for something and that its identity
/// part is complete.
pub fn check_rewrite_request(opts: &RewriteOptions) -> (r: Result<(), RequestError>)
    ensures
        opts.old_emails@.len() == 0 && opts.blob_map@.len() == 0 && opts.delete_paths@.len() == 0
            ==> r == Err::<(), RequestError>(RequestError::NothingToRewrite),
        !(opts.old_emails@.len() == 0 && opts.blob_map@.len() == 0 && opts.delete_paths@.len() == 0)
            && opts.old_emails@.len() != 0 && opts.new_email@.len() == 0 ==> r == Err::<
            (),
            RequestError,
        >(RequestError::NewEmailRequired),
        opts.new_email@.len() != 0 && opts.old_emails@.len() == 0 && !(opts.blob_map@.len() == 0
            && opts.delete_paths@.len() == 0) ==> r == Err::<(), RequestError>(
            RequestError::OldEmailsRequired,
        ),
        (opts.old_emails@.len() == 0) == (opts.new_email@.len() == 0) && !(opts.old_emails@.len()
            == 0 && opts.blob_map@.len() == 0 && opts.delete_paths@.len() == 0) ==> r is Ok,
{
    if opts.old_emails.len() == 0 && opts.blob_map.len() == 0 && opts.delete_paths.len() == 0 {
        return Err(RequestError::NothingToRewrite);
    }
    if opts.old_emails.len() != 0 && opts.new_email.unicode_len() == 0 {
        return Err(RequestError::NewEmailRequired);
    }
    if opts.new_email.unicode_len() != 0 && opts.old_emails.len() == 0 {
        return Err(RequestError::OldEmailsRequired);
    }
    Ok(())
}

fn clone_strings(v: &Vec<String>) -> (r: Vec<String>)
    ensures
        r@ == v@,
{
    v.clone()
}

/// The configuration a rewrite of one repository runs with: blank names and
/// emails are not given; the lists and flags pass through.
pub fn run_gix_rewrite(options: &RewriteOptions) -> (r: RewriteConfig)
    ensures
        (trim(options.new_name@).len() == 0 ==> r.new_name is None),
        trim(options.new_name@).len() != 0 ==> (r.new_name matches Some(v) && v@ == options.new_name@),
        (trim(options.new_email@).len() == 0 ==> r.new_email is None),
        trim(options.new_email@).len() != 0 ==> (r.new_email matches Some(v) && v@
            == options.new_email@),
        (trim(options.old_name@).len() == 0 ==> r.old_name is None),
        trim(options.old_name@).len() != 0 ==> (r.old_name matches Some(v) && v@ == options.old_name@),
        r.old_emails@ == options.old_emails@,
        r.blob_map@ == options.blob_map@,
        r.exclude_patterns@ == options.exclude_patterns@,
        r.delete_paths@ == options.delete_paths@,
        r.regex_map == options.regex_map && r.preserve_case == options.preserve_case,
        r.ignore_case == options.ignore_case && r.rename_files == options.rename_files,
        r.quiet == options.quiet,
{
    RewriteConfig {
        new_name: to_opt(options.new_name.as_str()),
        new_email: to_opt(options.new_email.as_str()),
        old_name: to_opt(options.old_name.as_str()),
        old_emails: clone_strings(&options.old_emails),
        blob_map: clone_strings(&options.blob_map),
        exclude_patterns: clone_strings(&options.exclude_patterns),
        delete_paths: clone_strings(&options.delete_paths),
        regex_map: options.regex_map,
        preserve_case: options.preserve_case,
        ignore_case: options.ignore_case,
        rename_files: options.rename_files,
        quiet: options.quiet,
    }
}


/// The distinct emails of `git log --format=%ae` output, trimmed, blank
/// lines dropped, in increasing order.
pub fn unique_emails(output: &str) -> (r: Vec<String>)
    ensures
        crate::order::strictly_sorted_text(views_of(r@)),
        views_of(r@).to_set() == nonblank_lines(output@).to_set(),
{
    let lines = trimmed_lines(output);
    crate::order::sorted_unique_text(&lines)
}

} // verus!
