//! What the GitHub email lookup decides: which repositories and pull
//! requests count, how the pages of results are walked, and which emails
//! are collected and reported.
use vstd::prelude::*;
use crate::order::{sorted_unique_text, strictly_sorted_text};
use crate::text::{owned, views_of};

verus! {

pub open spec fn opt_text(o: Option<String>) -> Option<Seq<char>> {
    match o {
        Some(s) => Some(s@),
        None => None,
    }
}

/// The text held by an option, as a list of none or one.
pub open spec fn present(o: Option<Seq<char>>) -> Seq<Seq<char>> {
    match o {
        Some(s) => seq![s],
        None => Seq::empty(),
    }
}

/// Commits as the API gives them: the author's and the committer's email,
/// each when given.
pub open spec fn people_view(cs: Seq<(Option<String>, Option<String>)>) -> Seq<
    (Option<Seq<char>>, Option<Seq<char>>),
> {
    cs.map_values(|c: (Option<String>, Option<String>)| (opt_text(c.0), opt_text(c.1)))
}

/// The emails present in a list of commits: each commit's author email,
/// then its committer email, where given.
pub open spec fn emails_of(cs: Seq<(Option<Seq<char>>, Option<Seq<char>>)>) -> Seq<Seq<char>>
    decreases cs.len(),
{
    if cs.len() == 0 {
        Seq::empty()
    } else {
        emails_of(cs.drop_last()) + present(cs.last().0) + present(cs.last().1)
    }
}

/// The emails present in a list of commits, in order.
pub fn commit_emails(commits: &Vec<(Option<String>, Option<String>)>) -> (r: Vec<String>)
    ensures
        views_of(r@) == emails_of(people_view(commits@)),
{
    let ghost cv = people_view(commits@);
    let mut out: Vec<String> = Vec::new();
    let mut i: usize = 0;
    assert(views_of(out@) =~= emails_of(cv.take(0)));
    while i < commits.len()
        invariant
            cv == people_view(commits@),
            i <= commits@.len(),
            views_of(out@) == emails_of(cv.take(i as int)),
        decreases commits@.len() - i,
    {
        proof {
            assert(cv.take(i + 1).drop_last() =~= cv.take(i as int));
            assert(cv.take(i + 1).last() == cv[i as int]);
        }
        let ghost before = views_of(out@);
        match &commits[i].0 {
            Some(e) => {
                out.push(e.clone());
            },
            None => {},
        }
        let ghost mid = views_of(out@);
        assert(mid =~= before + present(cv[i as int].0));
        match &commits[i].1 {
            Some(e) => {
                out.push(e.clone());
            },
            None => {},
        }
        assert(views_of(out@) =~= mid + present(cv[i as int].1));
        i = i + 1;
    }
    assert(cv.take(commits@.len() as int) =~= cv);
    out
}

/// Pull requests as the API gives them: the number and the author's login,
/// when given.
pub open spec fn pulls_view(ps: Seq<(u64, Option<String>)>) -> Seq<(u64, Option<Seq<char>>)> {
    ps.map_values(|p: (u64, Option<String>)| (p.0, opt_text(p.1)))
}

/// The numbers of the pull requests opened by `user`, in order.
pub open spec fn own_pull_numbers(ps: Seq<(u64, Option<Seq<char>>)>, user: Seq<char>) -> Seq<u64>
    decreases ps.len(),
{
    if ps.len() == 0 {
        Seq::empty()
    } else {
        own_pull_numbers(ps.drop_last(), user) + if ps.last().1 == Some(user) {
            seq![ps.last().0]
        } else {
            Seq::<u64>::empty()
        }
    }
}

/// The numbers of the pull requests whose author's login is `username`.
pub fn own_pulls(pulls: &Vec<(u64, Option<String>)>, username: &str) -> (r: Vec<u64>)
    ensures
        r@ == own_pull_numbers(pulls_view(pulls@), username@),
{
    let ghost pv = pulls_view(pulls@);
    let user = owned(username);
    let mut out: Vec<u64> = Vec::new();
    let mut i: usize = 0;
    assert(out@ =~= own_pull_numbers(pv.take(0), username@));
    while i < pulls.len()
        invariant
            pv == pulls_view(pulls@),
            user@ == username@,
            i <= pulls@.len(),
            out@ == own_pull_numbers(pv.take(i as int), username@),
        decreases pulls@.len() - i,
    {
        proof {
            assert(pv.take(i + 1).drop_last() =~= pv.take(i as int));
            assert(pv.take(i + 1).last() == pv[i as int]);
        }
        let mine = match &pulls[i].1 {
            Some(login) => *login == user,
            None => false,
        };
        let ghost before = out@;
        if mine {
            out.push(pulls[i].0);
            assert(out@ =~= before + seq![pv[i as int].0]);
        } else {
            assert(out@ =~= before + Seq::<u64>::empty());
        }
        i = i + 1;
    }
    assert(pv.take(pulls@.len() as int) =~= pv);
    out
}

pub open spec fn repo_list_view(rs: Seq<(String, String, Option<bool>)>) -> Seq<
    (Seq<char>, Seq<char>, Option<bool>),
> {
    rs.map_values(|r: (String, String, Option<bool>)| (r.0@, r.1@, r.2))
}

/// The repositories (owner, name) whose push permission is given and set,
/// in order.
pub open spec fn pushable(rs: Seq<(Seq<char>, Seq<char>, Option<bool>)>) -> Seq<(Seq<char>, Seq<char>)>
    decreases rs.len(),
{
    if rs.len() == 0 {
        Seq::empty()
    } else {
        pushable(rs.drop_last()) + if rs.last().2 == Some(true) {
            seq![(rs.last().0, rs.last().1)]
        } else {
            Seq::<(Seq<char>, Seq<char>)>::empty()
        }
    }
}

pub open spec fn pairs_view(v: Seq<(String, String)>) -> Seq<(Seq<char>, Seq<char>)> {
    v.map_values(|p: (String, String)| (p.0@, p.1@))
}

/// The organisation repositories (owner, name, push permission) that
/// count: those where the user may push.
pub fn pushable_repos(repos: &Vec<(String, String, Option<bool>)>) -> (r: Vec<(String, String)>)
    ensures
        pairs_view(r@) == pushable(repo_list_view(repos@)),
{
    let ghost rv = repo_list_view(repos@);
    let mut out: Vec<(String, String)> = Vec::new();
    let mut i: usize = 0;
    assert(pairs_view(out@) =~= pushable(rv.take(0)));
    while i < repos.len()
        invariant
            rv == repo_list_view(repos@),
            i <= repos@.len(),
            pairs_view(out@) == pushable(rv.take(i as int)),
        decreases repos@.len() - i,
    {
        proof {
            assert(rv.take(i + 1).drop_last() =~= rv.take(i as int));
            assert(rv.take(i + 1).last() == rv[i as int]);
        }
        let ghost before = pairs_view(out@);
        let can_push = match repos[i].2 {
            Some(p) => p,
            None => false,
        };
        if can_push {
            out.push((repos[i].0.clone(), repos[i].1.clone()));
            assert(pairs_view(out@) =~= before + seq![(rv[i as int].0, rv[i as int].1)]);
        } else {
            assert(pairs_view(out@) =~= before + Seq::<(Seq<char>, Seq<char>)>::empty());
        }
        i = i + 1;
    }
    assert(rv.take(repos@.len() as int) =~= rv);
    out
}

/// Emails per repository, as text.
pub open spec fn per_repo_view(v: Seq<(String, Vec<String>)>) -> Seq<(Seq<char>, Seq<Seq<char>>)> {
    v.map_values(|p: (String, Vec<String>)| (p.0@, views_of(p.1@)))
}

/// Every email of every repository, in order.
pub open spec fn all_emails(rs: Seq<(Seq<char>, Seq<Seq<char>>)>) -> Seq<Seq<char>>
    decreases rs.len(),
{
    if rs.len() == 0 {
        Seq::empty()
    } else {
        all_emails(rs.drop_last()) + rs.last().1
    }
}

/// The repositories with at least one email, in order.
pub open spec fn repos_with_emails(rs: Seq<(Seq<char>, Seq<Seq<char>>)>) -> Seq<(Seq<char>, Seq<Seq<char>>)>
    decreases rs.len(),
{
    if rs.len() == 0 {
        Seq::empty()
    } else {
        repos_with_emails(rs.drop_last()) + if rs.last().1.len() > 0 {
            seq![rs.last()]
        } else {
            Seq::<(Seq<char>, Seq<Seq<char>>)>::empty()
        }
    }
}

/// Append `more` to `out`.
fn extend_strings(out: &mut Vec<String>, more: &Vec<String>)
    ensures
        views_of(final(out)@) == views_of(old(out)@) + views_of(more@),
{
    let ghost start = views_of(out@);
    let mut i: usize = 0;
    while i < more.len()
        invariant
            i <= more@.len(),
            views_of(out@) == start + views_of(more@.take(i as int)),
        decreases more@.len() - i,
    {
        let ghost before = views_of(out@);
        out.push(more[i].clone());
        assert(views_of(out@) =~= before.push(more@[i as int]@));
        assert(views_of(more@.take(i + 1)) =~= views_of(more@.take(i as int)).push(more@[i as int]@));
        i = i + 1;
    }
    assert(more@.take(more@.len() as int) =~= more@);
}

/// What the lookup reports: every email found, once each and in order, and,
/// for each repository where some email was found, its emails once each and
/// in order.
pub fn email_summary(per_repo: &Vec<(String, Vec<String>)>) -> (r: (Vec<String>, Vec<(String, Vec<String>)>))
    ensures
        strictly_sorted_text(views_of(r.0@)),
        views_of(r.0@).to_set() == all_emails(per_repo_view(per_repo@)).to_set(),
        r.1@.len() == repos_with_emails(per_repo_view(per_repo@)).len(),
        forall|i: int|
            0 <= i < r.1@.len() ==> {
                &&& (#[trigger] r.1@[i]).0@ == repos_with_emails(per_repo_view(per_repo@))[i].0
                &&& strictly_sorted_text(views_of(r.1@[i].1@))
                &&& views_of(r.1@[i].1@).to_set() == repos_with_emails(per_repo_view(per_repo@))[i].1.to_set()
            },
{
    let ghost pv = per_repo_view(per_repo@);
    let mut flat: Vec<String> = Vec::new();
    let mut breakdown: Vec<(String, Vec<String>)> = Vec::new();
    let mut i: usize = 0;
    assert(views_of(flat@) =~= all_emails(pv.take(0)));
    assert(repos_with_emails(pv.take(0)) =~= Seq::<(Seq<char>, Seq<Seq<char>>)>::empty());
    while i < per_repo.len()
        invariant
            pv == per_repo_view(per_repo@),
            i <= per_repo@.len(),
            views_of(flat@) == all_emails(pv.take(i as int)),
            breakdown@.len() == repos_with_emails(pv.take(i as int)).len(),
            forall|j: int|
                0 <= j < breakdown@.len() ==> {
                    &&& (#[trigger] breakdown@[j]).0@ == repos_with_emails(pv.take(i as int))[j].0
                    &&& strictly_sorted_text(views_of(breakdown@[j].1@))
                    &&& views_of(breakdown@[j].1@).to_set() == repos_with_emails(pv.take(i as int))[j].1.to_set()
                },
        decreases per_repo@.len() - i,
    {
        proof {
            assert(pv.take(i + 1).drop_last() =~= pv.take(i as int));
            assert(pv.take(i + 1).last() == pv[i as int]);
        }
        let ghost old_rw = repos_with_emails(pv.take(i as int));
        let ghost new_rw = repos_with_emails(pv.take(i + 1));
        extend_strings(&mut flat, &per_repo[i].1);
        if per_repo[i].1.len() > 0 {
            let set = sorted_unique_text(&per_repo[i].1);
            breakdown.push((per_repo[i].0.clone(), set));
            assert(new_rw =~= old_rw.push(pv[i as int]));
        } else {
            assert(new_rw =~= old_rw);
        }
        i = i + 1;
    }
    assert(pv.take(per_repo@.len() as int) =~= pv);
    let all = sorted_unique_text(&flat);
    (all, breakdown)
}

/// The page of a repository listing to read after a page of `count`
/// results: none after an empty page, the next one otherwise.
pub fn next_listing_page(page: u64, count: usize) -> (r: Option<u64>)
    requires
        page < u64::MAX,
    ensures
        count == 0 ==> r is None,
        count != 0 ==> r == Some((page + 1) as u64),
{
    if count == 0 {
        None
    } else {
        Some(page + 1)
    }
}

/// Where the walk over one repository's results stands.
#[derive(PartialEq, Eq, Structural, Clone, Copy, Debug)]
pub enum ScanPhase {
    /// Reading pages of the user's commits.
    Commits,
    /// Reading pages of pull requests.
    Pulls,
    /// Reading the commits of the user's pull requests on the current page.
    PullCommits,
    /// Finished.
    Done,
}

/// The state of the walk over one repository: the phase, the page being
/// read, the pull requests whose commits are still to be read (the first
/// one is being read), and the emails collected so far.
pub struct EmailScan {
    pub phase: ScanPhase,
    pub page: u64,
    pub pending: Vec<u64>,
    pub emails: Vec<String>,
}

/// What the API answered to the last request.
pub enum ScanEvent {
    /// A page of commits.
    CommitsPage { commits: Vec<(Option<String>, Option<String>)> },
    /// A page of pull requests: number and author login.
    PullsPage { pulls: Vec<(u64, Option<String>)> },
    /// The commits of one pull request.
    PullCommits { commits: Vec<(Option<String>, Option<String>)> },
    /// A reply that was not a success.
    Failed,
}

/// What to request next.
#[derive(PartialEq, Eq, Structural, Clone, Copy, Debug)]
pub enum ScanAction {
    FetchCommits { page: u64 },
    FetchPulls { page: u64 },
    FetchPullCommits { number: u64 },
    Done,
}

/// The same events, as contracts see them.
pub enum EventSpec {
    CommitsPage(Seq<(Option<Seq<char>>, Option<Seq<char>>)>),
    PullsPage(Seq<(u64, Option<Seq<char>>)>),
    PullCommits(Seq<(Option<Seq<char>>, Option<Seq<char>>)>),
    Failed,
}

pub open spec fn event_view(e: ScanEvent) -> EventSpec {
    match e {
        ScanEvent::CommitsPage { commits } => EventSpec::CommitsPage(people_view(commits@)),
        ScanEvent::PullsPage { pulls } => EventSpec::PullsPage(pulls_view(pulls@)),
        ScanEvent::PullCommits { commits } => EventSpec::PullCommits(people_view(commits@)),
        ScanEvent::Failed => EventSpec::Failed,
    }
}

pub open spec fn scan_view(s: EmailScan) -> (ScanPhase, u64, Seq<u64>, Seq<Seq<char>>) {
    (s.phase, s.page, s.pending@, views_of(s.emails@))
}

/// The pull requests left after the first.
pub open spec fn rest_of(p: Seq<u64>) -> Seq<u64> {
    if p.len() > 0 {
        p.skip(1)
    } else {
        p
    }
}

/// After the commits of a pull request (or a failed request for them): the
/// next pending pull request, or the next page of pull requests.
pub open spec fn after_pull(
    page: u64,
    rest: Seq<u64>,
    emails: Seq<Seq<char>>,
) -> ((ScanPhase, u64, Seq<u64>, Seq<Seq<char>>), ScanAction) {
    if rest.len() > 0 {
        ((ScanPhase::PullCommits, page, rest, emails), ScanAction::FetchPullCommits { number: rest[0] })
    } else {
        ((ScanPhase::Pulls, (page + 1) as u64, rest, emails), ScanAction::FetchPulls { page: (page + 1) as u64 })
    }
}

/// One step of the walk. Commit pages are read until one is empty or fails;
/// then pull-request pages from the first, until one is empty or fails. On
/// each page, the commits of the pull requests opened by `user` are read in
/// turn, a failed request for them being skipped, before the next page.
/// The emails grow by the author and committer emails of each commit read.
/// An event that does not answer the phase ends the walk.
pub open spec fn scan_step_spec(
    s: (ScanPhase, u64, Seq<u64>, Seq<Seq<char>>),
    e: EventSpec,
    user: Seq<char>,
) -> ((ScanPhase, u64, Seq<u64>, Seq<Seq<char>>), ScanAction) {
    let (phase, page, pending, emails) = s;
    let done = ((ScanPhase::Done, page, pending, emails), ScanAction::Done);
    match phase {
        ScanPhase::Commits => match e {
            EventSpec::CommitsPage(cs) => if cs.len() == 0 {
                ((ScanPhase::Pulls, 1, pending, emails), ScanAction::FetchPulls { page: 1 })
            } else {
                (
                    (ScanPhase::Commits, (page + 1) as u64, pending, emails + emails_of(cs)),
                    ScanAction::FetchCommits { page: (page + 1) as u64 },
                )
            },
            EventSpec::Failed => ((ScanPhase::Pulls, 1, pending, emails), ScanAction::FetchPulls { page: 1 }),
            _ => done,
        },
        ScanPhase::Pulls => match e {
            EventSpec::PullsPage(ps) => if ps.len() == 0 {
                done
            } else {
                let own = own_pull_numbers(ps, user);
                if own.len() == 0 {
                    ((ScanPhase::Pulls, (page + 1) as u64, own, emails), ScanAction::FetchPulls { page: (page + 1) as u64 })
                } else {
                    ((ScanPhase::PullCommits, page, own, emails), ScanAction::FetchPullCommits { number: own[0] })
                }
            },
            EventSpec::Failed => done,
            _ => done,
        },
        ScanPhase::PullCommits => match e {
            EventSpec::PullCommits(cs) => after_pull(page, rest_of(pending), emails + emails_of(cs)),
            EventSpec::Failed => after_pull(page, rest_of(pending), emails),
            _ => done,
        },
        ScanPhase::Done => done,
    }
}

/// The walk's first state and request: the first page of commits.
pub fn email_scan_start() -> (r: (EmailScan, ScanAction))
    ensures
        r.0.phase == ScanPhase::Commits,
        r.0.page == 1,
        r.0.pending@.len() == 0,
        r.0.emails@.len() == 0,
        r.1 == (ScanAction::FetchCommits { page: 1 }),
{
    let s = EmailScan { phase: ScanPhase::Commits, page: 1, pending: Vec::new(), emails: Vec::new() };
    (s, ScanAction::FetchCommits { page: 1 })
}

fn tail_of(v: &Vec<u64>) -> (r: Vec<u64>)
    ensures
        r@ == rest_of(v@),
{
    if v.len() == 0 {
        return Vec::new();
    }
    let mut out: Vec<u64> = Vec::new();
    let mut i: usize = 1;
    while i < v.len()
        invariant
            1 <= i <= v@.len(),
            out@ == v@.subrange(1, i as int),
        decreases v@.len() - i,
    {
        out.push(v[i]);
        assert(out@ =~= v@.subrange(1, i + 1));
        i = i + 1;
    }
    assert(v@.subrange(1, v@.len() as int) =~= v@.skip(1));
    out
}

fn next_after_pull(page: u64, rest: Vec<u64>, emails: Vec<String>) -> (r: (EmailScan, ScanAction))
    requires
        page < u64::MAX,
    ensures
        (scan_view(r.0), r.1) == after_pull(page, rest@, views_of(emails@)),
{
    if rest.len() > 0 {
        let number = rest[0];
        (EmailScan { phase: ScanPhase::PullCommits, page, pending: rest, emails }, ScanAction::FetchPullCommits { number })
    } else {
        (
            EmailScan { phase: ScanPhase::Pulls, page: page + 1, pending: rest, emails },
            ScanAction::FetchPulls { page: page + 1 },
        )
    }
}

/// Take one step of the walk over a repository's commits and pull requests
/// on the answer to the last request.
pub fn email_scan_step(state: EmailScan, event: ScanEvent, username: &str) -> (r: (EmailScan, ScanAction))
    requires
        state.page < u64::MAX,
    ensures
        (scan_view(r.0), r.1) == scan_step_spec(scan_view(state), event_view(event), username@),
{
    let ghost sv = scan_view(state);
    let EmailScan { phase, page, pending, mut emails } = state;
    match phase {
        ScanPhase::Commits => match event {
            ScanEvent::CommitsPage { commits } => {
                if commits.len() == 0 {
                    (EmailScan { phase: ScanPhase::Pulls, page: 1, pending, emails }, ScanAction::FetchPulls { page: 1 })
                } else {
                    let found = commit_emails(&commits);
                    extend_strings(&mut emails, &found);
                    (
                        EmailScan { phase: ScanPhase::Commits, page: page + 1, pending, emails },
                        ScanAction::FetchCommits { page: page + 1 },
                    )
                }
            },
            ScanEvent::Failed => (
                EmailScan { phase: ScanPhase::Pulls, page: 1, pending, emails },
                ScanAction::FetchPulls { page: 1 },
            ),
            _ => (EmailScan { phase: ScanPhase::Done, page, pending, emails }, ScanAction::Done),
        },
        ScanPhase::Pulls => match event {
            ScanEvent::PullsPage { pulls } => {
                if pulls.len() == 0 {
                    (EmailScan { phase: ScanPhase::Done, page, pending, emails }, ScanAction::Done)
                } else {
                    let own = own_pulls(&pulls, username);
                    if own.len() == 0 {
                        (
                            EmailScan { phase: ScanPhase::Pulls, page: page + 1, pending: own, emails },
                            ScanAction::FetchPulls { page: page + 1 },
                        )
                    } else {
                        let number = own[0];
                        (
                            EmailScan { phase: ScanPhase::PullCommits, page, pending: own, emails },
                            ScanAction::FetchPullCommits { number },
                        )
                    }
                }
            },
            _ => (EmailScan { phase: ScanPhase::Done, page, pending, emails }, ScanAction::Done),
        },
        ScanPhase::PullCommits => match event {
            ScanEvent::PullCommits { commits } => {
                let found = commit_emails(&commits);
                extend_strings(&mut emails, &found);
                let rest = tail_of(&pending);
                next_after_pull(page, rest, emails)
            },
            ScanEvent::Failed => {
                let rest = tail_of(&pending);
                next_after_pull(page, rest, emails)
            },
            _ => (EmailScan { phase: ScanPhase::Done, page, pending, emails }, ScanAction::Done),
        },
        ScanPhase::Done => (EmailScan { phase: ScanPhase::Done, page, pending, emails }, ScanAction::Done),
    }
}

} // verus!
