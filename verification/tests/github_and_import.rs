use gitkat::cli::push_args;
use gitkat::github::{
    commit_emails, email_scan_start, email_scan_step, email_summary, next_listing_page, own_pulls, pushable_repos, ScanAction,
    ScanEvent, ScanPhase,
};
use gitkat::harness::{blob_check, filter_repo_env, is_blob_kind, BlobScan, ScanFailure, VerifyOptions};
use gitkat::objects::{build_tag_bytes, parse_tag_object, ObjectKind};
use gitkat::repo::canonical_mode;
use gitkat::stream::{import_plan, read_stream, ImportAction};
use gitkat::transfer::{write_end_objects, write_end_refs, write_header, write_object, write_ref, ImportError};

fn s(v: &str) -> String {
    v.to_string()
}

fn person(author: Option<&str>, committer: Option<&str>) -> (Option<String>, Option<String>) {
    (author.map(s), committer.map(s))
}

#[test]
fn commit_emails_keep_author_then_committer() {
    let commits = vec![
        person(Some("a@x"), Some("c@x")),
        person(None, Some("d@x")),
        person(Some("e@x"), None),
        person(None, None),
    ];
    assert_eq!(commit_emails(&commits), vec![s("a@x"), s("c@x"), s("d@x"), s("e@x")]);
}

#[test]
fn own_pulls_are_those_of_the_user() {
    let pulls = vec![(1, Some(s("me"))), (2, Some(s("you"))), (3, None), (4, Some(s("me")))];
    assert_eq!(own_pulls(&pulls, "me"), vec![1, 4]);
    assert!(own_pulls(&pulls, "nobody").is_empty());
}

#[test]
fn only_pushable_organisation_repos_count() {
    let repos = vec![
        (s("org"), s("a"), Some(true)),
        (s("org"), s("b"), Some(false)),
        (s("org"), s("c"), None),
        (s("org"), s("d"), Some(true)),
    ];
    assert_eq!(pushable_repos(&repos), vec![(s("org"), s("a")), (s("org"), s("d"))]);
}

#[test]
fn summary_unites_and_breaks_down_emails() {
    let per_repo = vec![
        (s("o/a"), vec![s("z@x"), s("a@x"), s("z@x")]),
        (s("o/b"), vec![]),
        (s("o/c"), vec![s("m@x")]),
    ];
    let (all, breakdown) = email_summary(&per_repo);
    assert_eq!(all, vec![s("a@x"), s("m@x"), s("z@x")]);
    assert_eq!(breakdown, vec![(s("o/a"), vec![s("a@x"), s("z@x")]), (s("o/c"), vec![s("m@x")])]);
}

#[test]
fn email_scan_walks_commits_then_pulls() {
    let (scan, action) = email_scan_start();
    assert_eq!(action, ScanAction::FetchCommits { page: 1 });
    let (scan, action) =
        email_scan_step(scan, ScanEvent::CommitsPage { commits: vec![person(Some("a@x"), Some("b@x"))] }, "me");
    assert_eq!(action, ScanAction::FetchCommits { page: 2 });
    let (scan, action) = email_scan_step(scan, ScanEvent::CommitsPage { commits: vec![] }, "me");
    assert_eq!(action, ScanAction::FetchPulls { page: 1 });
    assert_eq!(scan.phase, ScanPhase::Pulls);
    let pulls = vec![(7, Some(s("me"))), (8, Some(s("you"))), (9, Some(s("me")))];
    let (scan, action) = email_scan_step(scan, ScanEvent::PullsPage { pulls }, "me");
    assert_eq!(action, ScanAction::FetchPullCommits { number: 7 });
    let (scan, action) = email_scan_step(scan, ScanEvent::Failed, "me");
    assert_eq!(action, ScanAction::FetchPullCommits { number: 9 });
    let (scan, action) =
        email_scan_step(scan, ScanEvent::PullCommits { commits: vec![person(Some("c@x"), None)] }, "me");
    assert_eq!(action, ScanAction::FetchPulls { page: 2 });
    let (scan, action) = email_scan_step(scan, ScanEvent::PullsPage { pulls: vec![] }, "me");
    assert_eq!(action, ScanAction::Done);
    assert_eq!(scan.phase, ScanPhase::Done);
    assert_eq!(scan.emails, vec![s("a@x"), s("b@x"), s("c@x")]);
}

#[test]
fn failed_commit_page_moves_on_to_pulls_and_failed_pulls_end() {
    let (scan, _) = email_scan_start();
    let (scan, action) = email_scan_step(scan, ScanEvent::Failed, "me");
    assert_eq!(action, ScanAction::FetchPulls { page: 1 });
    let (scan, action) = email_scan_step(scan, ScanEvent::Failed, "me");
    assert_eq!(action, ScanAction::Done);
    assert!(scan.emails.is_empty());
}

#[test]
fn filter_repo_environment() {
    let options = VerifyOptions {
        new_name: s("New"),
        new_email: s("new@x"),
        old_email: s("old@x"),
        old_name: s("Old"),
        blob_map: vec![s("a\\:b:c"), s("x:y")],
        exclude: vec![s("vendor/**"), s("*.csv")],
        preserve_case: true,
        ignore_case: false,
        rename_files: true,
        regex_map: false,
    };
    let env = filter_repo_env(&options).ok().unwrap();
    assert_eq!(
        env,
        vec![
            (s("GITKIT_NEW_NAME"), s("New")),
            (s("GITKIT_NEW_EMAIL"), s("new@x")),
            (s("GITKIT_OLD_NAME"), s("Old")),
            (s("GITKIT_OLD_EMAILS"), s("old@x")),
            (s("GITKIT_BLOB_MAP"), s("a:b\tc\nx\ty")),
            (s("GITKIT_EXCLUDE_PATTERNS"), s("vendor/**\n*.csv")),
            (s("GITKIT_PRESERVE_CASE"), s("1")),
            (s("GITKIT_REGEX_MAP"), s("0")),
            (s("GITKIT_IGNORE_CASE"), s("0")),
            (s("GITKIT_RENAME_FILES"), s("1")),
        ]
    );
    let bad = VerifyOptions { blob_map: vec![s("nocolon")], ..options };
    assert_eq!(filter_repo_env(&bad).err().unwrap().entry, "nocolon");
}

#[test]
fn push_sends_branch_and_tags() {
    assert_eq!(push_args("main"), vec![s("push"), s("-f"), s("--tags"), s("origin"), s("main")]);
}

#[test]
fn tag_rebuilds_byte_for_byte() {
    let data = b"object aaaaaaaaaaaaaaaaaaaaaaaaaaaaaaaaaaaaaaaa\ntype commit\ntag v1\ntagger T <t@x> 1 +0000\n\nrelease\n";
    let tag = parse_tag_object(data).ok().unwrap();
    assert_eq!(build_tag_bytes(&tag.target, tag.kind, &tag.name, &tag.tagger, &tag.message), data.to_vec());
}

#[test]
fn tree_modes_gix_takes_as_they_are() {
    assert_eq!(canonical_mode(0o40000), Some(0o40000));
    assert_eq!(canonical_mode(0o100644), Some(0o100644));
    assert_eq!(canonical_mode(0o100755), Some(0o100755));
    assert_eq!(canonical_mode(0o120000), Some(0o120000));
    assert_eq!(canonical_mode(0o160000), Some(0o160000));
    assert_eq!(canonical_mode(0o40755), None);
}

#[test]
fn import_writes_objects_before_refs() {
    let id = "bbbbbbbbbbbbbbbbbbbbbbbbbbbbbbbbbbbbbbbb";
    let mut stream = write_header();
    stream.extend(write_ref("refs/heads/main", id.as_bytes()));
    stream.extend(write_end_refs());
    stream.extend(write_object(id.as_bytes(), ObjectKind::Blob, b"hello"));
    stream.extend(write_end_objects());

    let (refs, objs, end) = read_stream(&stream).ok().unwrap();
    assert_eq!(refs.len(), 1);
    assert_eq!(refs[0].name, "refs/heads/main");
    assert_eq!(objs.len(), 1);
    assert_eq!(&stream[objs[0].start..objs[0].end], b"hello");
    assert_eq!(end, stream.len());

    let (plan, failure) = import_plan(&stream);
    assert_eq!(failure, None);
    assert_eq!(plan.len(), 2);
    assert!(matches!(&plan[0], ImportAction::WriteObject { record } if record.kind == ObjectKind::Blob));
    assert!(matches!(&plan[1], ImportAction::SetRef { entry } if entry.target == id.as_bytes().to_vec()));

    let (plan, failure) = import_plan(b"not a stream\n");
    assert!(plan.is_empty());
    assert_eq!(failure, Some(ImportError::BadHeader));

    let mut cut = write_header();
    cut.extend(write_ref("refs/heads/main", id.as_bytes()));
    cut.extend(write_end_refs());
    cut.extend(write_object(id.as_bytes(), ObjectKind::Blob, b"hello"));
    cut.extend(b"object zz blob 1\n");
    let (plan, failure) = import_plan(&cut);
    assert_eq!(plan.len(), 1);
    assert!(matches!(&plan[0], ImportAction::WriteObject { .. }));
    assert_eq!(failure, Some(ImportError::BadObjectId));
}

#[test]
fn blob_check_passes_when_nothing_is_listed() {
    let scan = BlobScan::new(&vec![s("secret:public")]).ok().unwrap();
    assert!(scan.has_rules());
    assert_eq!(blob_check(&vec![], &scan), Ok(()));
    assert_eq!(blob_check(&vec![s("abc")], &scan), Err(ScanFailure::NewMissing));
    let mut seen = BlobScan::new(&vec![s("secret:public")]).ok().unwrap();
    seen.observe(b"a public text");
    assert_eq!(blob_check(&vec![s("abc")], &seen), Ok(()));
    let empty = BlobScan::new(&vec![]).ok().unwrap();
    assert!(!empty.has_rules());
    assert_eq!(blob_check(&vec![s("abc")], &empty), Ok(()));
    assert!(is_blob_kind("blob"));
    assert!(!is_blob_kind("tree"));
    assert!(!is_blob_kind(""));
}

#[test]
fn listings_stop_at_an_empty_page() {
    assert_eq!(next_listing_page(1, 100), Some(2));
    assert_eq!(next_listing_page(3, 1), Some(4));
    assert_eq!(next_listing_page(3, 0), None);
}
