use gitkat::harness::{
    batch_header, clone_local, clone_mirror, clone_repo, compare_exports, fast_export_hash,
    object_listing_ids, pick_identity, readme_blob_map, repo_name_from_url, run_gitkat,
    select_repos, token_matcher, verify_repo, verify_with_bfg, verify_with_filter_repo, BlobScan,
    ScanFailure, VerifyError, VerifyOptions, VerifyStep,
};

fn strings(v: &[&str]) -> Vec<String> {
    v.iter().map(|s| s.to_string()).collect()
}

fn options(blob_map: &[&str]) -> VerifyOptions {
    VerifyOptions {
        new_name: "GitKat Rewrite".to_string(),
        new_email: "rewrite@example.test".to_string(),
        old_email: "old@x.com".to_string(),
        old_name: "Old".to_string(),
        blob_map: strings(blob_map),
        exclude: Vec::new(),
        preserve_case: false,
        ignore_case: false,
        rename_files: false,
        regex_map: false,
    }
}

#[test]
fn repo_names_come_from_urls() {
    assert_eq!(repo_name_from_url("https://github.com/psf/requests.git"), "requests");
    assert_eq!(repo_name_from_url("https://github.com/a/b.git.git"), "b");
    assert_eq!(repo_name_from_url("plain"), "plain");
    assert_eq!(repo_name_from_url("https://host/x/"), "");
}

#[test]
fn clone_arguments() {
    assert_eq!(clone_repo("u", "d"), strings(&["clone", "--quiet", "u", "d"]));
    assert_eq!(clone_local("s", "d"), strings(&["clone", "--quiet", "--no-hardlinks", "s", "d"]));
    assert_eq!(clone_mirror("s", "d"), strings(&["clone", "--quiet", "--mirror", "s", "d"]));
}

#[test]
fn identity_is_name_and_email() {
    let (name, email, old_name) = pick_identity("Jane Doe\0jane@x.com\n").ok().unwrap();
    assert_eq!(name, "Jane Doe");
    assert_eq!(email, "jane@x.com");
    assert_eq!(old_name, "Jane Doe");
    assert!(matches!(pick_identity("no separator"), Err(VerifyError::NoIdentity)));
}

#[test]
fn comparison_directories_and_verdicts() {
    let (gix, filter) = verify_with_filter_repo("flask", "literal");
    assert_eq!(gix, "flask-literal-gix");
    assert_eq!(filter, "flask-literal-filter");
    assert!(compare_exports("flask", "literal", b"ab", b"ab").is_ok());
    match compare_exports("flask", "regex", b"ab", b"cd") {
        Err(VerifyError::Mismatch { name, label, gix_hash, filter_hash }) => {
            assert_eq!(name, "flask");
            assert_eq!(label, "regex");
            assert_eq!(gix_hash, b"ab".to_vec());
            assert_eq!(filter_hash, b"cd".to_vec());
        }
        _ => panic!("hashes differ"),
    }
}

#[test]
fn bfg_comparisons() {
    assert!(matches!(verify_with_bfg("r", &options(&[])), Ok(None)));
    let mut regex = options(&["a:b"]);
    regex.regex_map = true;
    assert!(matches!(verify_with_bfg("r", &regex), Err(VerifyError::UnsupportedBfgOptions)));
    let plan = verify_with_bfg("r", &options(&["a:b"])).ok().unwrap().unwrap();
    assert_eq!(plan.gix_dir, "r-bfg-gix");
    assert_eq!(plan.bfg_dir, "r-bfg");
    assert_eq!(plan.blob_only.blob_map, strings(&["a:b"]));
    assert!(plan.blob_only.new_email.is_empty());
}

#[test]
fn verification_steps() {
    let blob_map = strings(&["Hello:Hello_REDACTED"]);
    let steps = verify_repo("old@x.com", "Old", &blob_map, true, true, false);
    assert_eq!(steps.len(), 3);
    match &steps[1] {
        VerifyStep::FilterRepo { label, options } => {
            assert_eq!(label, "regex");
            assert!(options.regex_map);
            assert_eq!(options.blob_map, strings(&["Hello:Hello_REDACTED"]));
        }
        _ => panic!("second step is the regex comparison"),
    }
    assert!(matches!(&steps[2], VerifyStep::Fail { error: VerifyError::MissingBfgJar }));
    let steps = verify_repo("old@x.com", "Old", &blob_map, false, false, false);
    assert_eq!(steps.len(), 1);
}

#[test]
fn gitkat_runs_quietly_with_one_old_email() {
    let config = run_gitkat(&options(&["a:b"]));
    assert_eq!(config.old_emails, strings(&["old@x.com"]));
    assert_eq!(config.new_name, Some("GitKat Rewrite".to_string()));
    assert!(config.quiet);
    assert!(config.delete_paths.is_empty());
}

#[test]
fn repository_selection() {
    assert!(matches!(select_repos(&strings(&["u"]), true), Err(VerifyError::ReposAndCi)));
    assert_eq!(select_repos(&strings(&["u"]), false).ok().unwrap(), strings(&["u"]));
    assert_eq!(select_repos(&Vec::new(), true).ok().unwrap().len(), 3);
    assert_eq!(select_repos(&Vec::new(), false).ok().unwrap().len(), 8);
}

#[test]
fn listed_objects_with_paths() {
    let output = "c0ffee\nbeef README.md\ndead   \nf00d dir/file\n";
    assert_eq!(object_listing_ids(output), strings(&["beef", "f00d"]));
}

#[test]
fn blob_scans() {
    let mut scan = BlobScan::new(&strings(&["secret:public", "gone:"])).ok().unwrap();
    assert_eq!(scan.verdict(), Err(ScanFailure::NewMissing));
    scan.observe(b"a public text");
    assert_eq!(scan.verdict(), Ok(()));
    scan.observe(b"still gone here");
    assert_eq!(scan.verdict(), Err(ScanFailure::OldStillPresent));
    assert_eq!(BlobScan::new(&strings(&["bad"])).err().unwrap().entry, "bad");
}

#[test]
fn batch_headers() {
    assert_eq!(batch_header(b"abc blob 12"), ("blob".to_string(), 12));
    assert_eq!(batch_header(b"abc missing"), ("missing".to_string(), 0));
    assert_eq!(batch_header(b""), (String::new(), 0));
}

#[test]
fn export_hash_is_sha256_hex() {
    assert_eq!(
        fast_export_hash(b""),
        b"e3b0c44298fc1c149afbf4c8996fb92427ae41e4649b934ca495991b7852b855".to_vec()
    );
    assert_eq!(
        fast_export_hash(b"abc"),
        b"ba7816bf8f01cfea414140de5dae2223b00361a396177a9cb410ff61f20015ad".to_vec()
    );
}

#[test]
fn readme_tokens_become_mappings() {
    let m = token_matcher().unwrap();
    assert_eq!(
        readme_blob_map("# Hello-World project\nmore", &m),
        Some(strings(&["Hello-World:Hello-World_REDACTED"]))
    );
    assert_eq!(readme_blob_map("# a b c\nLongToken", &m), None);
    assert_eq!(readme_blob_map("", &m), None);
}
