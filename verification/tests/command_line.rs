use gitkat::cli::{
    capture_remotes, check_rewrite_request, count_matching_emails, has_text, mentions_identity,
    push_branch, remote_pushurl_key, remote_url_key, resolve_repos, restore_remotes,
    rewrite_options, run_gix_rewrite, text_lines, trimmed_lines, RequestError, RewriteArgs,
};

fn strings(v: &[&str]) -> Vec<String> {
    v.iter().map(|s| s.to_string()).collect()
}

fn args() -> RewriteArgs {
    RewriteArgs {
        new_name: None,
        new_email: None,
        old_emails: Vec::new(),
        old_name: None,
        blob_map: Vec::new(),
        exclude_patterns: Vec::new(),
        delete_paths: Vec::new(),
        regex_map: false,
        rename_files: false,
        preserve_case: false,
        ignore_case: false,
        quiet: false,
    }
}

#[test]
fn lines_like_str_lines() {
    assert_eq!(text_lines("a\r\nb\n"), strings(&["a", "b"]));
    assert_eq!(text_lines("a\n\nb"), strings(&["a", "", "b"]));
    assert_eq!(text_lines(""), Vec::<String>::new());
    assert_eq!(text_lines("x\r"), strings(&["x\r"]));
    assert_eq!(trimmed_lines(" origin \n\n upstream\n"), strings(&["origin", "upstream"]));
}

#[test]
fn substring_search() {
    assert!(has_text("hello world", "o w"));
    assert!(has_text("abc", ""));
    assert!(!has_text("abc", "abcd"));
    assert!(mentions_identity("Jane <JANE@X.COM>\n", "jane@x.com"));
    assert!(!mentions_identity("Jane <jane@x.com>\n", "bob"));
}

#[test]
fn matching_emails_are_counted_per_line() {
    let output = "a@x.com\nA@X.COM\nb@y.com\nxa@x.com\n";
    assert_eq!(count_matching_emails(output, "a@x.com"), 3);
    assert_eq!(count_matching_emails(output, ""), 0);
}

#[test]
fn detached_heads_are_not_pushed() {
    assert_eq!(push_branch("main\n"), Some("main".to_string()));
    assert_eq!(push_branch("HEAD\n"), None);
    assert_eq!(push_branch("detached"), None);
    assert_eq!(push_branch("  \n"), None);
}

#[test]
fn remotes_are_captured_and_restored() {
    assert_eq!(remote_url_key("origin"), "remote.origin.url");
    assert_eq!(remote_pushurl_key("origin"), "remote.origin.pushurl");
    let queried = vec![
        ("origin".to_string(), "https://a\n https://b \n".to_string(), "ssh://p\n".to_string()),
        ("empty".to_string(), "".to_string(), "".to_string()),
    ];
    let remotes = capture_remotes(&queried);
    assert_eq!(remotes[0].fetch_urls, strings(&["https://a", "https://b"]));
    assert_eq!(remotes[0].push_urls, strings(&["ssh://p"]));
    let commands = restore_remotes(&remotes);
    assert_eq!(commands.len(), 3);
    assert_eq!(commands[0].args, strings(&["remote", "add", "origin", "https://a"]));
    assert_eq!(commands[0].fallback, Some(strings(&["remote", "set-url", "origin", "https://a"])));
    assert_eq!(commands[1].args, strings(&["remote", "set-url", "--add", "origin", "https://b"]));
    assert_eq!(commands[1].fallback, None);
    assert_eq!(commands[2].args, strings(&["remote", "set-url", "--add", "--push", "origin", "ssh://p"]));
}

#[test]
fn repos_are_shown_by_directory_name() {
    let children = strings(&["/work/alpha", "/work/beta/"]);
    let repos = resolve_repos(&children, &None);
    assert_eq!(
        repos,
        vec![
            ("/work/alpha".to_string(), "alpha".to_string()),
            ("/work/beta/".to_string(), "beta".to_string()),
        ]
    );
    let repos = resolve_repos(&Vec::new(), &Some("/work/repo".to_string()));
    assert_eq!(repos, vec![("/work/repo".to_string(), "/work/repo".to_string())]);
    assert!(resolve_repos(&Vec::new(), &None).is_empty());
    assert_eq!(resolve_repos(&strings(&["/"]), &None)[0].1, "<unknown>");
}

#[test]
fn rewrite_requests_are_checked() {
    let opts = rewrite_options(&args()).ok().unwrap();
    assert_eq!(check_rewrite_request(&opts), Err(RequestError::NothingToRewrite));
    let mut a = args();
    a.old_emails = strings(&["old@x.com, other@x.com"]);
    let opts = rewrite_options(&a).ok().unwrap();
    assert_eq!(opts.old_emails, strings(&["old@x.com", "other@x.com"]));
    assert_eq!(check_rewrite_request(&opts), Err(RequestError::NewEmailRequired));
    let mut a = args();
    a.new_email = Some("new@x.com".to_string());
    a.blob_map = strings(&["a:b"]);
    let opts = rewrite_options(&a).ok().unwrap();
    assert_eq!(check_rewrite_request(&opts), Err(RequestError::OldEmailsRequired));
    let mut a = args();
    a.new_email = Some("new@x.com".to_string());
    a.old_emails = strings(&["old@x.com"]);
    let opts = rewrite_options(&a).ok().unwrap();
    assert_eq!(check_rewrite_request(&opts), Ok(()));
    let mut a = args();
    a.blob_map = strings(&["broken"]);
    assert_eq!(rewrite_options(&a).err().unwrap().entry, "broken");
}

#[test]
fn rewrite_configuration_from_options() {
    let mut a = args();
    a.new_email = Some("new@x.com".to_string());
    a.new_name = Some("  ".to_string());
    a.old_emails = strings(&["old@x.com"]);
    a.delete_paths = strings(&["secret.env,*.key"]);
    a.quiet = true;
    let opts = rewrite_options(&a).ok().unwrap();
    let config = run_gix_rewrite(&opts);
    assert_eq!(config.new_email, Some("new@x.com".to_string()));
    assert_eq!(config.new_name, None);
    assert_eq!(config.delete_paths, strings(&["secret.env", "*.key"]));
    assert!(config.quiet);
}
