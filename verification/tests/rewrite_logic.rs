use gitkat::commit::{
    commit_id_matcher, commit_id_replacement, finish_commit, lower_bytes, prepare_commit,
    rewrite_commit_ids, rewrite_signature_line, CommitError, CommitMap, Signature,
};
use gitkat::context::extract_context;
use gitkat::objects::{
    build_commit_bytes, build_tag_bytes, kind_from_bytes, object_kind_label, parse_object_id,
    parse_tag_object, ObjectKind, TagError,
};
use gitkat::options::{ConfigError, Options, RewriteConfig, RewriteStats};
use gitkat::replace::apply_patterns;
use gitkat::tree::{apply_patterns_with_log, decide_path, leaves_trees, plan_blob, PathDecision};

const ID_A: &str = "aaaaaaaaaaaaaaaaaaaaaaaaaaaaaaaaaaaaaaaa";
const ID_B: &str = "bbbbbbbbbbbbbbbbbbbbbbbbbbbbbbbbbbbbbbbb";
const ID_C: &str = "1234567890abcdef1234567890abcdef12345678";
const ID_D: &str = "fedcba0987654321fedcba0987654321fedcba09";

fn config_with_map(map: &[&str]) -> RewriteConfig {
    let mut config = RewriteConfig::default();
    config.blob_map = map.iter().map(|s| s.to_string()).collect();
    config
}

#[test]
fn default_config_compiles_to_nothing() {
    let options = Options::from_config(&RewriteConfig::default()).ok().unwrap();
    assert!(options.patterns.is_empty());
    assert!(options.exclude.is_none());
    assert!(options.delete.is_none());
    assert!(options.new_email.is_none());
    assert!(leaves_trees(&options));
    let stats = RewriteStats { commits: 3, tags: 1 };
    assert_eq!(stats.commits + stats.tags, 4);
}

#[test]
fn config_errors_name_their_entry() {
    match Options::from_config(&config_with_map(&["missing-colon"])) {
        Err(ConfigError::InvalidMapping { entry }) => assert_eq!(entry, "missing-colon"),
        _ => panic!("expected an invalid mapping"),
    }
    let mut config = config_with_map(&["(unclosed:x"]);
    config.regex_map = true;
    match Options::from_config(&config) {
        Err(ConfigError::InvalidRegex { pattern }) => assert_eq!(pattern, "(unclosed"),
        _ => panic!("expected an invalid regex"),
    }
    let mut config = RewriteConfig::default();
    config.exclude_patterns = vec!["a[".to_string()];
    assert!(matches!(Options::from_config(&config), Err(ConfigError::InvalidExclude)));
    let mut config = RewriteConfig::default();
    config.delete_paths = vec!["b[".to_string()];
    assert!(matches!(Options::from_config(&config), Err(ConfigError::InvalidDeletePath)));
}

#[test]
fn config_values_are_normalized() {
    let mut config = RewriteConfig::default();
    config.new_name = Some("  New Name ".to_string());
    config.new_email = Some("   ".to_string());
    config.old_name = Some(" Old NAME ".to_string());
    config.old_emails = vec![" A@X.com ".to_string(), "  ".to_string()];
    let options = Options::from_config(&config).ok().unwrap();
    assert_eq!(options.new_name, Some(b"New Name".to_vec()));
    assert_eq!(options.new_email, None);
    assert_eq!(options.old_name, Some("old name".to_string()));
    assert_eq!(options.old_emails, vec!["a@x.com".to_string()]);
}

#[test]
fn literal_mappings_replace_every_match_in_order() {
    let options = Options::from_config(&config_with_map(&["foo:bar", "bar:baz"])).ok().unwrap();
    let out = apply_patterns(b"a foo b bar", &options.patterns, false).unwrap();
    assert_eq!(out, b"a baz b baz".to_vec());
    assert_eq!(apply_patterns(b"nothing here", &options.patterns, false), None);
}

#[test]
fn literal_mappings_escape_regex_syntax() {
    let options = Options::from_config(&config_with_map(&["a.c:X"])).ok().unwrap();
    assert_eq!(apply_patterns(b"abc a.c", &options.patterns, false).unwrap(), b"abc X".to_vec());
}

#[test]
fn ignore_case_with_preserved_casing() {
    let mut config = config_with_map(&["secret:token"]);
    config.ignore_case = true;
    config.preserve_case = true;
    let options = Options::from_config(&config).ok().unwrap();
    let out = apply_patterns(b"SECRET Secret secret sEcReT", &options.patterns, true).unwrap();
    assert_eq!(out, b"TOKEN Token token tOkEn".to_vec());
}

#[test]
fn logging_variant_gives_the_same_bytes_and_one_log_per_match() {
    let options = Options::from_config(&config_with_map(&["foo:bar"])).ok().unwrap();
    let input = b"one two foo three four five\nfoo again";
    let (data, logs) = apply_patterns_with_log(input, "dir/file.txt", &options.patterns, false);
    assert_eq!(data, apply_patterns(input, &options.patterns, false));
    assert_eq!(logs.len(), 2);
    assert_eq!(logs[0].path, "dir/file.txt");
    assert_eq!(logs[0].before, "one two \x1b[31mfoo\x1b[0m three four");
    assert_eq!(logs[0].after, "one two \x1b[34mbar\x1b[0m three four");
    assert_eq!(logs[1].before, "\x1b[31mfoo\x1b[0m again");
}

#[test]
fn context_shows_two_words_each_side() {
    let (left, right) = extract_context("a b c", " d e f", "X", "Y");
    assert_eq!(left, "b c \x1b[31mX\x1b[0m d e");
    assert_eq!(right, "b c \x1b[34mY\x1b[0m d e");
    let (left, _) = extract_context("", "", "X", "Y");
    assert_eq!(left, "\x1b[31mX\x1b[0m");
}

#[test]
fn delete_globs_match_anywhere_in_the_tree() {
    let mut config = RewriteConfig::default();
    config.delete_paths = vec!["**/wily_graph_cyclomatic.html".to_string()];
    let options = Options::from_config(&config).ok().unwrap();
    assert!(matches!(decide_path(b"ml/res/wily_graph_cyclomatic.html", &options), PathDecision::Delete));
    assert!(matches!(decide_path(b"reports/wily_graph_cyclomatic.html", &options), PathDecision::Delete));
    match decide_path(b"keep.txt", &options) {
        PathDecision::Keep { new_path } => assert_eq!(new_path, b"keep.txt".to_vec()),
        _ => panic!("keep.txt is kept"),
    }
}

#[test]
fn exact_delete_paths_match_themselves() {
    let mut config = RewriteConfig::default();
    config.delete_paths = vec![" ml/res/wily_graph_cyclomatic.html ".to_string()];
    let options = Options::from_config(&config).ok().unwrap();
    assert!(matches!(decide_path(b"ml/res/wily_graph_cyclomatic.html", &options), PathDecision::Delete));
    assert!(!matches!(decide_path(b"other/wily_graph_cyclomatic.html", &options), PathDecision::Delete));
}

#[test]
fn excluded_paths_and_renames() {
    let mut config = config_with_map(&["acme:widget"]);
    config.exclude_patterns = vec!["*.lock".to_string()];
    config.rename_files = true;
    let options = Options::from_config(&config).ok().unwrap();
    assert!(matches!(decide_path(b"acme.lock", &options), PathDecision::Excluded));
    match decide_path(b"docs/acme.md", &options) {
        PathDecision::Keep { new_path } => assert_eq!(new_path, b"docs/widget.md".to_vec()),
        _ => panic!("renamed path is kept"),
    }
}

#[test]
fn blob_plans() {
    let options = Options::from_config(&config_with_map(&["acme:widget"])).ok().unwrap();
    let plan = plan_blob(b"a.txt", b"a.txt", b"acme inside", &options);
    assert_eq!(plan.content, Some(b"widget inside".to_vec()));
    assert!(plan.upsert && !plan.remove_old);
    assert_eq!(plan.logs.len(), 1);
    let plan = plan_blob(b"a.bin", b"b.bin", &[0u8, b'a', b'c', b'm', b'e'], &options);
    assert_eq!(plan.content, None);
    assert!(plan.upsert && plan.remove_old);
    assert!(plan.logs.is_empty());
    let plan = plan_blob(b"a.txt", b"a.txt", b"nothing", &options);
    assert_eq!(plan.content, None);
    assert!(!plan.upsert && !plan.remove_old);
}

#[test]
fn object_ids_are_read_in_canonical_case() {
    assert_eq!(parse_object_id(ID_C.to_uppercase().as_bytes()), Some(ID_C.as_bytes().to_vec()));
    assert_eq!(parse_object_id(b"abc"), None);
    assert_eq!(parse_object_id(b"zzzzzzzzzzzzzzzzzzzzzzzzzzzzzzzzzzzzzzzz"), None);
}

#[test]
fn kind_labels_round_trip() {
    for kind in [ObjectKind::Tree, ObjectKind::Blob, ObjectKind::Commit, ObjectKind::Tag] {
        assert_eq!(kind_from_bytes(&object_kind_label(kind)), Some(kind));
    }
    assert_eq!(kind_from_bytes(b"tags"), None);
}

#[test]
fn tag_objects_round_trip() {
    let tagger = Some(b"Test User <test@example.com> 1700000000 +0000".to_vec());
    let bytes = build_tag_bytes(ID_A.as_bytes(), ObjectKind::Commit, b"v1.0.0", &tagger, b"release\n");
    assert_eq!(
        bytes,
        format!(
            "object {ID_A}\ntype commit\ntag v1.0.0\ntagger Test User <test@example.com> 1700000000 +0000\n\nrelease\n"
        )
        .into_bytes()
    );
    let tag = parse_tag_object(&bytes).ok().unwrap();
    assert_eq!(tag.target, ID_A.as_bytes().to_vec());
    assert_eq!(tag.kind, ObjectKind::Commit);
    assert_eq!(tag.name, b"v1.0.0".to_vec());
    assert_eq!(tag.tagger, tagger);
    assert_eq!(tag.message, b"release\n".to_vec());
}

#[test]
fn tag_signatures_are_cut_from_the_message() {
    let data = format!(
        "object {ID_B}\ntype tag\ntag nested\n\nmessage\n-----BEGIN PGP SIGNATURE-----\nabc\n"
    );
    let tag = parse_tag_object(data.as_bytes()).ok().unwrap();
    assert_eq!(tag.kind, ObjectKind::Tag);
    assert_eq!(tag.tagger, None);
    assert_eq!(tag.message, b"message\n".to_vec());
}

#[test]
fn tag_errors() {
    assert!(matches!(parse_tag_object(b"object x"), Err(TagError::MissingHeaderEnd)));
    assert!(matches!(parse_tag_object(b"object nothex\n\n"), Err(TagError::BadObjectId)));
    let bad_kind = format!("object {ID_A}\ntype thing\n\n");
    assert!(matches!(parse_tag_object(bad_kind.as_bytes()), Err(TagError::BadKind)));
    assert!(matches!(parse_tag_object(b"type tag\n\n"), Err(TagError::MissingObject)));
    let no_type = format!("object {ID_A}\ntag t\n\n");
    assert!(matches!(parse_tag_object(no_type.as_bytes()), Err(TagError::MissingType)));
    let no_name = format!("object {ID_A}\ntype commit\n\n");
    assert!(matches!(parse_tag_object(no_name.as_bytes()), Err(TagError::MissingName)));
}

#[test]
fn commit_bytes_layout() {
    let parents = vec![ID_B.as_bytes().to_vec()];
    let bytes = build_commit_bytes(
        ID_A.as_bytes(),
        &parents,
        b"A <a@x> 1 +0000",
        b"C <c@x> 2 +0000",
        &Some(b"ISO-8859-1".to_vec()),
        b"msg\n",
    );
    let expected = format!(
        "tree {ID_A}\nparent {ID_B}\nauthor A <a@x> 1 +0000\ncommitter C <c@x> 2 +0000\nencoding ISO-8859-1\n\nmsg\n"
    );
    assert_eq!(bytes, expected.into_bytes());
}

#[test]
fn commit_map_reads_back_latest_record() {
    let mut map = CommitMap::new();
    map.record(ID_A.as_bytes(), ID_B.as_bytes());
    assert_eq!(map.lookup(ID_A.as_bytes()), Some(ID_B.as_bytes().to_vec()));
    map.record(ID_A.as_bytes(), ID_C.as_bytes());
    assert_eq!(map.lookup(ID_A.as_bytes()), Some(ID_C.as_bytes().to_vec()));
    assert_eq!(map.lookup(ID_D.as_bytes()), None);
    assert_eq!(map.len(), 2);
}

#[test]
fn commit_ids_in_messages_follow_the_rewrite() {
    let mut map = CommitMap::new();
    map.record(ID_C.as_bytes(), ID_D.as_bytes());
    let ids = commit_id_matcher().unwrap();
    let message = format!("Reverts {ID_C}.\nSee 1234567 and 7777777.\n");
    let out = rewrite_commit_ids(message.as_bytes(), &map, &ids);
    assert_eq!(out, format!("Reverts {ID_D}.\nSee fedcba0 and 7777777.\n").into_bytes());
    assert_eq!(commit_id_replacement(b"1234567890", &map), b"fedcba0987".to_vec());
    let empty = CommitMap::new();
    assert_eq!(rewrite_commit_ids(message.as_bytes(), &empty, &ids), message.into_bytes());
}

#[test]
fn ambiguous_abbreviations_stay() {
    let mut map = CommitMap::new();
    map.record(b"abcdef1111111111111111111111111111111111", ID_A.as_bytes());
    map.record(b"abcdef2222222222222222222222222222222222", ID_B.as_bytes());
    let ids = commit_id_matcher().unwrap();
    assert_eq!(rewrite_commit_ids(b"see abcdef1", &map, &ids), b"see aaaaaaa".to_vec());
    assert_eq!(rewrite_commit_ids(b"see abcdef1 abcdef2", &map, &ids), b"see aaaaaaa bbbbbbb".to_vec());
    assert_eq!(rewrite_commit_ids(b"see abcdef0", &map, &ids), b"see abcdef0".to_vec());
    assert_eq!(commit_id_replacement(b"abcdef", &map), b"abcdef".to_vec());
}

fn identity_options(old_name: Option<&str>) -> Options {
    let mut config = RewriteConfig::default();
    config.new_name = Some("New Name".to_string());
    config.new_email = Some("new@example.com".to_string());
    config.old_name = old_name.map(|n| n.to_string());
    config.old_emails = vec!["Old@Example.com".to_string()];
    Options::from_config(&config).ok().unwrap()
}

#[test]
fn signatures_of_old_emails_are_rewritten() {
    let options = identity_options(None);
    let raw = b"Old Person <OLD@example.com> 1700000000 +0100";
    let sig = Signature {
        name: b"Old Person".to_vec(),
        email: b"OLD@example.com".to_vec(),
        time: b"1700000000 +0100".to_vec(),
    };
    let (line, changed) = rewrite_signature_line(raw, &sig, &options);
    assert!(changed);
    assert_eq!(line, b"New Name <new@example.com> 1700000000 +0100".to_vec());
    let other = Signature { name: b"X".to_vec(), email: b"x@y".to_vec(), time: b"1 +0000".to_vec() };
    let (line, changed) = rewrite_signature_line(b"X <x@y> 1 +0000", &other, &options);
    assert!(!changed);
    assert_eq!(line, b"X <x@y> 1 +0000".to_vec());
}

#[test]
fn old_name_must_match_when_given() {
    let options = identity_options(Some("someone else"));
    let sig = Signature { name: b"Old Person".to_vec(), email: b"old@example.com".to_vec(), time: b"1 +0000".to_vec() };
    let (_, changed) = rewrite_signature_line(b"Old Person <old@example.com> 1 +0000", &sig, &options);
    assert!(!changed);
    let options = identity_options(Some("OLD person"));
    let (_, changed) = rewrite_signature_line(b"Old Person <old@example.com> 1 +0000", &sig, &options);
    assert!(changed);
}

#[test]
fn lower_bytes_decodes_leniently() {
    assert_eq!(lower_bytes(b"MiXeD"), "mixed");
    assert_eq!(lower_bytes(&[0x41, 0xff]), "a\u{fffd}");
}

#[test]
fn commits_are_prepared_and_finished() {
    let options = identity_options(None);
    let raw = format!(
        "tree {ID_A}\nparent {ID_B}\nauthor Old Person <old@example.com> 1700000000 +0000\ncommitter Other <o@x.org> 1700000001 +0000\n\nFixes {ID_B}\n"
    );
    let mut map = CommitMap::new();
    map.record(ID_B.as_bytes(), ID_C.as_bytes());
    let ids = commit_id_matcher().unwrap();
    let prepared = prepare_commit(raw.as_bytes(), &options, &map, &ids).ok().unwrap();
    assert_eq!(prepared.tree, ID_A.as_bytes().to_vec());
    assert_eq!(prepared.author, b"New Name <new@example.com> 1700000000 +0000".to_vec());
    assert_eq!(prepared.committer, b"Other <o@x.org> 1700000001 +0000".to_vec());
    assert_eq!(prepared.message, format!("Fixes {ID_C}\n").into_bytes());
    let bytes = finish_commit(&prepared, ID_D.as_bytes(), &map).ok().unwrap();
    let expected = format!(
        "tree {ID_D}\nparent {ID_C}\nauthor New Name <new@example.com> 1700000000 +0000\ncommitter Other <o@x.org> 1700000001 +0000\n\nFixes {ID_C}\n"
    );
    assert_eq!(bytes, expected.into_bytes());
    let empty = CommitMap::new();
    match finish_commit(&prepared, ID_D.as_bytes(), &empty) {
        Err(CommitError::MissingParent { parent }) => assert_eq!(parent, ID_B.as_bytes().to_vec()),
        _ => panic!("the parent was not rewritten"),
    }
    assert!(matches!(prepare_commit(b"not a commit", &options, &map, &ids), Err(CommitError::Unreadable)));
}
