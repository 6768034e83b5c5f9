use gitkat::casing::{is_binary, is_lower, is_title, is_upper, preserve_case};
use gitkat::mapping::{build_bfg_replace_text, build_blob_map_env, parse_blob_map, parse_mapping, regexify_blob_map};
use gitkat::text::{serialize_lines, split_comma_args, to_opt};

#[test]
fn preserve_case_copies_whole_word_casing() {
    assert_eq!(preserve_case(b"HELLO", b"world"), b"WORLD".to_vec());
    assert_eq!(preserve_case(b"hello", b"WoRlD"), b"world".to_vec());
    assert_eq!(preserve_case(b"Hello", b"wORLD"), b"World".to_vec());
}

#[test]
fn preserve_case_mirrors_mixed_casing() {
    assert_eq!(preserve_case(b"hElLo", b"abcdefg"), b"aBcDefg".to_vec());
    assert_eq!(preserve_case(b"a1B", b"xyz"), b"xyZ".to_vec());
}

#[test]
fn preserve_case_keeps_empty_replacement_empty() {
    assert_eq!(preserve_case(b"HELLO", b""), Vec::<u8>::new());
}

#[test]
fn preserve_case_on_its_own_output_is_stable() {
    let once = preserve_case(b"Secret", b"token");
    assert_eq!(preserve_case(b"Secret", &once), once);
}

#[test]
fn case_classes() {
    assert!(is_upper(b"ABC-1"));
    assert!(!is_upper(b"123"));
    assert!(is_lower(b"abc_1"));
    assert!(!is_lower(b"aBc"));
    assert!(is_title(b"Hello"));
    assert!(!is_title(b"HeLlo"));
    assert!(!is_title(b""));
}

#[test]
fn binary_means_a_zero_byte() {
    assert!(is_binary(&[0u8, 1, 2, 3, 4]));
    assert!(!is_binary(b"hello\n"));
}

#[test]
fn mapping_splits_at_first_unescaped_colon() {
    let (old, new) = parse_mapping("a\\:b:c:d").ok().unwrap();
    assert_eq!(old, "a:b");
    assert_eq!(new, "c:d");
    let (old, new) = parse_mapping("foo:").ok().unwrap();
    assert_eq!(old, "foo");
    assert_eq!(new, "");
}

#[test]
fn mapping_without_colon_is_an_error() {
    let err = parse_mapping("no-separator").err().unwrap();
    assert_eq!(err.entry, "no-separator");
    let err = parse_mapping("escaped\\:only").err().unwrap();
    assert_eq!(err.entry, "escaped\\:only");
}

#[test]
fn blob_map_check_names_first_bad_entry() {
    let entries = vec!["a:b".to_string(), "bad".to_string(), "worse".to_string()];
    let err = parse_blob_map(&entries).err().unwrap();
    assert_eq!(err.entry, "bad");
    let good = vec!["a:b".to_string(), "c:d".to_string()];
    assert_eq!(parse_blob_map(&good).ok().unwrap(), good);
}

#[test]
fn blob_map_texts_for_other_tools() {
    let entries = vec!["old:new".to_string(), "a\\:b:c".to_string()];
    assert_eq!(build_blob_map_env(&entries).ok().unwrap(), "old\tnew\na:b\tc");
    assert_eq!(build_bfg_replace_text(&entries).ok().unwrap(), "old==>new\na:b==>c");
    let bad = vec!["nope".to_string()];
    assert_eq!(build_blob_map_env(&bad).err().unwrap().entry, "nope");
    assert_eq!(build_bfg_replace_text(&bad).err().unwrap().entry, "nope");
}

#[test]
fn regexify_escapes_old_side_and_drops_bad_entries() {
    let entries = vec!["a.b:c".to_string(), "bad".to_string(), "x+y:z".to_string()];
    assert_eq!(regexify_blob_map(&entries), vec!["a\\.b:c".to_string(), "x\\+y:z".to_string()]);
}

#[test]
fn comma_arguments_are_split_and_trimmed() {
    let values = vec!["a@x.com, b@y.com".to_string(), " ,c@z.com,".to_string()];
    assert_eq!(
        split_comma_args(&values),
        vec!["a@x.com".to_string(), "b@y.com".to_string(), "c@z.com".to_string()]
    );
}

#[test]
fn blank_values_are_absent() {
    assert_eq!(to_opt("   "), None);
    assert_eq!(to_opt(""), None);
    assert_eq!(to_opt(" x "), Some(" x ".to_string()));
}

#[test]
fn lines_are_joined_with_newlines() {
    let values = vec!["one".to_string(), "two".to_string()];
    assert_eq!(serialize_lines(&values), "one\ntwo");
    assert_eq!(serialize_lines(&Vec::new()), "");
}
