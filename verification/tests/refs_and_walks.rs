use gitkat::cli::unique_emails;
use gitkat::commit::CommitMap;
use gitkat::objects::{ObjectKind, RawTag};
use gitkat::order::{bytes_lt, sorted_unique_bytes, sorted_unique_text, text_lt};
use gitkat::repo::{
    is_remote_ref, is_rewritable_ref, object_links, parse_cat_file, parse_rev_list, retarget, retarget_tag,
    CatFileError, LinkError, ObjectWalk, Retarget,
};
use gitkat::transfer::{sort_refs, ExportRef};

const A: &str = "aaaaaaaaaaaaaaaaaaaaaaaaaaaaaaaaaaaaaaaa";
const B: &str = "bbbbbbbbbbbbbbbbbbbbbbbbbbbbbbbbbbbbbbbb";
const C: &str = "cccccccccccccccccccccccccccccccccccccccc";

fn hex(s: &str) -> Vec<u8> {
    s.as_bytes().to_vec()
}

#[test]
fn backup_and_replacement_refs_are_left_alone() {
    assert!(is_rewritable_ref(b"refs/heads/main"));
    assert!(is_rewritable_ref(b"refs/tags/v1"));
    assert!(!is_rewritable_ref(b"refs/original/refs/heads/main"));
    assert!(!is_rewritable_ref(b"refs/replace/abc"));
    assert!(is_remote_ref(b"refs/remotes/origin/main"));
    assert!(!is_remote_ref(b"refs/heads/remotes"));
}

#[test]
fn refs_follow_their_rewritten_commits() {
    let mut map = CommitMap::new();
    map.record(A.as_bytes(), B.as_bytes());
    assert!(matches!(retarget(ObjectKind::Commit, A.as_bytes(), &map), Retarget::Commit { id } if id == hex(B)));
    assert!(matches!(retarget(ObjectKind::Commit, C.as_bytes(), &map), Retarget::MissingCommit));
    assert!(matches!(retarget(ObjectKind::Tag, C.as_bytes(), &map), Retarget::Tag { id } if id == hex(C)));
    assert!(matches!(retarget(ObjectKind::Tree, A.as_bytes(), &map), Retarget::Keep));
    assert!(matches!(retarget(ObjectKind::Blob, A.as_bytes(), &map), Retarget::Keep));

    let tag = RawTag {
        target: hex(A),
        kind: ObjectKind::Commit,
        name: b"v1".to_vec(),
        tagger: None,
        message: b"release\n".to_vec(),
    };
    assert!(matches!(retarget_tag(&tag, &map), Retarget::Commit { id } if id == hex(B)));
}

#[test]
fn commit_links_are_tree_then_parents() {
    let data = format!(
        "tree {A}\nparent {B}\nparent {C}\nauthor A U Thor <a@example.com> 1 +0000\ncommitter A U Thor <a@example.com> 1 +0000\n\nmessage\n"
    );
    let links = object_links(ObjectKind::Commit, data.as_bytes()).ok().unwrap();
    assert_eq!(links, vec![hex(A), hex(B), hex(C)]);
    assert_eq!(object_links(ObjectKind::Commit, b"not a commit").err(), Some(LinkError::BadCommit));
}

#[test]
fn tree_links_skip_submodules() {
    let mut data = Vec::new();
    data.extend_from_slice(b"100644 a.txt\0");
    data.extend_from_slice(&[0xaa; 20]);
    data.extend_from_slice(b"160000 sub\0");
    data.extend_from_slice(&[0xbb; 20]);
    data.extend_from_slice(b"40000 dir\0");
    data.extend_from_slice(&[0xcc; 20]);
    let links = object_links(ObjectKind::Tree, &data).ok().unwrap();
    assert_eq!(links, vec![hex(A), hex(C)]);
}

#[test]
fn tag_links_and_blob_links() {
    let data = format!("object {C}\ntype commit\ntag v1\ntagger T <t@example.com> 1 +0000\n\nrelease\n");
    assert_eq!(object_links(ObjectKind::Tag, data.as_bytes()).ok().unwrap(), vec![hex(C)]);
    assert_eq!(object_links(ObjectKind::Blob, b"anything").ok().unwrap(), Vec::<Vec<u8>>::new());
}

#[test]
fn object_walk_visits_each_object_once_in_stack_order() {
    let mut walk = ObjectWalk::new(&vec![hex(A), hex(B)]);
    let first = walk.next().unwrap();
    assert_eq!(first, hex(B));
    walk.push_links(&vec![hex(C), hex(A)]);
    assert_eq!(walk.next().unwrap(), hex(A));
    assert_eq!(walk.next().unwrap(), hex(C));
    walk.push_links(&vec![hex(B)]);
    assert_eq!(walk.next(), None);
    assert_eq!(walk.finish(), vec![hex(A), hex(B), hex(C)]);
}

#[test]
fn cat_file_output_is_located() {
    let out = format!("{A} blob 5\nhello\n");
    let header_len = A.len() + " blob 5".len();
    let (kind, start, end) = parse_cat_file(out.as_bytes(), A).ok().unwrap();
    assert_eq!(kind, ObjectKind::Blob);
    assert_eq!((start, end), (header_len + 1, header_len + 6));
    assert_eq!(&out.as_bytes()[start..end], b"hello");

    assert_eq!(parse_cat_file(format!("{A} missing\n").as_bytes(), A).err(), Some(CatFileError::ReportedMissing));
    assert_eq!(parse_cat_file(out.as_bytes(), B).err(), Some(CatFileError::IdMismatch));
    assert_eq!(parse_cat_file(format!("{A} blob 9\nhello\n").as_bytes(), A).err(), Some(CatFileError::Truncated));
    assert_eq!(parse_cat_file(format!("{A} blob 4\nhello\n").as_bytes(), A).err(), Some(CatFileError::MissingNewline));
    assert_eq!(parse_cat_file(format!("{A} blob x\nhello\n").as_bytes(), A).err(), Some(CatFileError::BadSize));
    assert_eq!(parse_cat_file(format!("{A} thing 5\nhello\n").as_bytes(), A).err(), Some(CatFileError::BadKind));
    assert_eq!(parse_cat_file(format!("{A} blob").as_bytes(), A).err(), Some(CatFileError::MissingHeaderNewline));
    assert_eq!(parse_cat_file(format!("{A}\n").as_bytes(), A).err(), Some(CatFileError::MissingKind));
    assert_eq!(parse_cat_file(format!("{A} blob\n").as_bytes(), A).err(), Some(CatFileError::MissingSize));
}

#[test]
fn rev_list_output_is_read_as_ids() {
    let out = format!("{A}\n{}\n", B.to_uppercase());
    assert_eq!(parse_rev_list(out.as_bytes()).ok().unwrap(), vec![hex(A), hex(B)]);
    assert_eq!(parse_rev_list(b"").ok().unwrap(), Vec::<Vec<u8>>::new());
    let bad = format!("{A}\nnot-an-id\n{B}\n");
    assert_eq!(parse_rev_list(bad.as_bytes()).err(), Some("not-an-id".to_string()));
}

#[test]
fn refs_are_sorted_by_name_stably() {
    let refs = vec![
        ExportRef { name: "refs/tags/v1".to_string(), target: hex(A) },
        ExportRef { name: "refs/heads/main".to_string(), target: hex(B) },
        ExportRef { name: "refs/heads/dev".to_string(), target: hex(C) },
    ];
    let sorted = sort_refs(refs);
    let names = sorted.iter().map(|r| r.name.clone()).collect::<Vec<_>>();
    assert_eq!(names, vec!["refs/heads/dev", "refs/heads/main", "refs/tags/v1"]);
    assert_eq!(sorted[0].target, hex(C));

    let same = vec![
        ExportRef { name: "refs/heads/x".to_string(), target: hex(B) },
        ExportRef { name: "refs/heads/a".to_string(), target: hex(C) },
        ExportRef { name: "refs/heads/x".to_string(), target: hex(A) },
    ];
    let sorted = sort_refs(same);
    let targets = sorted.iter().map(|r| r.target.clone()).collect::<Vec<_>>();
    assert_eq!(targets, vec![hex(C), hex(B), hex(A)]);
}

#[test]
fn sorted_sets_of_bytes_and_text() {
    assert!(bytes_lt(b"ab", b"b"));
    assert!(bytes_lt(b"a", b"ab"));
    assert!(!bytes_lt(b"b", b"b"));
    assert!(text_lt("Zed", "alpha"));
    assert!(!text_lt("beta", "alpha"));
    assert_eq!(
        sorted_unique_bytes(&vec![hex(C), hex(A), hex(C), hex(B)]),
        vec![hex(A), hex(B), hex(C)]
    );
    assert_eq!(
        sorted_unique_text(&vec!["b".to_string(), "a".to_string(), "b".to_string()]),
        vec!["a".to_string(), "b".to_string()]
    );
}

#[test]
fn report_lists_each_email_once_in_order() {
    let output = "z@example.com\n a@example.com \n\nz@example.com\nm@example.com\n";
    assert_eq!(unique_emails(output), vec!["a@example.com", "m@example.com", "z@example.com"]);
    assert!(unique_emails("").is_empty());
}

#[test]
fn commit_map_finds_ids_recorded_in_any_order() {
    let mut map = CommitMap::new();
    map.record(C.as_bytes(), A.as_bytes());
    map.record(A.as_bytes(), B.as_bytes());
    map.record(B.as_bytes(), C.as_bytes());
    map.record(A.as_bytes(), C.as_bytes());
    assert_eq!(map.lookup(A.as_bytes()), Some(hex(C)));
    assert_eq!(map.lookup(B.as_bytes()), Some(hex(C)));
    assert_eq!(map.lookup(C.as_bytes()), Some(hex(A)));
    assert_eq!(map.lookup(b"dddddddddddddddddddddddddddddddddddddddd"), None);
    assert_eq!(map.lookup(b""), None);
    assert_eq!(map.len(), 4);
}
