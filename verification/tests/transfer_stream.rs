use gitkat::objects::ObjectKind;
use gitkat::transfer::{
    decimal_text, next_object, next_ref, parse_object_header, parse_ref_line, parse_usize,
    read_header, read_line_at, write_end_objects, write_end_refs, write_header, write_object,
    write_ref, ImportError, ObjectStep, RefStep,
};

const ID_A: &str = "aaaaaaaaaaaaaaaaaaaaaaaaaaaaaaaaaaaaaaaa";
const ID_B: &str = "0123456789abcdef0123456789abcdef01234567";

#[test]
fn sizes_parse_like_usize() {
    assert_eq!(parse_usize("0"), Some(0));
    assert_eq!(parse_usize("+12"), Some(12));
    assert_eq!(parse_usize("18446744073709551615"), Some(usize::MAX));
    assert_eq!(parse_usize("18446744073709551616"), None);
    assert_eq!(parse_usize(""), None);
    assert_eq!(parse_usize("+"), None);
    assert_eq!(parse_usize("-1"), None);
    assert_eq!(parse_usize("1 2"), None);
}

#[test]
fn sizes_print_in_decimal() {
    assert_eq!(decimal_text(0), "0");
    assert_eq!(decimal_text(1234), "1234");
    assert_eq!(decimal_text(usize::MAX), usize::MAX.to_string());
}

#[test]
fn ref_lines() {
    let r = parse_ref_line(&format!("ref refs/heads/main {ID_A}")).ok().unwrap();
    assert_eq!(r.name, "refs/heads/main");
    assert_eq!(r.target, ID_A.as_bytes().to_vec());
    assert!(matches!(parse_ref_line("reff x y"), Err(ImportError::InvalidRefLine)));
    assert!(matches!(parse_ref_line("ref"), Err(ImportError::MissingRefName)));
    assert!(matches!(parse_ref_line("ref name"), Err(ImportError::MissingRefTarget)));
    assert!(matches!(parse_ref_line("ref name xyz"), Err(ImportError::BadRefId)));
}

#[test]
fn object_lines() {
    let (id, kind, size) = parse_object_header(&format!("object {ID_B} blob 12")).ok().unwrap();
    assert_eq!(id, ID_B.as_bytes().to_vec());
    assert_eq!(kind, ObjectKind::Blob);
    assert_eq!(size, 12);
    assert!(matches!(parse_object_header("objects"), Err(ImportError::InvalidObjectLine)));
    assert!(matches!(parse_object_header("object"), Err(ImportError::MissingObjectId)));
    assert!(matches!(parse_object_header("object x"), Err(ImportError::MissingObjectKind)));
    assert!(matches!(parse_object_header("object x blob"), Err(ImportError::MissingObjectSize)));
    assert!(matches!(parse_object_header("object x blob 1"), Err(ImportError::BadObjectId)));
    let bad_kind = format!("object {ID_B} blub 1");
    assert!(matches!(parse_object_header(&bad_kind), Err(ImportError::BadObjectKind)));
    let bad_size = format!("object {ID_B} blob one");
    assert!(matches!(parse_object_header(&bad_size), Err(ImportError::BadObjectSize)));
}

#[test]
fn lines_are_read_and_trimmed_at_the_end() {
    let data = b"first  \r\nsecond";
    let (line, next) = read_line_at(data, 0).ok().unwrap().unwrap();
    assert_eq!(line, "first");
    assert_eq!(next, 9);
    let (line, next) = read_line_at(data, next).ok().unwrap().unwrap();
    assert_eq!(line, "second");
    assert_eq!(next, data.len());
    assert!(read_line_at(data, next).ok().unwrap().is_none());
    assert!(matches!(read_line_at(&[0xff, b'\n'], 0), Err(ImportError::InvalidUtf8)));
}

#[test]
fn export_stream_reads_back() {
    let mut stream = write_header();
    stream.extend(write_ref("refs/heads/main", ID_A.as_bytes()));
    stream.extend(write_ref("refs/tags/v1.0.0", ID_B.as_bytes()));
    stream.extend(write_end_refs());
    stream.extend(write_object(ID_A.as_bytes(), ObjectKind::Blob, &[0u8, 1, 2, b'\n', 4]));
    stream.extend(write_object(ID_B.as_bytes(), ObjectKind::Tag, b"tag data\n"));
    stream.extend(write_end_objects());
    assert!(stream.starts_with(b"gix-fast-export-1\nref refs/heads/main "));

    let mut pos = read_header(&stream).ok().unwrap();
    let mut refs = Vec::new();
    loop {
        match next_ref(&stream, pos).ok().unwrap() {
            RefStep::End { next } => {
                pos = next;
                break;
            }
            RefStep::Entry { entry, next } => {
                refs.push((entry.name, entry.target));
                pos = next;
            }
        }
    }
    assert_eq!(
        refs,
        vec![
            ("refs/heads/main".to_string(), ID_A.as_bytes().to_vec()),
            ("refs/tags/v1.0.0".to_string(), ID_B.as_bytes().to_vec()),
        ]
    );
    let mut objects = Vec::new();
    loop {
        match next_object(&stream, pos).ok().unwrap() {
            ObjectStep::End { next } => {
                pos = next;
                break;
            }
            ObjectStep::Record { id, kind, start, end, next } => {
                objects.push((id, kind, stream[start..end].to_vec()));
                pos = next;
            }
        }
    }
    assert_eq!(pos, stream.len());
    assert_eq!(objects.len(), 2);
    assert_eq!(objects[0], (ID_A.as_bytes().to_vec(), ObjectKind::Blob, vec![0u8, 1, 2, b'\n', 4]));
    assert_eq!(objects[1], (ID_B.as_bytes().to_vec(), ObjectKind::Tag, b"tag data\n".to_vec()));
}

#[test]
fn stream_errors() {
    assert!(matches!(read_header(b"not-a-stream\n"), Err(ImportError::BadHeader)));
    assert!(matches!(read_header(b""), Err(ImportError::BadHeader)));
    let stream = b"gix-fast-export-1\n";
    let pos = read_header(stream).ok().unwrap();
    assert!(matches!(next_ref(stream, pos), Err(ImportError::UnexpectedEndRefs)));
    let refs_done = b"end-refs\n";
    assert!(matches!(next_object(refs_done, 9), Err(ImportError::UnexpectedEndObjects)));
    let short = format!("object {ID_A} blob 10\nabc");
    assert!(matches!(next_object(short.as_bytes(), 0), Err(ImportError::TruncatedObject)));
    let no_newline = format!("object {ID_A} blob 3\nabcX");
    assert!(matches!(next_object(no_newline.as_bytes(), 0), Err(ImportError::MissingNewline)));
}
