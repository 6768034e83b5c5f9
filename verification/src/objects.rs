//! Git object ids, kinds, and the byte encoding of commit and tag objects.
use vstd::prelude::*;
use crate::bytes::{bytes_eq, extend_all, find, find_bytes, split_bytes, split_seq, vec_views};
use crate::casing::slice_range;

verus! {

/// A hexadecimal digit, either case.
pub open spec fn hex_digit(b: u8) -> bool {
    (48 <= b && b <= 57) || (97 <= b && b <= 102) || (65 <= b && b <= 70)
}

/// The value of a hexadecimal digit.
pub open spec fn hex_value(b: u8) -> int {
    if 48 <= b && b <= 57 {
        b - 48
    } else if 97 <= b && b <= 102 {
        b - 87
    } else {
        b - 55
    }
}

/// The lower-case hex digit of a value below 16.
pub open spec fn hex_char(v: int) -> u8 {
    if v < 10 {
        (48 + v) as u8
    } else {
        (87 + v) as u8
    }
}

/// Lower-case hex, two digits per byte, high nibble first.
pub open spec fn hex_encode(b: Seq<u8>) -> Seq<u8> {
    Seq::new(
        2 * b.len(),
        |i: int|
            if i % 2 == 0 {
                hex_char((b[i / 2] / 16) as int)
            } else {
                hex_char((b[i / 2] % 16) as int)
            },
    )
}

/// The raw id bytes that `gix_hash::ObjectId::from_hex` decodes from `hex`.
pub uninterp spec fn object_id_from_hex(hex: Seq<u8>) -> Option<Seq<u8>>;

/// Calls `gix_hash::ObjectId::from_hex` and returns the id's bytes. Claimed,
/// from the source: a 40-digit hex string (either case) always decodes;
/// whatever decodes is made of hex digits, two per byte, high nibble first.
/// Whether 64-digit strings decode depends on the hash kinds compiled in,
/// and is left unsaid.
#[verifier::external_body]
fn decode_object_id(hex: &[u8]) -> (r: Option<Vec<u8>>)
    ensures
        opt_view(r) == object_id_from_hex(hex@),
        hex@.len() == 40 && (forall|i: int| 0 <= i < 40 ==> hex_digit(#[trigger] hex@[i]))
            ==> r is Some,
        r matches Some(b) ==> {
            &&& hex@.len() == 2 * b@.len()
            &&& forall|i: int| 0 <= i < hex@.len() ==> hex_digit(#[trigger] hex@[i])
            &&& forall|i: int|
                0 <= i < b@.len() ==> #[trigger] b@[i] == hex_value(hex@[2 * i]) * 16 + hex_value(
                    hex@[2 * i + 1],
                )
        },
{
    gix_hash::ObjectId::from_hex(hex).ok().map(|id| id.as_bytes().to_vec())
}

/// The canonical (lower-case) hex form of an id, if `hex` is one.
pub open spec fn id_hex(hex: Seq<u8>) -> Option<Seq<u8>> {
    match object_id_from_hex(hex) {
        Some(b) => Some(hex_encode(b)),
        None => None,
    }
}

/// The lower-case hex digit of a value below sixteen.
pub fn hex_digit_of(v: u8) -> (r: u8)
    requires
        v < 16,
    ensures
        r == hex_char(v as int),
{
    if v < 10 {
        48 + v
    } else {
        87 + v
    }
}

/// Lower-case hex of the bytes.
pub fn to_hex(b: &[u8]) -> (r: Vec<u8>)
    ensures
        r@ == hex_encode(b@),
{
    let mut out: Vec<u8> = Vec::new();
    let mut i: usize = 0;
    while i < b.len()
        invariant
            i <= b@.len(),
            out@ == hex_encode(b@).take(2 * i as int),
        decreases b@.len() - i,
    {
        let v = b[i];
        out.push(hex_digit_of(v / 16));
        out.push(hex_digit_of(v % 16));
        proof {
            let h = hex_encode(b@);
            assert((2 * i) % 2 == 0 && (2 * i) / 2 == i);
            assert((2 * i + 1) % 2 == 1 && (2 * i + 1) / 2 == i);
            assert(out@ =~= h.take(2 * i + 2));
        }
        i = i + 1;
    }
    assert(hex_encode(b@).take((2 * b@.len()) as int) =~= hex_encode(b@));
    out
}

/// The canonical lower-case hex of the id that `hex` names, if it names one.
pub fn parse_object_id(hex: &[u8]) -> (r: Option<Vec<u8>>)
    ensures
        opt_view(r) == id_hex(hex@),
        hex@.len() == 40 && (forall|i: int| 0 <= i < 40 ==> hex_digit(#[trigger] hex@[i])) ==> r is Some,
{
    match decode_object_id(hex) {
        Some(b) => Some(to_hex(b.as_slice())),
        None => None,
    }
}

/// The four kinds of git object.
#[derive(PartialEq, Eq, Structural, Clone, Copy, Debug)]
pub enum ObjectKind {
    Tree,
    Blob,
    Commit,
    Tag,
}

pub open spec fn kind_label(k: ObjectKind) -> Seq<u8> {
    match k {
        ObjectKind::Tree => seq![116u8, 114, 101, 101],
        ObjectKind::Blob => seq![98u8, 108, 111, 98],
        ObjectKind::Commit => seq![99u8, 111, 109, 109, 105, 116],
        ObjectKind::Tag => seq![116u8, 97, 103],
    }
}

/// The kind a label names: `tree`, `blob`, `commit` or `tag`.
pub open spec fn kind_named(s: Seq<u8>) -> Option<ObjectKind> {
    if s == kind_label(ObjectKind::Tree) {
        Some(ObjectKind::Tree)
    } else if s == kind_label(ObjectKind::Blob) {
        Some(ObjectKind::Blob)
    } else if s == kind_label(ObjectKind::Commit) {
        Some(ObjectKind::Commit)
    } else if s == kind_label(ObjectKind::Tag) {
        Some(ObjectKind::Tag)
    } else {
        None
    }
}

/// The label of a kind, as git writes it in object headers.
pub fn object_kind_label(kind: ObjectKind) -> (r: Vec<u8>)
    ensures
        r@ == kind_label(kind),
{
    match kind {
        ObjectKind::Tree => vec![116u8, 114, 101, 101],
        ObjectKind::Blob => vec![98u8, 108, 111, 98],
        ObjectKind::Commit => vec![99u8, 111, 109, 109, 105, 116],
        ObjectKind::Tag => vec![116u8, 97, 103],
    }
}

/// The kind a label names.
pub fn kind_from_bytes(s: &[u8]) -> (r: Option<ObjectKind>)
    ensures
        r == kind_named(s@),
{
    let tree = object_kind_label(ObjectKind::Tree);
    let blob = object_kind_label(ObjectKind::Blob);
    let commit = object_kind_label(ObjectKind::Commit);
    let tag = object_kind_label(ObjectKind::Tag);
    if bytes_eq(s, tree.as_slice()) {
        Some(ObjectKind::Tree)
    } else if bytes_eq(s, blob.as_slice()) {
        Some(ObjectKind::Blob)
    } else if bytes_eq(s, commit.as_slice()) {
        Some(ObjectKind::Commit)
    } else if bytes_eq(s, tag.as_slice()) {
        Some(ObjectKind::Tag)
    } else {
        None
    }
}

pub open spec fn kw_object() -> Seq<u8> {
    seq![111u8, 98, 106, 101, 99, 116, 32]
}

pub open spec fn kw_type() -> Seq<u8> {
    seq![116u8, 121, 112, 101, 32]
}

pub open spec fn kw_tag() -> Seq<u8> {
    seq![116u8, 97, 103, 32]
}

pub open spec fn kw_tagger() -> Seq<u8> {
    seq![116u8, 97, 103, 103, 101, 114, 32]
}

pub open spec fn kw_tree() -> Seq<u8> {
    seq![116u8, 114, 101, 101, 32]
}

pub open spec fn kw_parent() -> Seq<u8> {
    seq![112u8, 97, 114, 101, 110, 116, 32]
}

pub open spec fn kw_author() -> Seq<u8> {
    seq![97u8, 117, 116, 104, 111, 114, 32]
}

pub open spec fn kw_committer() -> Seq<u8> {
    seq![99u8, 111, 109, 109, 105, 116, 116, 101, 114, 32]
}

pub open spec fn kw_encoding() -> Seq<u8> {
    seq![101u8, 110, 99, 111, 100, 105, 110, 103, 32]
}

/// `\n-----BEGIN PGP SIGNATURE-----`
pub open spec fn pgp_marker() -> Seq<u8> {
    seq![
        10u8, 45, 45, 45, 45, 45, 66, 69, 71, 73, 78, 32, 80, 71, 80, 32, 83, 73, 71, 78, 65, 84,
        85, 82, 69, 45, 45, 45, 45, 45,
    ]
}

pub open spec fn nl() -> Seq<u8> {
    seq![10u8]
}

/// A header line: keyword, value, newline.
pub open spec fn header_line(kw: Seq<u8>, value: Seq<u8>) -> Seq<u8> {
    kw + value + nl()
}

/// The parent lines of a commit.
pub open spec fn parent_lines(parents: Seq<Seq<u8>>) -> Seq<u8>
    decreases parents.len(),
{
    if parents.len() == 0 {
        Seq::empty()
    } else {
        parent_lines(parents.drop_last()) + header_line(kw_parent(), parents.last())
    }
}

/// A commit object: tree, parents, author, committer, optional encoding,
/// a blank line and the message.
pub open spec fn commit_bytes(
    tree: Seq<u8>,
    parents: Seq<Seq<u8>>,
    author: Seq<u8>,
    committer: Seq<u8>,
    encoding: Option<Seq<u8>>,
    message: Seq<u8>,
) -> Seq<u8> {
    header_line(kw_tree(), tree) + parent_lines(parents) + header_line(kw_author(), author)
        + header_line(kw_committer(), committer) + match encoding {
        Some(e) => header_line(kw_encoding(), e),
        None => Seq::empty(),
    } + nl() + message
}

/// A tag object: target, type, name, optional tagger, a blank line and the
/// message.
pub open spec fn tag_bytes(
    target: Seq<u8>,
    kind: ObjectKind,
    name: Seq<u8>,
    tagger: Option<Seq<u8>>,
    message: Seq<u8>,
) -> Seq<u8> {
    header_line(kw_object(), target) + header_line(kw_type(), kind_label(kind)) + header_line(
        kw_tag(),
        name,
    ) + match tagger {
        Some(t) => header_line(kw_tagger(), t),
        None => Seq::empty(),
    } + nl() + message
}

fn push_line(out: &mut Vec<u8>, kw: &[u8], value: &[u8])
    ensures
        final(out)@ == old(out)@ + header_line(kw@, value@),
{
    extend_all(out, kw);
    extend_all(out, value);
    out.push(10u8);
    assert(final(out)@ =~= old(out)@ + header_line(kw@, value@));
}

pub open spec fn views2(v: Seq<Vec<u8>>) -> Seq<Seq<u8>> {
    v.map_values(|x: Vec<u8>| x@)
}

pub open spec fn opt_view(v: Option<Vec<u8>>) -> Option<Seq<u8>> {
    match v {
        Some(x) => Some(x@),
        None => None,
    }
}

/// Encode a commit object from its parts; ids are given as hex.
pub fn build_commit_bytes(
    tree: &[u8],
    parents: &Vec<Vec<u8>>,
    author: &[u8],
    committer: &[u8],
    encoding: &Option<Vec<u8>>,
    message: &[u8],
) -> (r: Vec<u8>)
    ensures
        r@ == commit_bytes(tree@, views2(parents@), author@, committer@, opt_view(*encoding), message@),
{
    let mut out: Vec<u8> = Vec::new();
    let tree_kw = vec![116u8, 114, 101, 101, 32];
    push_line(&mut out, tree_kw.as_slice(), tree);
    let parent_kw = vec![112u8, 97, 114, 101, 110, 116, 32];
    let mut i: usize = 0;
    while i < parents.len()
        invariant
            parent_kw@ == kw_parent(),
            i <= parents@.len(),
            out@ == header_line(kw_tree(), tree@) + parent_lines(views2(parents@.take(i as int))),
        decreases parents@.len() - i,
    {
        push_line(&mut out, parent_kw.as_slice(), parents[i].as_slice());
        proof {
            assert(views2(parents@.take(i + 1)).drop_last() =~= views2(parents@.take(i as int)));
            assert(views2(parents@.take(i + 1)).last() == parents@[i as int]@);
        }
        i = i + 1;
    }
    assert(parents@.take(parents@.len() as int) =~= parents@);
    let author_kw = vec![97u8, 117, 116, 104, 111, 114, 32];
    push_line(&mut out, author_kw.as_slice(), author);
    let committer_kw = vec![99u8, 111, 109, 109, 105, 116, 116, 101, 114, 32];
    push_line(&mut out, committer_kw.as_slice(), committer);
    match encoding {
        Some(e) => {
            let encoding_kw = vec![101u8, 110, 99, 111, 100, 105, 110, 103, 32];
            push_line(&mut out, encoding_kw.as_slice(), e.as_slice());
        },
        None => {},
    }
    out.push(10u8);
    extend_all(&mut out, message);
    assert(out@ =~= commit_bytes(
        tree@,
        views2(parents@),
        author@,
        committer@,
        opt_view(*encoding),
        message@,
    ));
    out
}

/// Encode a tag object from its parts; the target is given as hex.
pub fn build_tag_bytes(
    target: &[u8],
    kind: ObjectKind,
    name: &[u8],
    tagger: &Option<Vec<u8>>,
    message: &[u8],
) -> (r: Vec<u8>)
    ensures
        r@ == tag_bytes(target@, kind, name@, opt_view(*tagger), message@),
{
    let mut out: Vec<u8> = Vec::new();
    let object_kw = vec![111u8, 98, 106, 101, 99, 116, 32];
    push_line(&mut out, object_kw.as_slice(), target);
    let type_kw = vec![116u8, 121, 112, 101, 32];
    let label = object_kind_label(kind);
    push_line(&mut out, type_kw.as_slice(), label.as_slice());
    let tag_kw = vec![116u8, 97, 103, 32];
    push_line(&mut out, tag_kw.as_slice(), name);
    match tagger {
        Some(t) => {
            let tagger_kw = vec![116u8, 97, 103, 103, 101, 114, 32];
            push_line(&mut out, tagger_kw.as_slice(), t.as_slice());
        },
        None => {},
    }
    out.push(10u8);
    extend_all(&mut out, message);
    assert(out@ =~= tag_bytes(target@, kind, name@, opt_view(*tagger), message@));
    out
}


/// Why a tag object could not be read.
#[derive(PartialEq, Eq, Structural, Clone, Copy, Debug)]
pub enum TagError {
    /// No blank line ends the header.
    MissingHeaderEnd,
    /// The `object` line does not hold an object id.
    BadObjectId,
    /// The `type` line does not name an object kind.
    BadKind,
    /// No `object` line.
    MissingObject,
    /// No `type` line.
    MissingType,
    /// No `tag` line.
    MissingName,
}

/// The header fields seen so far while reading a tag.
pub struct TagHeader {
    pub target: Option<Seq<u8>>,
    pub kind: Option<ObjectKind>,
    pub name: Option<Seq<u8>>,
    pub tagger: Option<Seq<u8>>,
}

/// The parts of a tag object as contracts see them.
pub struct RawTagSpec {
    pub target: Seq<u8>,
    pub kind: ObjectKind,
    pub name: Seq<u8>,
    pub tagger: Option<Seq<u8>>,
    pub message: Seq<u8>,
}

/// The parts of a tag object; the target is canonical lower-case hex.
pub struct RawTag {
    pub target: Vec<u8>,
    pub kind: ObjectKind,
    pub name: Vec<u8>,
    pub tagger: Option<Vec<u8>>,
    pub message: Vec<u8>,
}

impl View for RawTag {
    type V = RawTagSpec;

    open spec fn view(&self) -> RawTagSpec {
        RawTagSpec {
            target: self.target@,
            kind: self.kind,
            name: self.name@,
            tagger: opt_view(self.tagger),
            message: self.message@,
        }
    }
}

pub open spec fn key_object() -> Seq<u8> {
    seq![111u8, 98, 106, 101, 99, 116]
}

pub open spec fn key_type() -> Seq<u8> {
    seq![116u8, 121, 112, 101]
}

pub open spec fn key_tag() -> Seq<u8> {
    seq![116u8, 97, 103]
}

pub open spec fn key_tagger() -> Seq<u8> {
    seq![116u8, 97, 103, 103, 101, 114]
}

/// A header line's key: the text before its first space, or the whole line.
pub open spec fn line_key(line: Seq<u8>) -> Seq<u8> {
    let p = find(line, seq![32u8]);
    if p == -1 {
        line
    } else {
        line.take(p)
    }
}

/// A header line's value: the text after its first space, or nothing.
pub open spec fn line_value(line: Seq<u8>) -> Seq<u8> {
    let p = find(line, seq![32u8]);
    if p == -1 {
        Seq::empty()
    } else {
        line.skip(p + 1)
    }
}

/// One header line read into the fields; a later line overrides an earlier.
pub open spec fn header_step(h: TagHeader, line: Seq<u8>) -> Result<TagHeader, TagError> {
    if line.len() == 0 {
        Ok(h)
    } else {
        let key = line_key(line);
        let value = line_value(line);
        if key == key_object() {
            match id_hex(value) {
                Some(x) => Ok(TagHeader { target: Some(x), ..h }),
                None => Err(TagError::BadObjectId),
            }
        } else if key == key_type() {
            match kind_named(value) {
                Some(k) => Ok(TagHeader { kind: Some(k), ..h }),
                None => Err(TagError::BadKind),
            }
        } else if key == key_tag() {
            Ok(TagHeader { name: Some(value), ..h })
        } else if key == key_tagger() {
            Ok(TagHeader { tagger: Some(value), ..h })
        } else {
            Ok(h)
        }
    }
}

pub open spec fn empty_header() -> TagHeader {
    TagHeader { target: None, kind: None, name: None, tagger: None }
}

/// The header lines read in order; the first bad line stops the reading.
pub open spec fn scan_header(lines: Seq<Seq<u8>>) -> Result<TagHeader, TagError>
    decreases lines.len(),
{
    if lines.len() == 0 {
        Ok(empty_header())
    } else {
        match scan_header(lines.drop_last()) {
            Ok(h) => header_step(h, lines.last()),
            Err(e) => Err(e),
        }
    }
}

/// The message of a tag body: up to and including the newline that starts a
/// PGP signature, or the whole body.
pub open spec fn tag_message(body: Seq<u8>) -> Seq<u8> {
    let p = find(body, pgp_marker());
    if p == -1 {
        body
    } else {
        body.take(p + 1)
    }
}

/// What a tag object reads as.
pub open spec fn parse_tag_spec(data: Seq<u8>) -> Result<RawTagSpec, TagError> {
    let k = find(data, seq![10u8, 10]);
    if k == -1 {
        Err(TagError::MissingHeaderEnd)
    } else {
        match scan_header(split_seq(data.take(k), 10)) {
            Err(e) => Err(e),
            Ok(h) => if h.target is None {
                Err(TagError::MissingObject)
            } else if h.kind is None {
                Err(TagError::MissingType)
            } else if h.name is None {
                Err(TagError::MissingName)
            } else {
                Ok(
                    RawTagSpec {
                        target: h.target.unwrap(),
                        kind: h.kind.unwrap(),
                        name: h.name.unwrap(),
                        tagger: h.tagger,
                        message: tag_message(data.skip(k + 2)),
                    },
                )
            },
        }
    }
}

/// Once the reading of a prefix failed, the reading of the whole fails alike.
proof fn lemma_scan_err(lines: Seq<Seq<u8>>, i: int, e: TagError)
    requires
        0 <= i <= lines.len(),
        scan_header(lines.take(i)) == Err::<TagHeader, TagError>(e),
    ensures
        scan_header(lines) == Err::<TagHeader, TagError>(e),
    decreases lines.len() - i,
{
    if i < lines.len() {
        assert(lines.take(i + 1).drop_last() =~= lines.take(i));
        lemma_scan_err(lines, i + 1, e);
    } else {
        assert(lines.take(i) =~= lines);
    }
}

pub open spec fn tag_result_view(r: Result<RawTag, TagError>) -> Result<RawTagSpec, TagError> {
    match r {
        Ok(t) => Ok(t@),
        Err(e) => Err(e),
    }
}

/// Split a header line at its first space.
pub fn split_key_value(line: &[u8]) -> (r: (Vec<u8>, Vec<u8>))
    ensures
        r.0@ == line_key(line@),
        r.1@ == line_value(line@),
{
    let n = line.len();
    let space = vec![32u8];
    assert(space@ =~= seq![32u8]);
    match find_bytes(line, space.as_slice()) {
        Some(p) => {
            proof {
                crate::bytes::lemma_find_from(line@, space@, 0);
            }
            (slice_range(line, 0, p), slice_range(line, p + 1, n))
        },
        None => (slice_range(line, 0, n), Vec::new()),
    }
}

/// Read the `object`, `type`, `tag` and `tagger` lines of a tag's header and
/// cut its message before any PGP signature.
pub fn parse_tag_object(data: &[u8]) -> (r: Result<RawTag, TagError>)
    ensures
        tag_result_view(r) == parse_tag_spec(data@),
{
    let n = data.len();
    let blank = vec![10u8, 10];
    assert(blank@ =~= seq![10u8, 10]);
    let k = match find_bytes(data, blank.as_slice()) {
        Some(k) => k,
        None => {
            return Err(TagError::MissingHeaderEnd);
        },
    };
    proof {
        crate::bytes::lemma_find_from(data@, blank@, 0);
    }
    let header = slice_range(data, 0, k);
    let body = slice_range(data, k + 2, n);
    assert(header@ =~= data@.take(k as int));
    assert(body@ =~= data@.skip(k + 2));
    let lines = split_bytes(header.as_slice(), 10u8);
    let ghost lv = vec_views(lines@);
    let mut target: Option<Vec<u8>> = None;
    let mut kind: Option<ObjectKind> = None;
    let mut name: Option<Vec<u8>> = None;
    let mut tagger: Option<Vec<u8>> = None;
    let key_obj = vec![111u8, 98, 106, 101, 99, 116];
    let key_ty = vec![116u8, 121, 112, 101];
    let key_tg = vec![116u8, 97, 103];
    let key_tgr = vec![116u8, 97, 103, 103, 101, 114];
    let mut i: usize = 0;
    while i < lines.len()
        invariant
            lv == vec_views(lines@),
            lv == split_seq(data@.take(k as int), 10u8),
            find(data@, seq![10u8, 10]) == k as int,
            body@ == data@.skip(k + 2),
            i <= lines@.len(),
            key_obj@ == key_object(),
            key_ty@ == key_type(),
            key_tg@ == key_tag(),
            key_tgr@ == key_tagger(),
            scan_header(lv.take(i as int)) == Ok::<TagHeader, TagError>(
                TagHeader {
                    target: opt_view(target),
                    kind,
                    name: opt_view(name),
                    tagger: opt_view(tagger),
                },
            ),
        decreases lines@.len() - i,
    {
        let line = lines[i].as_slice();
        proof {
            assert(lv.take(i + 1).drop_last() =~= lv.take(i as int));
            assert(lv.take(i + 1).last() == line@);
        }
        if line.len() != 0 {
            let (key, value) = split_key_value(line);
            if bytes_eq(key.as_slice(), key_obj.as_slice()) {
                match parse_object_id(value.as_slice()) {
                    Some(t) => {
                        target = Some(t);
                    },
                    None => {
                        proof {
                            lemma_scan_err(lv, i + 1, TagError::BadObjectId);
                        }
                        return Err(TagError::BadObjectId);
                    },
                }
            } else if bytes_eq(key.as_slice(), key_ty.as_slice()) {
                match kind_from_bytes(value.as_slice()) {
                    Some(kd) => {
                        kind = Some(kd);
                    },
                    None => {
                        proof {
                            lemma_scan_err(lv, i + 1, TagError::BadKind);
                        }
                        return Err(TagError::BadKind);
                    },
                }
            } else if bytes_eq(key.as_slice(), key_tg.as_slice()) {
                name = Some(value);
            } else if bytes_eq(key.as_slice(), key_tgr.as_slice()) {
                tagger = Some(value);
            }
        }
        i = i + 1;
    }
    assert(lv.take(lines@.len() as int) =~= lv);
    let target = match target {
        Some(t) => t,
        None => {
            return Err(TagError::MissingObject);
        },
    };
    let kind = match kind {
        Some(kd) => kd,
        None => {
            return Err(TagError::MissingType);
        },
    };
    let name = match name {
        Some(n) => n,
        None => {
            return Err(TagError::MissingName);
        },
    };
    let marker = vec![
        10u8, 45, 45, 45, 45, 45, 66, 69, 71, 73, 78, 32, 80, 71, 80, 32, 83, 73, 71, 78, 65, 84,
        85, 82, 69, 45, 45, 45, 45, 45,
    ];
    assert(marker@ == pgp_marker());
    let message = match find_bytes(body.as_slice(), marker.as_slice()) {
        Some(p) => {
            proof {
                crate::bytes::lemma_find_from(body@, marker@, 0);
            }
            slice_range(body.as_slice(), 0, p + 1)
        },
        None => body,
    };
    Ok(RawTag { target, kind, name, tagger, message })
}


/// Lower-case hex holds only the digits `0-9a-f`.
pub proof fn lemma_hex_encode_digits(b: Seq<u8>)
    ensures
        forall|i: int|
            0 <= i < hex_encode(b).len() ==> {
                let c = #[trigger] hex_encode(b)[i];
                (48 <= c <= 57) || (97 <= c <= 102)
            },
{
    assert forall|i: int| 0 <= i < hex_encode(b).len() implies {
        let c = #[trigger] hex_encode(b)[i];
        (48 <= c <= 57) || (97 <= c <= 102)
    } by {
        let x = b[i / 2];
        assert(x / 16 < 16);
        assert(x % 16 < 16);
    }
}

/// A key without spaces, a space and a value: the key and value come back.
proof fn lemma_key_value(key: Seq<u8>, value: Seq<u8>)
    requires
        !key.contains(32u8),
    ensures
        line_key(key + seq![32u8] + value) == key,
        line_value(key + seq![32u8] + value) == value,
{
    let line = key + seq![32u8] + value;
    let p = seq![32u8];
    assert(line.subrange(key.len() as int, key.len() + 1int) =~= p);
    assert forall|i: int| 0 <= i < key.len() implies #[trigger] line.subrange(i, i + p.len()) != p by {
        if line.subrange(i, i + 1) == p {
            assert(line.subrange(i, i + 1)[0] == line[i]);
            assert(line[i] == key[i]);
            assert(key.contains(32u8));
        }
    }
    crate::bytes::lemma_find_at(line, p, key.len() as int);
    assert(line.take(key.len() as int) =~= key);
    assert(line.skip(key.len() + 1int) =~= value);
}

/// The header lines of a tag object built from parts.
pub open spec fn tag_header_lines(
    target: Seq<u8>,
    kind: ObjectKind,
    name: Seq<u8>,
    tagger: Option<Seq<u8>>,
) -> Seq<Seq<u8>> {
    let l1 = kw_object() + target;
    let l2 = kw_type() + kind_label(kind);
    let l3 = kw_tag() + name;
    match tagger {
        Some(g) => seq![l1, l2, l3, kw_tagger() + g],
        None => seq![l1, l2, l3],
    }
}

proof fn lemma_tag_layout(
    target: Seq<u8>,
    kind: ObjectKind,
    name: Seq<u8>,
    tagger: Option<Seq<u8>>,
    message: Seq<u8>,
)
    ensures
        tag_bytes(target, kind, name, tagger, message) == crate::bytes::join_lines(
            tag_header_lines(target, kind, name, tagger),
        ) + seq![10u8, 10] + message,
{
    let lines = tag_header_lines(target, kind, name, tagger);
    reveal_with_fuel(crate::bytes::join_lines, 5);
    match tagger {
        Some(g) => {
            assert(lines.drop_last() =~= seq![lines[0], lines[1], lines[2]]);
            assert(lines.drop_last().drop_last() =~= seq![lines[0], lines[1]]);
            assert(lines.drop_last().drop_last().drop_last() =~= seq![lines[0]]);
        },
        None => {
            assert(lines.drop_last() =~= seq![lines[0], lines[1]]);
            assert(lines.drop_last().drop_last() =~= seq![lines[0]]);
        },
    }
    assert(tag_bytes(target, kind, name, tagger, message) =~= crate::bytes::join_lines(lines) + seq![
        10u8,
        10,
    ] + message);
}

proof fn lemma_no_newline_after(kw: Seq<u8>, v: Seq<u8>)
    requires
        !kw.contains(10u8),
        !v.contains(10u8),
    ensures
        !(kw + v).contains(10u8),
        (kw + v).len() >= kw.len(),
{
    if (kw + v).contains(10u8) {
        let j = choose|j: int| 0 <= j < (kw + v).len() && (kw + v)[j] == 10u8;
        if j < kw.len() {
            assert(kw[j] == 10u8);
        } else {
            assert(v[j - kw.len()] == 10u8);
        }
    }
}

proof fn lemma_tag_lines_clean(
    target: Seq<u8>,
    kind: ObjectKind,
    name: Seq<u8>,
    tagger: Option<Seq<u8>>,
)
    requires
        !target.contains(10u8),
        !name.contains(10u8),
        tagger matches Some(g) ==> !g.contains(10u8),
    ensures
        forall|i: int|
            0 <= i < tag_header_lines(target, kind, name, tagger).len() ==> !(#[trigger] tag_header_lines(
                target,
                kind,
                name,
                tagger,
            )[i]).contains(10u8) && tag_header_lines(target, kind, name, tagger)[i].len() > 0,
{
    let label = kind_label(kind);
    assert(!label.contains(10u8)) by {
        if label.contains(10u8) {
            let j = choose|j: int| 0 <= j < label.len() && label[j] == 10u8;
            assert(label[j] != 10u8);
        }
    }
    assert(!kw_object().contains(10u8)) by {
        if kw_object().contains(10u8) {
            let j = choose|j: int| 0 <= j < kw_object().len() && kw_object()[j] == 10u8;
        }
    }
    assert(!kw_type().contains(10u8)) by {
        if kw_type().contains(10u8) {
            let j = choose|j: int| 0 <= j < kw_type().len() && kw_type()[j] == 10u8;
        }
    }
    assert(!kw_tag().contains(10u8)) by {
        if kw_tag().contains(10u8) {
            let j = choose|j: int| 0 <= j < kw_tag().len() && kw_tag()[j] == 10u8;
        }
    }
    assert(!kw_tagger().contains(10u8)) by {
        if kw_tagger().contains(10u8) {
            let j = choose|j: int| 0 <= j < kw_tagger().len() && kw_tagger()[j] == 10u8;
        }
    }
    lemma_no_newline_after(kw_object(), target);
    lemma_no_newline_after(kw_type(), label);
    lemma_no_newline_after(kw_tag(), name);
    if let Some(g) = tagger {
        lemma_no_newline_after(kw_tagger(), g);
    }
}

proof fn lemma_tag_scan(
    target: Seq<u8>,
    kind: ObjectKind,
    name: Seq<u8>,
    tagger: Option<Seq<u8>>,
)
    requires
        id_hex(target) == Some(target),
    ensures
        scan_header(tag_header_lines(target, kind, name, tagger)) == Ok::<TagHeader, TagError>(
            TagHeader { target: Some(target), kind: Some(kind), name: Some(name), tagger },
        ),
{
    let label = kind_label(kind);
    let lines = tag_header_lines(target, kind, name, tagger);
    let l1 = lines[0];
    let l2 = lines[1];
    let l3 = lines[2];
    assert(!key_object().contains(32u8));
    assert(!key_type().contains(32u8));
    assert(!key_tag().contains(32u8));
    assert(!key_tagger().contains(32u8));
    lemma_key_value(key_object(), target);
    lemma_key_value(key_type(), label);
    lemma_key_value(key_tag(), name);
    assert(l1 =~= key_object() + seq![32u8] + target);
    assert(l2 =~= key_type() + seq![32u8] + label);
    assert(l3 =~= key_tag() + seq![32u8] + name);
    assert(kind_named(label) == Some(kind));
    assert(key_type() != key_object());
    assert(key_tag() != key_object() && key_tag() != key_type());
    let h0 = empty_header();
    let h1 = TagHeader { target: Some(target), ..h0 };
    let h2 = TagHeader { kind: Some(kind), ..h1 };
    let h3 = TagHeader { name: Some(name), ..h2 };
    assert(header_step(h0, l1) == Ok::<TagHeader, TagError>(h1));
    assert(header_step(h1, l2) == Ok::<TagHeader, TagError>(h2));
    assert(header_step(h2, l3) == Ok::<TagHeader, TagError>(h3));
    let p1 = seq![l1];
    let p2 = seq![l1, l2];
    let p3 = seq![l1, l2, l3];
    assert(p1.drop_last() =~= Seq::<Seq<u8>>::empty());
    assert(p2.drop_last() =~= p1);
    assert(p3.drop_last() =~= p2);
    assert(scan_header(Seq::<Seq<u8>>::empty()) == Ok::<TagHeader, TagError>(h0));
    assert(scan_header(p1) == Ok::<TagHeader, TagError>(h1));
    assert(scan_header(p2) == Ok::<TagHeader, TagError>(h2));
    assert(scan_header(p3) == Ok::<TagHeader, TagError>(h3));
    match tagger {
        Some(g) => {
            let l4 = lines[3];
            lemma_key_value(key_tagger(), g);
            assert(l4 =~= key_tagger() + seq![32u8] + g);
            assert(key_tagger() != key_object() && key_tagger() != key_type() && key_tagger()
                != key_tag()) by {
                assert(key_tagger()[0] != key_object()[0]);
                assert(key_tagger().len() != key_type().len());
                assert(key_tagger().len() != key_tag().len());
            }
            assert(header_step(h3, l4) == Ok::<TagHeader, TagError>(
                TagHeader { tagger: Some(g), ..h3 },
            ));
            assert(lines.drop_last() =~= p3);
        },
        None => {
            assert(lines =~= p3);
        },
    }
}

/// Reading a tag object that was built from parts gives the parts back,
/// provided the target is an id in canonical lower-case hex, the name and
/// tagger hold no newline, and the message holds no PGP signature marker.
pub proof fn lemma_tag_roundtrip(
    target: Seq<u8>,
    kind: ObjectKind,
    name: Seq<u8>,
    tagger: Option<Seq<u8>>,
    message: Seq<u8>,
)
    requires
        id_hex(target) == Some(target),
        !name.contains(10u8),
        tagger matches Some(g) ==> !g.contains(10u8),
        find(message, pgp_marker()) == -1,
    ensures
        parse_tag_spec(tag_bytes(target, kind, name, tagger, message)) == Ok::<RawTagSpec, TagError>(
            RawTagSpec { target, kind, name, tagger, message },
        ),
{
    lemma_hex_encode_digits(object_id_from_hex(target).unwrap());
    assert(!target.contains(10u8)) by {
        if target.contains(10u8) {
            let j = choose|j: int| 0 <= j < target.len() && target[j] == 10u8;
            assert(hex_encode(object_id_from_hex(target).unwrap())[j] == 10u8);
        }
    }
    let lines = tag_header_lines(target, kind, name, tagger);
    lemma_tag_layout(target, kind, name, tagger, message);
    lemma_tag_lines_clean(target, kind, name, tagger);
    lemma_tag_scan(target, kind, name, tagger);
    let h = crate::bytes::join_lines(lines);
    let data = tag_bytes(target, kind, name, tagger, message);
    crate::bytes::lemma_join_no_blank(lines);
    crate::bytes::lemma_find_blank(h, message);
    assert(data.take(h.len() as int) =~= h);
    assert(data.skip(h.len() + 2int) =~= message);
    crate::bytes::lemma_split_join(lines);
}

/// A tag object in canonical form (its header exactly the `object`, `type`,
/// `tag` and optional `tagger` lines, then a blank line and a message without
/// a PGP signature marker) is given back byte for byte by building a tag
/// from the parts it reads as.
pub proof fn lemma_tag_rebuild(
    target: Seq<u8>,
    kind: ObjectKind,
    name: Seq<u8>,
    tagger: Option<Seq<u8>>,
    message: Seq<u8>,
)
    requires
        id_hex(target) == Some(target),
        !name.contains(10u8),
        tagger matches Some(g) ==> !g.contains(10u8),
        find(message, pgp_marker()) == -1,
    ensures
        (parse_tag_spec(tag_bytes(target, kind, name, tagger, message)) matches Ok(t) && tag_bytes(
            t.target,
            t.kind,
            t.name,
            t.tagger,
            t.message,
        ) == tag_bytes(target, kind, name, tagger, message)),
{
    lemma_tag_roundtrip(target, kind, name, tagger, message);
}

} // verus!
