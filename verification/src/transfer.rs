//! The object stream that moves a repository: its header, its ref lines,
//! its object records, and the reading of each back.
use vstd::prelude::*;
use vstd::utf8::{decode_utf8, encode_utf8, valid_utf8};
use crate::bytes::{find_bytes, find_from};
use crate::casing::slice_range;
use crate::objects::{id_hex, kind_from_bytes, kind_named, parse_object_id, ObjectKind};
use crate::options::string_bytes;
use crate::text::{chars_range, trim_end};

verus! {

/// The text before the first `c` in `s` and the text after it.
#[verifier::opaque]
pub open spec fn split_once(s: Seq<char>, c: char) -> Option<(Seq<char>, Seq<char>)> {
    if exists|i: int| 0 <= i < s.len() && s[i] == c {
        let i = choose|i: int| 0 <= i < s.len() && s[i] == c && forall|j: int| 0 <= j < i ==> s[j] != c;
        Some((s.take(i), s.skip(i + 1)))
    } else {
        None
    }
}

/// Split `s` at its first `c`.
pub fn split_once_str(s: &str, c: char) -> (r: Option<(String, String)>)
    ensures
        r is None <==> split_once(s@, c) is None,
        r matches Some(p) ==> split_once(s@, c) == Some((p.0@, p.1@)),
{
    reveal(split_once);
    let n = s.unicode_len();
    let mut i: usize = 0;
    while i < n
        invariant
            n == s@.len(),
            i <= n,
            forall|j: int| 0 <= j < i ==> s@[j] != c,
        decreases n - i,
    {
        if s.get_char(i) == c {
            proof {
                reveal(split_once);
                let k = choose|k: int| 0 <= k < s@.len() && s@[k] == c && forall|j: int| 0 <= j < k ==> s@[j] != c;
                if k < i {
                    assert(s@[k] != c);
                }
                if k > i {
                    assert(s@[i as int] != c);
                }
            }
            return Some((chars_range(s, 0, i), chars_range(s, i + 1, n)));
        }
        i = i + 1;
    }
    None
}

/// The value of a decimal digit.
pub open spec fn digit_value(c: char) -> int {
    (c as int) - 48
}

pub open spec fn is_digit(c: char) -> bool {
    '0' <= c && c <= '9'
}

/// The value of a string of decimal digits.
pub open spec fn digits_value(d: Seq<char>) -> nat
    decreases d.len(),
{
    if d.len() == 0 {
        0
    } else {
        (digits_value(d.drop_last()) * 10 + digit_value(d.last())) as nat
    }
}

/// The digits after an optional leading `+`.
pub open spec fn unsigned_digits(s: Seq<char>) -> Seq<char> {
    if s.len() > 0 && s[0] == '+' {
        s.skip(1)
    } else {
        s
    }
}

/// What `str::parse::<usize>` makes of `s`: an optional `+`, then one or
/// more decimal digits whose value fits.
pub open spec fn parse_usize_spec(s: Seq<char>) -> Option<nat> {
    let d = unsigned_digits(s);
    if d.len() > 0 && (forall|i: int| 0 <= i < d.len() ==> is_digit(#[trigger] d[i])) && digits_value(d)
        <= usize::MAX {
        Some(digits_value(d))
    } else {
        None
    }
}

proof fn lemma_digits_grow(d: Seq<char>, i: int)
    requires
        0 <= i < d.len(),
        is_digit(d[i]),
    ensures
        digits_value(d.take(i + 1)) >= digits_value(d.take(i)),
        digits_value(d.take(i + 1)) == digits_value(d.take(i)) * 10 + digit_value(d[i]),
{
    assert(d.take(i + 1).drop_last() =~= d.take(i));
}

/// Parse an unsigned size as `str::parse::<usize>` does.
pub fn parse_usize(s: &str) -> (r: Option<usize>)
    ensures
        r matches Some(v) ==> parse_usize_spec(s@) == Some(v as nat),
        r is None ==> parse_usize_spec(s@) is None,
{
    let n = s.unicode_len();
    let mut i: usize = 0;
    if n > 0 && s.get_char(0) == '+' {
        i = 1;
    }
    let ghost d = unsigned_digits(s@);
    let start = i;
    assert(d =~= s@.skip(start as int));
    if start == n {
        return None;
    }
    let mut value: usize = 0;
    let mut over = false;
    while i < n
        invariant
            n == s@.len(),
            start <= i <= n,
            d == s@.skip(start as int),
            d == unsigned_digits(s@),
            forall|j: int| 0 <= j < i - start ==> is_digit(#[trigger] d[j]),
            !over ==> value as nat == digits_value(d.take(i - start)),
            over ==> digits_value(d.take(i - start)) > usize::MAX,
        decreases n - i,
    {
        let c = s.get_char(i);
        assert(d[i - start] == c);
        if !('0' <= c && c <= '9') {
            assert(!is_digit(d[i - start]));
            return None;
        }
        proof {
            lemma_digits_grow(d, i - start);
        }
        let dv = (c as u32 - 48) as usize;
        assert(dv as int == digit_value(c));
        if !over {
            if value > (usize::MAX - dv) / 10 {
                over = true;
            } else {
                value = value * 10 + dv;
            }
        }
        i = i + 1;
    }
    assert(d.take(n - start) =~= d);
    if over {
        None
    } else {
        Some(value)
    }
}

/// The decimal text of a number.
pub open spec fn decimal(n: nat) -> Seq<char>
    decreases n,
{
    if n < 10 {
        seq![(48 + n) as char]
    } else {
        decimal(n / 10) + seq![(48 + n % 10) as char]
    }
}

/// The decimal text of a number, as `{}` formats a `usize`.
pub fn decimal_text(n: usize) -> (r: String)
    ensures
        r@ == decimal(n as nat),
    decreases n,
{
    let d = n % 10;
    let mut digit = String::new();
    digit.append(
        if d == 0 {
            "0"
        } else if d == 1 {
            "1"
        } else if d == 2 {
            "2"
        } else if d == 3 {
            "3"
        } else if d == 4 {
            "4"
        } else if d == 5 {
            "5"
        } else if d == 6 {
            "6"
        } else if d == 7 {
            "7"
        } else if d == 8 {
            "8"
        } else {
            "9"
        },
    );
    proof {
        reveal_strlit("0");
        reveal_strlit("1");
        reveal_strlit("2");
        reveal_strlit("3");
        reveal_strlit("4");
        reveal_strlit("5");
        reveal_strlit("6");
        reveal_strlit("7");
        reveal_strlit("8");
        reveal_strlit("9");
        assert(digit@ =~= seq![(48 + n % 10) as char]);
    }
    if n < 10 {
        digit
    } else {
        let mut out = decimal_text(n / 10);
        out.append(digit.as_str());
        out
    }
}


/// Why an object stream could not be read.
#[derive(PartialEq, Eq, Structural, Clone, Copy, Debug)]
pub enum ImportError {
    /// A line is not valid UTF-8.
    InvalidUtf8,
    /// The first line is not the stream header.
    BadHeader,
    /// The stream ended before the end of the refs.
    UnexpectedEndRefs,
    /// The stream ended before the end of the objects.
    UnexpectedEndObjects,
    /// A ref line does not start with `ref`.
    InvalidRefLine,
    /// A ref line has no name.
    MissingRefName,
    /// A ref line has no target.
    MissingRefTarget,
    /// A ref target is not an object id.
    BadRefId,
    /// An object line does not start with `object`.
    InvalidObjectLine,
    /// An object line has no id.
    MissingObjectId,
    /// An object line has no kind.
    MissingObjectKind,
    /// An object line has no size.
    MissingObjectSize,
    /// An object id is not an object id.
    BadObjectId,
    /// An object kind is not a kind.
    BadObjectKind,
    /// An object size is not a number.
    BadObjectSize,
    /// The stream ends inside an object's data or before its newline.
    TruncatedObject,
    /// An object's data is not followed by a newline.
    MissingNewline,
}

/// Calls `std::str::from_utf8` and copies the text. Claimed, as std
/// documents: it succeeds exactly on valid UTF-8, and the text is the
/// decoding of the bytes.
#[verifier::external_body]
fn utf8_text(b: &[u8]) -> (r: Option<String>)
    ensures
        r is Some <==> valid_utf8(b@),
        r matches Some(s) ==> s@ == decode_utf8(b@),
{
    std::str::from_utf8(b).ok().map(|s| s.to_owned())
}

/// Where the line that starts at `pos` is followed: after its newline, or
/// at the end.
pub open spec fn next_line_start(data: Seq<u8>, pos: int) -> int {
    let k = find_from(data, seq![10u8], pos);
    if k == -1 {
        data.len() as int
    } else {
        k + 1
    }
}

/// What `BufRead::read_line` followed by `str::trim_end` gives at `pos`:
/// nothing at the end of the data, the trimmed line and where the next one
/// starts, or an error for a line that is not UTF-8.
#[verifier::opaque]
pub open spec fn line_read(data: Seq<u8>, pos: int) -> Result<Option<(Seq<char>, int)>, ImportError> {
    if pos >= data.len() {
        Ok(None)
    } else {
        let next = next_line_start(data, pos);
        let bytes = data.subrange(pos, next);
        if valid_utf8(bytes) {
            Ok(Some((trim_end(decode_utf8(bytes)), next)))
        } else {
            Err(ImportError::InvalidUtf8)
        }
    }
}

/// The next line starts after `pos` and inside the data.
pub proof fn lemma_next_line_start(data: Seq<u8>, pos: int)
    requires
        0 <= pos < data.len(),
    ensures
        pos < next_line_start(data, pos) <= data.len(),
{
    crate::bytes::lemma_find_from(data, seq![10u8], pos);
}

pub open spec fn line_result_view(r: Result<Option<(String, usize)>, ImportError>) -> Result<
    Option<(Seq<char>, int)>,
    ImportError,
> {
    match r {
        Ok(Some((s, n))) => Ok(Some((s@, n as int))),
        Ok(None) => Ok(None),
        Err(e) => Err(e),
    }
}

/// Read the line that starts at `pos`.
pub fn read_line_at(data: &[u8], pos: usize) -> (r: Result<Option<(String, usize)>, ImportError>)
    ensures
        line_result_view(r) == line_read(data@, pos as int),
{
    reveal(line_read);
    let n = data.len();
    if pos >= n {
        return Ok(None);
    }
    let mut k = pos;
    while k < n && data[k] != 10u8
        invariant
            n == data@.len(),
            pos <= k <= n,
            forall|j: int| pos <= j < k ==> data@[j] != 10u8,
        decreases n - k,
    {
        k = k + 1;
    }
    proof {
        let p = seq![10u8];
        crate::bytes::lemma_find_from(data@, p, pos as int);
        let f = find_from(data@, p, pos as int);
        if k < n {
            assert(data@.subrange(k as int, k + 1) =~= p);
            if f == -1 {
                assert(data@.subrange(k as int, k + p.len()) != p);
            } else if f < k {
                assert(data@.subrange(f, f + 1)[0] == data@[f]);
            } else if f > k {
                assert(data@.subrange(k as int, k + p.len()) != p);
            }
        } else if f != -1 {
            assert(data@.subrange(f, f + 1)[0] == data@[f]);
        }
    }
    let next = if k < n {
        k + 1
    } else {
        n
    };
    let bytes = slice_range(data, pos, next);
    match utf8_text(bytes.as_slice()) {
        Some(text) => Ok(Some((crate::text::trim_end_str(text.as_str()), next))),
        None => Err(ImportError::InvalidUtf8),
    }
}


/// A ref as the stream carries it: its name and its target as hex.
pub struct ExportRef {
    pub name: String,
    pub target: Vec<u8>,
}

impl View for ExportRef {
    type V = (Seq<char>, Seq<u8>);

    open spec fn view(&self) -> (Seq<char>, Seq<u8>) {
        (self.name@, self.target@)
    }
}

/// What a ref line reads as: `ref`, the name, and the target id, split at
/// the first two spaces.
#[verifier::opaque]
pub open spec fn ref_line_spec(line: Seq<char>) -> Result<(Seq<char>, Seq<u8>), ImportError> {
    match split_once(line, ' ') {
        None => if line == "ref"@ {
            Err(ImportError::MissingRefName)
        } else {
            Err(ImportError::InvalidRefLine)
        },
        Some((token, rest)) => if token != "ref"@ {
            Err(ImportError::InvalidRefLine)
        } else {
            match split_once(rest, ' ') {
                None => Err(ImportError::MissingRefTarget),
                Some((name, oid)) => match id_hex(encode_utf8(oid)) {
                    None => Err(ImportError::BadRefId),
                    Some(t) => Ok((name, t)),
                },
            }
        },
    }
}

pub open spec fn ref_result_view(r: Result<ExportRef, ImportError>) -> Result<
    (Seq<char>, Seq<u8>),
    ImportError,
> {
    match r {
        Ok(e) => Ok(e@),
        Err(e) => Err(e),
    }
}

/// Read a `ref NAME OID` line.
pub fn parse_ref_line(line: &str) -> (r: Result<ExportRef, ImportError>)
    ensures
        ref_result_view(r) == ref_line_spec(line@),
{
    reveal(ref_line_spec);
    let keyword = crate::text::owned("ref");
    match split_once_str(line, ' ') {
        None => {
            if crate::text::owned(line) == keyword {
                Err(ImportError::MissingRefName)
            } else {
                Err(ImportError::InvalidRefLine)
            }
        },
        Some((token, rest)) => {
            if token != keyword {
                return Err(ImportError::InvalidRefLine);
            }
            match split_once_str(rest.as_str(), ' ') {
                None => Err(ImportError::MissingRefTarget),
                Some((name, oid)) => match parse_object_id(string_bytes(oid.as_str()).as_slice()) {
                    None => Err(ImportError::BadRefId),
                    Some(target) => Ok(ExportRef { name, target }),
                },
            }
        },
    }
}

/// What an object line reads as: `object`, the id, the kind and the size,
/// split at the first three spaces.
#[verifier::opaque]
pub open spec fn object_header_spec(line: Seq<char>) -> Result<(Seq<u8>, ObjectKind, nat), ImportError> {
    match split_once(line, ' ') {
        None => if line == "object"@ {
            Err(ImportError::MissingObjectId)
        } else {
            Err(ImportError::InvalidObjectLine)
        },
        Some((token, r1)) => if token != "object"@ {
            Err(ImportError::InvalidObjectLine)
        } else {
            match split_once(r1, ' ') {
                None => Err(ImportError::MissingObjectKind),
                Some((oid, r2)) => match split_once(r2, ' ') {
                    None => Err(ImportError::MissingObjectSize),
                    Some((kind, size)) => match id_hex(encode_utf8(oid)) {
                        None => Err(ImportError::BadObjectId),
                        Some(id) => match kind_named(encode_utf8(kind)) {
                            None => Err(ImportError::BadObjectKind),
                            Some(k) => match parse_usize_spec(size) {
                                None => Err(ImportError::BadObjectSize),
                                Some(n) => Ok((id, k, n)),
                            },
                        },
                    },
                },
            }
        },
    }
}

pub open spec fn header_result_view(r: Result<(Vec<u8>, ObjectKind, usize), ImportError>) -> Result<
    (Seq<u8>, ObjectKind, nat),
    ImportError,
> {
    match r {
        Ok((id, k, n)) => Ok((id@, k, n as nat)),
        Err(e) => Err(e),
    }
}

/// Read an `object OID KIND SIZE` line.
pub fn parse_object_header(line: &str) -> (r: Result<(Vec<u8>, ObjectKind, usize), ImportError>)
    ensures
        header_result_view(r) == object_header_spec(line@),
{
    reveal(object_header_spec);
    let keyword = crate::text::owned("object");
    let (token, r1) = match split_once_str(line, ' ') {
        None => {
            return if crate::text::owned(line) == keyword {
                Err(ImportError::MissingObjectId)
            } else {
                Err(ImportError::InvalidObjectLine)
            };
        },
        Some(p) => p,
    };
    if token != keyword {
        return Err(ImportError::InvalidObjectLine);
    }
    let (oid, r2) = match split_once_str(r1.as_str(), ' ') {
        None => {
            return Err(ImportError::MissingObjectKind);
        },
        Some(p) => p,
    };
    let (kind, size) = match split_once_str(r2.as_str(), ' ') {
        None => {
            return Err(ImportError::MissingObjectSize);
        },
        Some(p) => p,
    };
    let id = match parse_object_id(string_bytes(oid.as_str()).as_slice()) {
        None => {
            return Err(ImportError::BadObjectId);
        },
        Some(id) => id,
    };
    let k = match kind_from_bytes(string_bytes(kind.as_str()).as_slice()) {
        None => {
            return Err(ImportError::BadObjectKind);
        },
        Some(k) => k,
    };
    match parse_usize(size.as_str()) {
        None => Err(ImportError::BadObjectSize),
        Some(n) => Ok((id, k, n)),
    }
}

/// The first line of a stream.
pub open spec fn header_text() -> Seq<char> {
    "gix-fast-export-1"@
}

/// The line that ends the refs.
pub open spec fn end_refs_text() -> Seq<char> {
    "end-refs"@
}

/// The line that ends the objects.
pub open spec fn end_objects_text() -> Seq<char> {
    "end-objects"@
}

/// Reading the header: where the refs start.
pub open spec fn header_spec(data: Seq<u8>) -> Result<int, ImportError> {
    match line_read(data, 0) {
        Err(e) => Err(e),
        Ok(None) => Err(ImportError::BadHeader),
        Ok(Some((t, next))) => if t == header_text() {
            Ok(next)
        } else {
            Err(ImportError::BadHeader)
        },
    }
}

/// Check the header line; where the refs start.
pub fn read_header(data: &[u8]) -> (r: Result<usize, ImportError>)
    ensures
        match r {
            Ok(n) => header_spec(data@) == Ok::<int, ImportError>(n as int),
            Err(e) => header_spec(data@) == Err::<int, ImportError>(e),
        },
{
    match read_line_at(data, 0) {
        Err(e) => Err(e),
        Ok(None) => Err(ImportError::BadHeader),
        Ok(Some((t, next))) => if t == crate::text::owned("gix-fast-export-1") {
            Ok(next)
        } else {
            Err(ImportError::BadHeader)
        },
    }
}

/// One step through the refs: the ref read at `pos` (none at the end
/// line) and where the next line starts.
pub open spec fn ref_step_spec(data: Seq<u8>, pos: int) -> Result<
    (Option<(Seq<char>, Seq<u8>)>, int),
    ImportError,
> {
    match line_read(data, pos) {
        Err(e) => Err(e),
        Ok(None) => Err(ImportError::UnexpectedEndRefs),
        Ok(Some((t, next))) => if t == end_refs_text() {
            Ok((None, next))
        } else {
            match ref_line_spec(t) {
                Err(e) => Err(e),
                Ok(r) => Ok((Some(r), next)),
            }
        },
    }
}

/// A step through the refs.
pub enum RefStep {
    /// The end line; the objects start at `next`.
    End { next: usize },
    /// A ref; the next line starts at `next`.
    Entry { entry: ExportRef, next: usize },
}

pub open spec fn ref_step_view(r: Result<RefStep, ImportError>) -> Result<
    (Option<(Seq<char>, Seq<u8>)>, int),
    ImportError,
> {
    match r {
        Ok(RefStep::End { next }) => Ok((None, next as int)),
        Ok(RefStep::Entry { entry, next }) => Ok((Some(entry@), next as int)),
        Err(e) => Err(e),
    }
}

/// Read the ref line at `pos`.
pub fn next_ref(data: &[u8], pos: usize) -> (r: Result<RefStep, ImportError>)
    ensures
        ref_step_view(r) == ref_step_spec(data@, pos as int),
{
    match read_line_at(data, pos) {
        Err(e) => Err(e),
        Ok(None) => Err(ImportError::UnexpectedEndRefs),
        Ok(Some((t, next))) => {
            if t == crate::text::owned("end-refs") {
                Ok(RefStep::End { next })
            } else {
                match parse_ref_line(t.as_str()) {
                    Err(e) => Err(e),
                    Ok(entry) => Ok(RefStep::Entry { entry, next }),
                }
            }
        },
    }
}

/// One step through the objects: the object read at `pos` (none at the
/// end line) and where the next line starts. An object's data follows its
/// line and is followed by a newline.
pub open spec fn object_step_spec(data: Seq<u8>, pos: int) -> Result<
    (Option<(Seq<u8>, ObjectKind, Seq<u8>)>, int),
    ImportError,
> {
    match line_read(data, pos) {
        Err(e) => Err(e),
        Ok(None) => Err(ImportError::UnexpectedEndObjects),
        Ok(Some((t, next))) => if t == end_objects_text() {
            Ok((None, next))
        } else {
            match object_header_spec(t) {
                Err(e) => Err(e),
                Ok((id, kind, size)) => if next + size >= data.len() {
                    Err(ImportError::TruncatedObject)
                } else if data[next + size] != 10 {
                    Err(ImportError::MissingNewline)
                } else {
                    Ok((Some((id, kind, data.subrange(next, next + size))), next + size + 1))
                },
            }
        },
    }
}

/// A step through the objects.
pub enum ObjectStep {
    /// The end line; the stream goes on at `next`.
    End { next: usize },
    /// An object whose data is `data[start..end]`; the next line starts at
    /// `next`.
    Record { id: Vec<u8>, kind: ObjectKind, start: usize, end: usize, next: usize },
}

pub open spec fn object_step_view(data: Seq<u8>, r: Result<ObjectStep, ImportError>) -> Result<
    (Option<(Seq<u8>, ObjectKind, Seq<u8>)>, int),
    ImportError,
> {
    match r {
        Ok(ObjectStep::End { next }) => Ok((None, next as int)),
        Ok(ObjectStep::Record { id, kind, start, end, next }) => Ok(
            (Some((id@, kind, data.subrange(start as int, end as int))), next as int),
        ),
        Err(e) => Err(e),
    }
}

/// Read the object record at `pos`.
pub fn next_object(data: &[u8], pos: usize) -> (r: Result<ObjectStep, ImportError>)
    ensures
        object_step_view(data@, r) == object_step_spec(data@, pos as int),
        r matches Ok(ObjectStep::Record { start, end, .. }) ==> start <= end <= data@.len(),
{
    match read_line_at(data, pos) {
        Err(e) => Err(e),
        Ok(None) => Err(ImportError::UnexpectedEndObjects),
        Ok(Some((t, next))) => {
            if t == crate::text::owned("end-objects") {
                return Ok(ObjectStep::End { next });
            }
            match parse_object_header(t.as_str()) {
                Err(e) => Err(e),
                Ok((id, kind, size)) => {
                    let n = data.len();
                    if next > n || size >= n - next {
                        return Err(ImportError::TruncatedObject);
                    }
                    let end = next + size;
                    if data[end] != 10u8 {
                        return Err(ImportError::MissingNewline);
                    }
                    Ok(ObjectStep::Record { id, kind, start: next, end, next: end + 1 })
                },
            }
        },
    }
}

/// The header line of a stream, as bytes.
pub open spec fn header_record() -> Seq<u8> {
    encode_utf8("gix-fast-export-1\n"@)
}

/// A ref line: `ref`, the name and the target, then a newline.
pub open spec fn ref_record(name: Seq<char>, target: Seq<u8>) -> Seq<u8> {
    encode_utf8("ref "@ + name + " "@) + target + seq![10u8]
}

/// The line that ends the refs, as bytes.
pub open spec fn end_refs_record() -> Seq<u8> {
    encode_utf8("end-refs\n"@)
}

/// An object record: `object`, the id, the kind and the size, a newline,
/// the data and a newline.
pub open spec fn object_record(id: Seq<u8>, kind: ObjectKind, data: Seq<u8>) -> Seq<u8> {
    encode_utf8("object "@) + id + encode_utf8(" "@) + crate::objects::kind_label(kind) + encode_utf8(
        " "@ + decimal(data.len()) + "\n"@,
    ) + data + seq![10u8]
}

/// The line that ends the objects, as bytes.
pub open spec fn end_objects_record() -> Seq<u8> {
    encode_utf8("end-objects\n"@)
}

/// The header line.
pub fn write_header() -> (r: Vec<u8>)
    ensures
        r@ == header_record(),
{
    string_bytes("gix-fast-export-1\n")
}

/// A ref line.
pub fn write_ref(name: &str, target: &[u8]) -> (r: Vec<u8>)
    ensures
        r@ == ref_record(name@, target@),
{
    let mut head = crate::text::owned("ref ");
    head.append(name);
    head.append(" ");
    let mut out = string_bytes(head.as_str());
    crate::bytes::extend_all(&mut out, target);
    out.push(10u8);
    proof {
        assert(out@ =~= ref_record(name@, target@));
    }
    out
}

/// The end-of-refs line.
pub fn write_end_refs() -> (r: Vec<u8>)
    ensures
        r@ == end_refs_record(),
{
    string_bytes("end-refs\n")
}

/// An object record.
pub fn write_object(id: &[u8], kind: ObjectKind, data: &[u8]) -> (r: Vec<u8>)
    ensures
        r@ == object_record(id@, kind, data@),
{
    let mut out = string_bytes("object ");
    crate::bytes::extend_all(&mut out, id);
    crate::bytes::extend_all(&mut out, string_bytes(" ").as_slice());
    crate::bytes::extend_all(&mut out, crate::objects::object_kind_label(kind).as_slice());
    let mut tail = crate::text::owned(" ");
    tail.append(decimal_text(data.len()).as_str());
    tail.append("\n");
    crate::bytes::extend_all(&mut out, string_bytes(tail.as_str()).as_slice());
    crate::bytes::extend_all(&mut out, data);
    out.push(10u8);
    proof {
        assert(out@ =~= object_record(id@, kind, data@));
    }
    out
}

/// The end-of-objects line.
pub fn write_end_objects() -> (r: Vec<u8>)
    ensures
        r@ == end_objects_record(),
{
    string_bytes("end-objects\n")
}


pub open spec fn refs_view(v: Seq<ExportRef>) -> Seq<(Seq<char>, Seq<u8>)> {
    v.map_values(|r: ExportRef| r@)
}

/// Refs ordered by name.
pub open spec fn sorted_by_name(v: Seq<(Seq<char>, Seq<u8>)>) -> bool {
    forall|i: int, j: int|
        0 <= i < j < v.len() ==> !crate::order::text_before(#[trigger] v[j].0, #[trigger] v[i].0)
}

/// `x` inserted into `v` after every ref whose name does not come after
/// `x`'s name.
pub open spec fn insert_by_name(v: Seq<(Seq<char>, Seq<u8>)>, x: (Seq<char>, Seq<u8>)) -> Seq<
    (Seq<char>, Seq<u8>),
>
    decreases v.len(),
{
    if v.len() == 0 {
        seq![x]
    } else if crate::order::text_before(x.0, v[0].0) {
        seq![x] + v
    } else {
        seq![v[0]] + insert_by_name(v.skip(1), x)
    }
}

/// The refs ordered by name, refs of equal names in their first order:
/// each ref in turn inserted after the ones already placed whose names do
/// not come after its name.
pub open spec fn stable_by_name(v: Seq<(Seq<char>, Seq<u8>)>) -> Seq<(Seq<char>, Seq<u8>)>
    decreases v.len(),
{
    if v.len() == 0 {
        v
    } else {
        insert_by_name(stable_by_name(v.drop_last()), v.last())
    }
}

proof fn lemma_insert_at(v: Seq<(Seq<char>, Seq<u8>)>, x: (Seq<char>, Seq<u8>), i: int)
    requires
        0 <= i <= v.len(),
        forall|j: int| 0 <= j < i ==> !crate::order::text_before(x.0, #[trigger] v[j].0),
        i < v.len() ==> crate::order::text_before(x.0, v[i].0),
    ensures
        v.insert(i, x) == insert_by_name(v, x),
    decreases v.len(),
{
    if v.len() == 0 {
        assert(v.insert(i, x) =~= seq![x]);
    } else if i == 0 {
        assert(v.insert(i, x) =~= seq![x] + v);
    } else {
        assert(!crate::order::text_before(x.0, v[0].0));
        let rest = v.skip(1);
        assert forall|j: int| 0 <= j < i - 1 implies !crate::order::text_before(x.0, #[trigger] rest[j].0) by {
            assert(rest[j] == v[j + 1]);
        }
        if i < v.len() {
            assert(rest[i - 1] == v[i]);
        }
        lemma_insert_at(rest, x, i - 1);
        assert(v.insert(i, x) =~= seq![v[0]] + rest.insert(i - 1, x));
    }
}

/// The refs ordered by name; refs of equal names keep their order.
pub fn sort_refs(refs: Vec<ExportRef>) -> (r: Vec<ExportRef>)
    ensures
        refs_view(r@) == stable_by_name(refs_view(refs@)),
        sorted_by_name(refs_view(r@)),
        refs_view(r@).to_multiset() == refs_view(refs@).to_multiset(),
{
    let mut out: Vec<ExportRef> = Vec::new();
    let mut rest = refs;
    let ghost all = refs_view(rest@);
    let mut k: usize = 0;
    assert(refs_view(out@) =~= all.take(0));
    while k < rest.len()
        invariant
            all == refs_view(rest@),
            k <= rest@.len(),
            refs_view(out@) == stable_by_name(all.take(k as int)),
            sorted_by_name(refs_view(out@)),
            refs_view(out@).to_multiset() == all.take(k as int).to_multiset(),
        decreases rest@.len() - k,
    {
        let x = ExportRef { name: rest[k].name.clone(), target: crate::casing::slice_range(
            rest[k].target.as_slice(),
            0,
            rest[k].target.len(),
        ) };
        assert(rest@[k as int].target@.subrange(0, rest@[k as int].target@.len() as int)
            =~= rest@[k as int].target@);
        assert(x@ == all[k as int]);
        let ghost before = refs_view(out@);
        let mut i: usize = 0;
        while i < out.len() && !crate::order::text_lt(x.name.as_str(), out[i].name.as_str())
            invariant
                before == refs_view(out@),
                sorted_by_name(before),
                i <= out@.len(),
                forall|j: int| 0 <= j < i ==> !crate::order::text_before(x@.0, #[trigger] before[j].0),
            decreases out@.len() - i,
        {
            i = i + 1;
        }
        let ghost xv = x@;
        out.insert(i, x);
        proof {
            let after = refs_view(out@);
            assert(after =~= before.insert(i as int, xv));
            lemma_insert_at(before, xv, i as int);
            assert(all.take(k + 1).drop_last() =~= all.take(k as int));
            assert(all.take(k + 1).last() == xv);
            vstd::seq_lib::to_multiset_insert(before, i as int, xv);
            assert(all.take(k + 1) =~= all.take(k as int).push(xv));
            vstd::seq_lib::to_multiset_build(all.take(k as int), xv);
            assert forall|a: int, b: int| 0 <= a < b < after.len() implies !crate::order::text_before(
                #[trigger] after[b].0,
                #[trigger] after[a].0,
            ) by {
                if b < i {
                    assert(after[a] == before[a] && after[b] == before[b]);
                } else if b == i {
                    assert(after[a] == before[a]);
                } else if a == i {
                    assert(after[b] == before[b - 1]);
                    assert(crate::order::text_before(xv.0, before[i as int].0));
                    if crate::order::text_before(before[b - 1].0, xv.0) {
                        crate::order::lemma_text_transitive(before[b - 1].0, xv.0, before[i as int].0);
                        if b - 1 == i {
                            crate::order::lemma_text_irreflexive(before[i as int].0);
                        }
                    }
                } else if a < i {
                    assert(after[a] == before[a] && after[b] == before[b - 1]);
                } else {
                    assert(after[a] == before[a - 1] && after[b] == before[b - 1]);
                }
            }
        }
        k = k + 1;
    }
    assert(all.take(rest@.len() as int) =~= all);
    out
}

} // verus!
