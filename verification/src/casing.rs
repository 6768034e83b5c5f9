use vstd::prelude::*;

verus! {

/// An ASCII upper-case letter.
pub open spec fn upper_byte(b: u8) -> bool {
    65 <= b && b <= 90
}

/// An ASCII lower-case letter.
pub open spec fn lower_byte(b: u8) -> bool {
    97 <= b && b <= 122
}

/// The ASCII upper-case form of a byte; other bytes are left alone.
pub open spec fn to_upper_byte(b: u8) -> u8 {
    if lower_byte(b) {
        (b - 32) as u8
    } else {
        b
    }
}

/// The ASCII lower-case form of a byte; other bytes are left alone.
pub open spec fn to_lower_byte(b: u8) -> u8 {
    if upper_byte(b) {
        (b + 32) as u8
    } else {
        b
    }
}

/// No lower-case letter and at least one upper-case letter.
pub open spec fn all_upper(s: Seq<u8>) -> bool {
    &&& forall|i: int| 0 <= i < s.len() ==> !lower_byte(#[trigger] s[i])
    &&& exists|i: int| 0 <= i < s.len() && upper_byte(#[trigger] s[i])
}

/// No upper-case letter and at least one lower-case letter.
pub open spec fn all_lower(s: Seq<u8>) -> bool {
    &&& forall|i: int| 0 <= i < s.len() ==> !upper_byte(#[trigger] s[i])
    &&& exists|i: int| 0 <= i < s.len() && lower_byte(#[trigger] s[i])
}

/// An upper-case first letter followed by a lower-case rest.
pub open spec fn title_case(s: Seq<u8>) -> bool {
    s.len() > 0 && all_upper(s.take(1)) && all_lower(s.skip(1))
}

pub open spec fn upper_all(s: Seq<u8>) -> Seq<u8> {
    Seq::new(s.len(), |i: int| to_upper_byte(s[i]))
}

pub open spec fn lower_all(s: Seq<u8>) -> Seq<u8> {
    Seq::new(s.len(), |i: int| to_lower_byte(s[i]))
}

/// Position by position: the case of the matched byte at the same index is
/// copied onto the replacement byte; past the end of the match, bytes stay.
pub open spec fn mirror_case(matched: Seq<u8>, replacement: Seq<u8>) -> Seq<u8> {
    Seq::new(
        replacement.len(),
        |i: int|
            if i < matched.len() && upper_byte(matched[i]) {
                to_upper_byte(replacement[i])
            } else if i < matched.len() && lower_byte(matched[i]) {
                to_lower_byte(replacement[i])
            } else {
                replacement[i]
            },
    )
}

/// The replacement written in the casing of the matched text.
pub open spec fn preserve_case_spec(matched: Seq<u8>, replacement: Seq<u8>) -> Seq<u8> {
    if replacement.len() == 0 {
        Seq::empty()
    } else if all_upper(matched) {
        upper_all(replacement)
    } else if all_lower(matched) {
        lower_all(replacement)
    } else if title_case(matched) {
        lower_all(replacement).update(0, to_upper_byte(replacement[0]))
    } else {
        mirror_case(matched, replacement)
    }
}

/// The upper-case form of an ASCII letter; other bytes stay.
pub fn ascii_upper(b: u8) -> (r: u8)
    ensures
        r == to_upper_byte(b),
{
    if 97 <= b && b <= 122 {
        b - 32
    } else {
        b
    }
}

/// The lower-case form of an ASCII letter; other bytes stay.
pub fn ascii_lower(b: u8) -> (r: u8)
    ensures
        r == to_lower_byte(b),
{
    if 65 <= b && b <= 90 {
        b + 32
    } else {
        b
    }
}

/// True when the bytes hold an upper-case letter and no lower-case one.
pub fn is_upper(bytes: &[u8]) -> (r: bool)
    ensures
        r == all_upper(bytes@),
{
    let mut has_alpha = false;
    let mut i: usize = 0;
    while i < bytes.len()
        invariant
            i <= bytes.len(),
            forall|j: int| 0 <= j < i ==> !lower_byte(#[trigger] bytes@[j]),
            has_alpha == exists|j: int| 0 <= j < i && upper_byte(#[trigger] bytes@[j]),
        decreases bytes.len() - i,
    {
        let b = bytes[i];
        if 97 <= b && b <= 122 {
            return false;
        }
        if 65 <= b && b <= 90 {
            has_alpha = true;
        }
        i = i + 1;
    }
    has_alpha
}

/// True when the bytes hold a lower-case letter and no upper-case one.
pub fn is_lower(bytes: &[u8]) -> (r: bool)
    ensures
        r == all_lower(bytes@),
{
    let mut has_alpha = false;
    let mut i: usize = 0;
    while i < bytes.len()
        invariant
            i <= bytes.len(),
            forall|j: int| 0 <= j < i ==> !upper_byte(#[trigger] bytes@[j]),
            has_alpha == exists|j: int| 0 <= j < i && lower_byte(#[trigger] bytes@[j]),
        decreases bytes.len() - i,
    {
        let b = bytes[i];
        if 65 <= b && b <= 90 {
            return false;
        }
        if 97 <= b && b <= 122 {
            has_alpha = true;
        }
        i = i + 1;
    }
    has_alpha
}

/// True when the first byte is an upper-case letter and the rest are
/// lower-case in the sense of [`is_lower`].
pub fn is_title(bytes: &[u8]) -> (r: bool)
    ensures
        r == title_case(bytes@),
{
    if bytes.len() == 0 {
        return false;
    }
    let first = slice_range(bytes, 0, 1);
    let rest = slice_range(bytes, 1, bytes.len());
    assert(first@ == bytes@.take(1));
    assert(rest@ == bytes@.skip(1));
    is_upper(first.as_slice()) && is_lower(rest.as_slice())
}

/// True when the data holds a NUL byte, the marker of binary content.
pub fn is_binary(data: &[u8]) -> (r: bool)
    ensures
        r == data@.contains(0u8),
{
    let mut i: usize = 0;
    while i < data.len()
        invariant
            i <= data.len(),
            forall|j: int| 0 <= j < i ==> #[trigger] data@[j] != 0u8,
        decreases data.len() - i,
    {
        if data[i] == 0 {
            assert(data@[i as int] == 0u8);
            return true;
        }
        i = i + 1;
    }
    false
}

/// The bytes `data[start..end]` as a new vector.
pub fn slice_range(data: &[u8], start: usize, end: usize) -> (r: Vec<u8>)
    requires
        start <= end <= data.len(),
    ensures
        r@ == data@.subrange(start as int, end as int),
{
    let mut out: Vec<u8> = Vec::new();
    let mut i = start;
    while i < end
        invariant
            start <= i <= end <= data.len(),
            out@ == data@.subrange(start as int, i as int),
        decreases end - i,
    {
        out.push(data[i]);
        i = i + 1;
    }
    out
}

/// Copy the casing of `matched` onto `replacement`: all upper, all lower and
/// title case carry over as a whole; any other casing is mirrored byte by
/// byte. An empty replacement stays empty.
pub fn preserve_case(matched: &[u8], replacement: &[u8]) -> (r: Vec<u8>)
    ensures
        r@ == preserve_case_spec(matched@, replacement@),
{
    let mut out: Vec<u8> = Vec::new();
    if replacement.len() == 0 {
        return out;
    }
    if is_upper(matched) {
        let mut i: usize = 0;
        while i < replacement.len()
            invariant
                i <= replacement.len(),
                out@ == upper_all(replacement@).take(i as int),
            decreases replacement.len() - i,
        {
            out.push(ascii_upper(replacement[i]));
            i = i + 1;
        }
        return out;
    }
    if is_lower(matched) {
        let mut i: usize = 0;
        while i < replacement.len()
            invariant
                i <= replacement.len(),
                out@ == lower_all(replacement@).take(i as int),
            decreases replacement.len() - i,
        {
            out.push(ascii_lower(replacement[i]));
            i = i + 1;
        }
        return out;
    }
    if is_title(matched) {
        let mut i: usize = 0;
        while i < replacement.len()
            invariant
                i <= replacement.len(),
                out@ == lower_all(replacement@).take(i as int),
            decreases replacement.len() - i,
        {
            out.push(ascii_lower(replacement[i]));
            i = i + 1;
        }
        let first = ascii_upper(replacement[0]);
        out.set(0, first);
        return out;
    }
    let mut i: usize = 0;
    while i < replacement.len()
        invariant
            i <= replacement.len(),
            out@ == mirror_case(matched@, replacement@).take(i as int),
        decreases replacement.len() - i,
    {
        let byte = replacement[i];
        if i < matched.len() {
            let src = matched[i];
            if 65 <= src && src <= 90 {
                out.push(ascii_upper(byte));
            } else if 97 <= src && src <= 122 {
                out.push(ascii_lower(byte));
            } else {
                out.push(byte);
            }
        } else {
            out.push(byte);
        }
        i = i + 1;
    }
    out
}


/// The cased replacement is as long as the replacement.
pub proof fn lemma_preserve_case_len(matched: Seq<u8>, replacement: Seq<u8>)
    ensures
        preserve_case_spec(matched, replacement).len() == replacement.len(),
{
}

/// Replacing a match with itself leaves the text as it was.
pub proof fn lemma_preserve_case_self(matched: Seq<u8>)
    ensures
        preserve_case_spec(matched, matched) == matched,
{
    let m = matched;
    if m.len() == 0 {
        assert(preserve_case_spec(m, m) =~= m);
    } else if all_upper(m) {
        assert(upper_all(m) =~= m);
    } else if all_lower(m) {
        assert(lower_all(m) =~= m);
    } else if title_case(m) {
        assert(m.take(1)[0] == m[0]);
        assert(!lower_byte(m[0]));
        let j = choose|j: int| 0 <= j < m.take(1).len() && upper_byte(#[trigger] m.take(1)[j]);
        assert(upper_byte(m[0]));
        assert forall|i: int| 1 <= i < m.len() implies !upper_byte(#[trigger] m[i]) by {
            assert(m.skip(1)[i - 1] == m[i]);
        }
        assert(lower_all(m).update(0, to_upper_byte(m[0])) =~= m);
    } else {
        assert(mirror_case(m, m) =~= m);
    }
}

/// Casing a replacement that already carries the casing changes nothing.
pub proof fn lemma_preserve_case_idempotent(matched: Seq<u8>, replacement: Seq<u8>)
    ensures
        preserve_case_spec(matched, preserve_case_spec(matched, replacement)) == preserve_case_spec(
            matched,
            replacement,
        ),
{
    let m = matched;
    let r = replacement;
    let once = preserve_case_spec(m, r);
    if r.len() == 0 {
    } else if all_upper(m) {
        assert(upper_all(once) =~= once);
    } else if all_lower(m) {
        assert(lower_all(once) =~= once);
    } else if title_case(m) {
        assert(lower_all(once).update(0, to_upper_byte(once[0])) =~= once);
    } else {
        assert(mirror_case(m, once) =~= once);
    }
}

} // verus!
