//! The object stream as a whole: what writing refs and objects produces,
//! how reading it step by step goes, and that the reading gives back what
//! was written.
use vstd::prelude::*;
use vstd::utf8::{decode_utf8, encode_scalar, encode_utf8, is_scalar, valid_utf8};
use crate::objects::{hex_encode, id_hex, kind_label, kind_named, object_id_from_hex, ObjectKind};
use crate::text::{trim_end, white};
use crate::transfer::{
    decimal, digit_value, digits_value, end_objects_record, end_objects_text, end_refs_record,
    end_refs_text, header_record, header_spec, header_text, is_digit, line_read, next_line_start,
    object_header_spec, object_record, object_step_spec, parse_usize_spec, ref_line_spec,
    ref_record, ref_step_spec, split_once, unsigned_digits, ImportError,
};

verus! {

/// Bytes below 128 read as characters.
pub open spec fn ascii_chars(b: Seq<u8>) -> Seq<char> {
    Seq::new(b.len(), |i: int| b[i] as char)
}

/// Encoding a concatenation encodes each part.
pub proof fn lemma_encode_concat(a: Seq<char>, b: Seq<char>)
    ensures
        encode_utf8(a + b) == encode_utf8(a) + encode_utf8(b),
    decreases a.len(),
{
    if a.len() == 0 {
        assert(a + b =~= b);
        assert(encode_utf8(a) =~= Seq::<u8>::empty());
        assert(encode_utf8(a) + encode_utf8(b) =~= encode_utf8(b));
    } else {
        assert((a + b)[0] == a[0]);
        assert((a + b).drop_first() =~= a.drop_first() + b);
        lemma_encode_concat(a.drop_first(), b);
        assert(encode_utf8(a + b) =~= encode_scalar(a[0] as u32) + (encode_utf8(a.drop_first())
            + encode_utf8(b)));
        assert(encode_utf8(a) + encode_utf8(b) =~= encode_scalar(a[0] as u32) + (encode_utf8(
            a.drop_first(),
        ) + encode_utf8(b)));
    }
}

/// ASCII bytes read as characters encode back to themselves.
pub proof fn lemma_encode_ascii(b: Seq<u8>)
    requires
        forall|i: int| 0 <= i < b.len() ==> #[trigger] b[i] < 128,
    ensures
        encode_utf8(ascii_chars(b)) == b,
{
    let c = ascii_chars(b);
    assert(vstd::utf8::is_ascii_chars(c)) by {
        assert forall|i: int| 0 <= i < c.len() implies '\0' <= #[trigger] c[i] <= '\u{7f}' by {
            assert(b[i] < 128);
        }
    }
    vstd::utf8::is_ascii_chars_encode_utf8(c);
    assert forall|i: int| 0 <= i < b.len() implies #[trigger] encode_utf8(c)[i] == b[i] by {
        assert(c[i] as u8 == encode_utf8(c)[i]);
        assert(c[i] == b[i] as char);
    }
    assert(encode_utf8(c) =~= b);
}

proof fn lemma_scalar_no_newline(s: u32)
    requires
        is_scalar(s),
        s != 10,
    ensures
        !encode_scalar(s).contains(10u8),
{
    let e = encode_scalar(s);
    if vstd::utf8::has_width_1_encoding(s) {
        assert((s & 0x7F) as u8 == s) by (bit_vector)
            requires
                s <= 0x7F,
        ;
        assert(e =~= seq![s as u8]);
    } else {
        let l2 = vstd::utf8::leading_byte_width_2(s);
        let l3 = vstd::utf8::leading_byte_width_3(s);
        let l4 = vstd::utf8::leading_byte_width_4(s);
        let c1 = vstd::utf8::last_continuation_byte(s);
        let c2 = vstd::utf8::second_last_continuation_byte(s);
        let c3 = vstd::utf8::third_last_continuation_byte(s);
        assert(l2 >= 0x80) by (bit_vector)
            requires
                l2 == 0xC0u8 | ((s >> 6) & 0x1F) as u8,
        ;
        assert(l3 >= 0x80) by (bit_vector)
            requires
                l3 == 0xE0u8 | ((s >> 12) & 0x0F) as u8,
        ;
        assert(l4 >= 0x80) by (bit_vector)
            requires
                l4 == 0xF0u8 | ((s >> 18) & 0x7) as u8,
        ;
        assert(c1 >= 0x80) by (bit_vector)
            requires
                c1 == 0x80u8 | (s & 0x3F) as u8,
        ;
        assert(c2 >= 0x80) by (bit_vector)
            requires
                c2 == 0x80u8 | ((s >> 6) & 0x3F) as u8,
        ;
        assert(c3 >= 0x80) by (bit_vector)
            requires
                c3 == 0x80u8 | ((s >> 12) & 0x3F) as u8,
        ;
        assert forall|i: int| 0 <= i < e.len() implies e[i] >= 0x80 by {}
    }
}

/// Characters without a newline encode to bytes without a newline byte.
pub proof fn lemma_encode_no_newline(s: Seq<char>)
    requires
        !s.contains('\n'),
    ensures
        !encode_utf8(s).contains(10u8),
    decreases s.len(),
{
    if s.len() > 0 {
        assert(s[0] != '\n');
        assert(!s.drop_first().contains('\n')) by {
            if s.drop_first().contains('\n') {
                let j = choose|j: int| 0 <= j < s.drop_first().len() && s.drop_first()[j] == '\n';
                assert(s[j + 1] == '\n');
            }
        }
        lemma_encode_no_newline(s.drop_first());
        vstd::utf8::char_is_scalar(s[0]);
        assert(s[0] as u32 != 10) by {
            if s[0] as u32 == 10 {
                vstd::utf8::char_u32_cast(s[0], 10u32);
                assert('\n' as u32 == 10);
                vstd::utf8::char_u32_cast('\n', 10u32);
            }
        }
        lemma_scalar_no_newline(s[0] as u32);
        let a = encode_scalar(s[0] as u32);
        let b = encode_utf8(s.drop_first());
        if (a + b).contains(10u8) {
            let j = choose|j: int| 0 <= j < (a + b).len() && (a + b)[j] == 10u8;
            if j < a.len() {
                assert(a[j] == 10u8);
            } else {
                assert(b[j - a.len()] == 10u8);
            }
        }
    }
}

/// A line of bytes, ended by its only newline: the next line starts after it.
pub proof fn lemma_line_at(data: Seq<u8>, pos: int, line: Seq<u8>)
    requires
        0 <= pos,
        pos + line.len() <= data.len(),
        data.subrange(pos, pos + line.len()) == line,
        line.len() >= 1,
        line.last() == 10,
        !line.drop_last().contains(10u8),
    ensures
        next_line_start(data, pos) == pos + line.len(),
{
    let p = seq![10u8];
    let k = pos + line.len() - 1;
    crate::bytes::lemma_find_from(data, p, pos);
    assert(data[k] == line.last());
    assert(data.subrange(k, k + 1) =~= p);
    let f = crate::bytes::find_from(data, p, pos);
    if f == -1 {
        assert(data.subrange(k, k + p.len()) != p);
    } else if f < k {
        assert(data.subrange(f, f + 1)[0] == data[f]);
        assert(data[f] == line[f - pos]);
        assert(line.drop_last()[f - pos] == 10u8);
    } else if f > k {
        assert(data.subrange(k, k + p.len()) != p);
    }
}

/// Reading a line that was written as the UTF-8 of `chars`, which end with
/// their only newline.
pub proof fn lemma_read_line(data: Seq<u8>, pos: int, chars: Seq<char>)
    requires
        0 <= pos,
        pos + encode_utf8(chars).len() <= data.len(),
        data.subrange(pos, pos + encode_utf8(chars).len()) == encode_utf8(chars),
        chars.len() >= 2,
        chars.last() == '\n',
        !chars.drop_last().contains('\n'),
        !white(chars[chars.len() - 2]),
    ensures
        line_read(data, pos) == Ok::<Option<(Seq<char>, int)>, ImportError>(
            Some((chars.drop_last(), pos + encode_utf8(chars).len())),
        ),
{
    reveal(line_read);
    let body = chars.drop_last();
    assert(chars =~= body + seq!['\n']);
    lemma_encode_concat(body, seq!['\n']);
    let enc = encode_utf8(chars);
    assert(encode_utf8(seq!['\n']) =~= seq![10u8]) by {
        let x: u32 = '\n' as u32;
        assert(x == 10);
        assert((x & 0x7F) as u8 == 10u8) by (bit_vector)
            requires
                x == 10,
        ;
        assert(encode_scalar(x) =~= seq![10u8]);
        assert(seq!['\n'].drop_first() =~= Seq::<char>::empty());
        assert(encode_utf8(seq!['\n']) == encode_scalar(x) + encode_utf8(seq!['\n'].drop_first()));
    }
    lemma_encode_no_newline(body);
    assert(enc.drop_last() =~= encode_utf8(body));
    assert(enc.last() == 10u8);
    lemma_line_at(data, pos, enc);
    assert(data.len() > pos);
    vstd::utf8::encode_utf8_valid_utf8(chars);
    vstd::utf8::encode_utf8_decode_utf8(chars);
    assert(data.subrange(pos, pos + enc.len()) == enc);
    crate::text::lemma_trim_end_at(chars, body.len() as int);
    assert(chars.take(body.len() as int) =~= body);
}

/// The decimal text of a number reads back as that number.
pub proof fn lemma_decimal(n: nat)
    ensures
        decimal(n).len() > 0,
        forall|i: int| 0 <= i < decimal(n).len() ==> is_digit(#[trigger] decimal(n)[i]),
        digits_value(decimal(n)) == n,
    decreases n,
{
    if n < 10 {
        let c = (48 + n) as char;
        assert(decimal(n) =~= seq![c]);
        assert(seq![c].drop_last() =~= Seq::<char>::empty());
        assert(digits_value(Seq::<char>::empty()) == 0);
        assert(c as int == 48 + n);
    } else {
        lemma_decimal(n / 10);
        let c = (48 + n % 10) as char;
        assert(c as int == 48 + n % 10);
        assert(decimal(n).drop_last() =~= decimal(n / 10));
        assert(decimal(n).last() == c);
        assert(n == (n / 10) * 10 + n % 10);
        assert forall|i: int| 0 <= i < decimal(n).len() implies is_digit(#[trigger] decimal(n)[i]) by {
            if i < decimal(n / 10).len() {
                assert(decimal(n)[i] == decimal(n / 10)[i]);
            }
        }
    }
}

/// A number that fits reads back from its decimal text.
pub proof fn lemma_parse_decimal(n: nat)
    requires
        n <= usize::MAX,
    ensures
        parse_usize_spec(decimal(n)) == Some(n),
{
    lemma_decimal(n);
    assert(decimal(n)[0] != '+');
    assert(unsigned_digits(decimal(n)) == decimal(n));
}

/// The first `c` in `s` is at `i`.
pub proof fn lemma_split_once_at(s: Seq<char>, c: char, i: int)
    requires
        0 <= i < s.len(),
        s[i] == c,
        forall|j: int| 0 <= j < i ==> s[j] != c,
    ensures
        split_once(s, c) == Some((s.take(i), s.skip(i + 1))),
{
    reveal(split_once);
    let k = choose|k: int| 0 <= k < s.len() && s[k] == c && forall|j: int| 0 <= j < k ==> s[j] != c;
    assert(0 <= k < s.len() && s[k] == c && forall|j: int| 0 <= j < k ==> s[j] != c);
    if k < i {
        assert(s[k] != c);
    }
    if k > i {
        assert(s[i] != c);
    }
}


/// The UTF-8 of a newline is the newline byte.
proof fn lemma_encode_newline()
    ensures
        encode_utf8(seq!['\n']) == seq![10u8],
{
    let x: u32 = '\n' as u32;
    assert(x == 10);
    assert((x & 0x7F) as u8 == 10u8) by (bit_vector)
        requires
            x == 10,
    ;
    assert(encode_scalar(x) =~= seq![10u8]);
    assert(seq!['\n'].drop_first() =~= Seq::<char>::empty());
    assert(encode_utf8(seq!['\n']) == encode_scalar(x) + encode_utf8(seq!['\n'].drop_first()));
    assert(encode_utf8(seq!['\n']) =~= seq![10u8]);
}

/// The bytes of a canonical id are lower-case hex digits.
proof fn lemma_id_digits(id: Seq<u8>)
    requires
        id_hex(id) == Some(id),
    ensures
        forall|i: int| 0 <= i < id.len() ==> {
            let c = #[trigger] id[i];
            (48 <= c <= 57) || (97 <= c <= 102)
        },
{
    crate::objects::lemma_hex_encode_digits(object_id_from_hex(id).unwrap());
}

/// Hex-digit characters are neither spaces, newlines nor whitespace.
proof fn lemma_id_chars(id: Seq<u8>)
    requires
        id_hex(id) == Some(id),
    ensures
        forall|i: int| 0 <= i < id.len() ==> #[trigger] id[i] < 128,
        !ascii_chars(id).contains(' '),
        !ascii_chars(id).contains('\n'),
        forall|i: int| 0 <= i < id.len() ==> !white(#[trigger] ascii_chars(id)[i]),
{
    lemma_id_digits(id);
    let c = ascii_chars(id);
    assert forall|i: int| 0 <= i < id.len() implies !white(#[trigger] c[i]) by {
        assert(c[i] == id[i] as char);
        assert(id[i] as char as int == id[i] as int);
    }
    if c.contains(' ') {
        let j = choose|j: int| 0 <= j < c.len() && c[j] == ' ';
        assert(!white(c[j]));
    }
    if c.contains('\n') {
        let j = choose|j: int| 0 <= j < c.len() && c[j] == '\n';
        assert(!white(c[j]));
    }
}

/// The labels of kinds are lower-case letters.
proof fn lemma_label_chars(k: ObjectKind)
    ensures
        forall|i: int| 0 <= i < kind_label(k).len() ==> #[trigger] kind_label(k)[i] < 128,
        !ascii_chars(kind_label(k)).contains(' '),
        !ascii_chars(kind_label(k)).contains('\n'),
        forall|i: int| 0 <= i < kind_label(k).len() ==> !white(#[trigger] ascii_chars(kind_label(k))[i]),
        kind_named(kind_label(k)) == Some(k),
        kind_label(k).len() > 0,
{
    let l = kind_label(k);
    let c = ascii_chars(l);
    assert forall|i: int| 0 <= i < l.len() implies 97 <= #[trigger] l[i] <= 122 by {}
    assert forall|i: int| 0 <= i < l.len() implies !white(#[trigger] c[i]) by {
        assert(c[i] as int == l[i] as int);
    }
    if c.contains(' ') {
        let j = choose|j: int| 0 <= j < c.len() && c[j] == ' ';
        assert(!white(c[j]));
    }
    if c.contains('\n') {
        let j = choose|j: int| 0 <= j < c.len() && c[j] == '\n';
        assert(!white(c[j]));
    }
}

/// A ref worth writing: a name without spaces or newlines and a target
/// that is a canonical forty-digit id.
pub open spec fn writable_ref(r: (Seq<char>, Seq<u8>)) -> bool {
    &&& !r.0.contains(' ')
    &&& !r.0.contains('\n')
    &&& r.1.len() == 40
    &&& id_hex(r.1) == Some(r.1)
}

/// An object worth writing: a canonical forty-digit id and data whose
/// size fits.
pub open spec fn writable_object(o: (Seq<u8>, ObjectKind, Seq<u8>)) -> bool {
    &&& o.0.len() == 40
    &&& id_hex(o.0) == Some(o.0)
    &&& o.2.len() <= usize::MAX
}

/// The text of a ref line.
pub open spec fn ref_line_chars(name: Seq<char>, target: Seq<u8>) -> Seq<char> {
    "ref "@ + name + " "@ + ascii_chars(target) + "\n"@
}

proof fn lemma_ref_encoding(name: Seq<char>, target: Seq<u8>)
    requires
        writable_ref((name, target)),
    ensures
        ref_record(name, target) == encode_utf8(ref_line_chars(name, target)),
        ref_line_chars(name, target).len() >= 2,
        ref_line_chars(name, target).last() == '\n',
        !ref_line_chars(name, target).drop_last().contains('\n'),
        !white(ref_line_chars(name, target)[ref_line_chars(name, target).len() - 2]),
        ref_line_chars(name, target).drop_last() == "ref "@ + name + " "@ + ascii_chars(target),
{
    reveal_strlit("ref ");
    reveal_strlit(" ");
    reveal_strlit("\n");
    lemma_id_chars(target);
    let t_chars = ascii_chars(target);
    let head = "ref "@ + name + " "@;
    let chars = ref_line_chars(name, target);
    lemma_encode_ascii(target);
    lemma_encode_newline();
    lemma_encode_concat(head, t_chars);
    lemma_encode_concat(head + t_chars, "\n"@);
    assert("\n"@ =~= seq!['\n']);
    assert(chars =~= (head + t_chars) + "\n"@);
    let body = head + t_chars;
    assert(chars.drop_last() =~= body);
    assert(!body.contains('\n')) by {
        if body.contains('\n') {
            let j = choose|j: int| 0 <= j < body.len() && body[j] == '\n';
            if j < 4 {
                assert(body[j] == "ref "@[j]);
            } else if j < 4 + name.len() {
                assert(name[j - 4] == '\n');
            } else if j == 4 + name.len() {
                assert(body[j] == ' ');
            } else {
                assert(t_chars[j - 5 - name.len()] == '\n');
            }
        }
    }
    assert(chars[chars.len() - 2] == t_chars[39]);
}

proof fn lemma_ref_line_parse(name: Seq<char>, target: Seq<u8>)
    requires
        writable_ref((name, target)),
    ensures
        ref_line_spec("ref "@ + name + " "@ + ascii_chars(target)) == Ok::<(Seq<char>, Seq<u8>), ImportError>(
            (name, target),
        ),
        "ref "@ + name + " "@ + ascii_chars(target) != end_refs_text(),
{
    reveal(ref_line_spec);
    reveal_strlit("ref ");
    reveal_strlit(" ");
    reveal_strlit("ref");
    reveal_strlit("end-refs");
    lemma_id_chars(target);
    lemma_encode_ascii(target);
    let t_chars = ascii_chars(target);
    let body = "ref "@ + name + " "@ + t_chars;
    assert(body[0] == 'r');
    assert(end_refs_text()[0] == 'e');
    let rest = name + " "@ + t_chars;
    lemma_split_once_at(body, ' ', 3);
    assert(body.take(3) =~= "ref"@);
    assert(body.skip(4) =~= rest);
    assert forall|j: int| 0 <= j < name.len() implies rest[j] != ' ' by {
        assert(rest[j] == name[j]);
        if name[j] == ' ' {
            assert(name.contains(' '));
        }
    }
    lemma_split_once_at(rest, ' ', name.len() as int);
    assert(rest.take(name.len() as int) =~= name);
    assert(rest.skip(name.len() + 1int) =~= t_chars);
}

/// Reading a written ref line gives the ref back.
pub proof fn lemma_ref_step(data: Seq<u8>, pos: int, name: Seq<char>, target: Seq<u8>)
    requires
        0 <= pos,
        pos + ref_record(name, target).len() <= data.len(),
        data.subrange(pos, pos + ref_record(name, target).len()) == ref_record(name, target),
        writable_ref((name, target)),
    ensures
        ref_step_spec(data, pos) == Ok::<(Option<(Seq<char>, Seq<u8>)>, int), ImportError>(
            (Some((name, target)), pos + ref_record(name, target).len()),
        ),
{
    lemma_ref_encoding(name, target);
    lemma_read_line(data, pos, ref_line_chars(name, target));
    lemma_ref_line_parse(name, target);
}


/// The text of an object line.
pub open spec fn object_line_chars(id: Seq<u8>, kind: ObjectKind, size: nat) -> Seq<char> {
    "object "@ + ascii_chars(id) + " "@ + ascii_chars(kind_label(kind)) + " "@ + decimal(size) + "\n"@
}

proof fn lemma_no_newline_concat(a: Seq<char>, b: Seq<char>)
    requires
        !a.contains('\n'),
        !b.contains('\n'),
    ensures
        !(a + b).contains('\n'),
{
    if (a + b).contains('\n') {
        let j = choose|j: int| 0 <= j < (a + b).len() && (a + b)[j] == '\n';
        if j < a.len() {
            assert(a[j] == '\n');
        } else {
            assert(b[j - a.len()] == '\n');
        }
    }
}

proof fn lemma_object_encoding(id: Seq<u8>, kind: ObjectKind, data: Seq<u8>)
    requires
        writable_object((id, kind, data)),
    ensures
        object_record(id, kind, data) == encode_utf8(object_line_chars(id, kind, data.len()))
            + data + seq![10u8],
        object_line_chars(id, kind, data.len()).len() >= 2,
        object_line_chars(id, kind, data.len()).last() == '\n',
        !object_line_chars(id, kind, data.len()).drop_last().contains('\n'),
        !white(object_line_chars(id, kind, data.len())[object_line_chars(id, kind, data.len()).len() - 2]),
        object_line_chars(id, kind, data.len()).drop_last() == "object "@ + ascii_chars(id) + " "@
            + ascii_chars(kind_label(kind)) + " "@ + decimal(data.len()),
{
    reveal_strlit("object ");
    reveal_strlit(" ");
    reveal_strlit("\n");
    lemma_id_chars(id);
    lemma_label_chars(kind);
    lemma_decimal(data.len());
    let label = kind_label(kind);
    let ic = ascii_chars(id);
    let lc = ascii_chars(label);
    let d = decimal(data.len());
    let chars = object_line_chars(id, kind, data.len());
    lemma_encode_ascii(id);
    lemma_encode_ascii(label);
    let a = "object "@;
    let tail = " "@ + d + "\n"@;
    lemma_encode_concat(a, ic);
    lemma_encode_concat(a + ic, " "@);
    lemma_encode_concat(a + ic + " "@, lc);
    lemma_encode_concat(a + ic + " "@ + lc, tail);
    assert(chars =~= a + ic + " "@ + lc + tail);
    let body = a + ic + " "@ + lc + " "@ + d;
    assert(chars.drop_last() =~= body);
    assert(!a.contains('\n')) by {
        if a.contains('\n') {
            let j = choose|j: int| 0 <= j < a.len() && a[j] == '\n';
        }
    }
    assert(!" "@.contains('\n')) by {
        if " "@.contains('\n') {
            let j = choose|j: int| 0 <= j < " "@.len() && " "@[j] == '\n';
        }
    }
    assert(!d.contains('\n')) by {
        if d.contains('\n') {
            let j = choose|j: int| 0 <= j < d.len() && d[j] == '\n';
            assert(crate::transfer::is_digit(d[j]));
        }
    }
    lemma_no_newline_concat(a, ic);
    lemma_no_newline_concat(a + ic, " "@);
    lemma_no_newline_concat(a + ic + " "@, lc);
    lemma_no_newline_concat(a + ic + " "@ + lc, " "@);
    lemma_no_newline_concat(a + ic + " "@ + lc + " "@, d);
    assert(chars[chars.len() - 2] == d.last());
    assert(crate::transfer::is_digit(d[d.len() - 1]));
}

/// Text without `c`, then `c`, then more: it splits at that `c`.
proof fn lemma_split_after(prefix: Seq<char>, c: char, rest: Seq<char>)
    requires
        !prefix.contains(c),
    ensures
        split_once(prefix + seq![c] + rest, c) == Some((prefix, rest)),
{
    let s = prefix + seq![c] + rest;
    assert forall|j: int| 0 <= j < prefix.len() implies s[j] != c by {
        assert(s[j] == prefix[j]);
        if prefix[j] == c {
            assert(prefix.contains(c));
        }
    }
    lemma_split_once_at(s, c, prefix.len() as int);
    assert(s.take(prefix.len() as int) =~= prefix);
    assert(s.skip(prefix.len() + 1int) =~= rest);
}

proof fn lemma_object_splits(id: Seq<u8>, kind: ObjectKind, size: nat)
    requires
        id.len() == 40,
        id_hex(id) == Some(id),
    ensures
        ({
            let ic = ascii_chars(id);
            let lc = ascii_chars(kind_label(kind));
            let d = decimal(size);
            let body = "object "@ + ic + " "@ + lc + " "@ + d;
            let r1 = ic + " "@ + lc + " "@ + d;
            let r2 = lc + " "@ + d;
            &&& split_once(body, ' ') == Some(("object"@, r1))
            &&& split_once(r1, ' ') == Some((ic, r2))
            &&& split_once(r2, ' ') == Some((lc, d))
            &&& body != end_objects_text()
        }),
{
    reveal_strlit("object ");
    reveal_strlit(" ");
    reveal_strlit("object");
    reveal_strlit("end-objects");
    lemma_id_chars(id);
    lemma_label_chars(kind);
    let ic = ascii_chars(id);
    let lc = ascii_chars(kind_label(kind));
    let d = decimal(size);
    let body = "object "@ + ic + " "@ + lc + " "@ + d;
    let r1 = ic + " "@ + lc + " "@ + d;
    let r2 = lc + " "@ + d;
    assert(body[0] == 'o');
    assert(end_objects_text()[0] == 'e');
    assert(!"object"@.contains(' ')) by {
        if "object"@.contains(' ') {
            let j = choose|j: int| 0 <= j < "object"@.len() && "object"@[j] == ' ';
        }
    }
    assert(body =~= "object"@ + seq![' '] + r1);
    assert(r1 =~= ic + seq![' '] + r2);
    assert(r2 =~= lc + seq![' '] + d);
    lemma_split_after("object"@, ' ', r1);
    lemma_split_after(ic, ' ', r2);
    lemma_split_after(lc, ' ', d);
}

proof fn lemma_object_line_parse(id: Seq<u8>, kind: ObjectKind, size: nat)
    requires
        id.len() == 40,
        id_hex(id) == Some(id),
        size <= usize::MAX,
    ensures
        object_header_spec(
            "object "@ + ascii_chars(id) + " "@ + ascii_chars(kind_label(kind)) + " "@ + decimal(size),
        ) == Ok::<(Seq<u8>, ObjectKind, nat), ImportError>((id, kind, size)),
        "object "@ + ascii_chars(id) + " "@ + ascii_chars(kind_label(kind)) + " "@ + decimal(size)
            != end_objects_text(),
{
    reveal(object_header_spec);
    reveal_strlit("object");
    lemma_object_splits(id, kind, size);
    lemma_label_chars(kind);
    lemma_parse_decimal(size);
    lemma_encode_ascii(id);
    lemma_encode_ascii(kind_label(kind));
    lemma_id_chars(id);
}

proof fn lemma_object_step_from(
    all: Seq<u8>,
    pos: int,
    t: Seq<char>,
    next: int,
    id: Seq<u8>,
    kind: ObjectKind,
    data: Seq<u8>,
)
    requires
        line_read(all, pos) == Ok::<Option<(Seq<char>, int)>, ImportError>(Some((t, next))),
        t != end_objects_text(),
        object_header_spec(t) == Ok::<(Seq<u8>, ObjectKind, nat), ImportError>((id, kind, data.len())),
        next + data.len() < all.len(),
        all[next + data.len()] == 10u8,
        all.subrange(next, next + data.len()) == data,
    ensures
        object_step_spec(all, pos) == Ok::<(Option<(Seq<u8>, ObjectKind, Seq<u8>)>, int), ImportError>(
            (Some((id, kind, data)), next + data.len() + 1),
        ),
{
}

proof fn lemma_object_read_line(all: Seq<u8>, pos: int, id: Seq<u8>, kind: ObjectKind, data: Seq<u8>)
    requires
        0 <= pos,
        pos + object_record(id, kind, data).len() <= all.len(),
        all.subrange(pos, pos + object_record(id, kind, data).len()) == object_record(id, kind, data),
        writable_object((id, kind, data)),
    ensures
        object_record(id, kind, data) == encode_utf8(object_line_chars(id, kind, data.len())) + data
            + seq![10u8],
        object_line_chars(id, kind, data.len()).drop_last() == "object "@ + ascii_chars(id) + " "@
            + ascii_chars(kind_label(kind)) + " "@ + decimal(data.len()),
        line_read(all, pos) == Ok::<Option<(Seq<char>, int)>, ImportError>(
            Some(
                (
                    object_line_chars(id, kind, data.len()).drop_last(),
                    pos + encode_utf8(object_line_chars(id, kind, data.len())).len(),
                ),
            ),
        ),
{
    let chars = object_line_chars(id, kind, data.len());
    let line = encode_utf8(chars);
    let rec = object_record(id, kind, data);
    lemma_object_encoding(id, kind, data);
    assert(all.subrange(pos, pos + line.len()) =~= line) by {
        assert forall|j: int| 0 <= j < line.len() implies all.subrange(pos, pos + line.len())[j]
            == line[j] by {
            assert(all[pos + j] == rec[j]);
        }
    }
    lemma_read_line(all, pos, chars);
}

proof fn lemma_object_data_at(all: Seq<u8>, pos: int, line: Seq<u8>, data: Seq<u8>)
    requires
        0 <= pos,
        pos + line.len() + data.len() + 1 <= all.len(),
        all.subrange(pos, pos + line.len() + data.len() + 1) == line + data + seq![10u8],
    ensures
        all[pos + line.len() + data.len()] == 10u8,
        all.subrange(pos + line.len(), pos + line.len() + data.len()) == data,
{
    let rec = line + data + seq![10u8];
    let next = pos + line.len();
    assert(all[next + data.len()] == rec[line.len() + data.len() as int]);
    assert(all.subrange(next, next + data.len()) =~= data) by {
        assert forall|j: int| 0 <= j < data.len() implies all.subrange(next, next + data.len())[j]
            == data[j] by {
            assert(all[next + j] == rec[line.len() + j]);
        }
    }
}

/// Reading a written object record gives the object back.
pub proof fn lemma_object_step(all: Seq<u8>, pos: int, id: Seq<u8>, kind: ObjectKind, data: Seq<u8>)
    requires
        0 <= pos,
        pos + object_record(id, kind, data).len() <= all.len(),
        all.subrange(pos, pos + object_record(id, kind, data).len()) == object_record(id, kind, data),
        writable_object((id, kind, data)),
    ensures
        object_step_spec(all, pos) == Ok::<(Option<(Seq<u8>, ObjectKind, Seq<u8>)>, int), ImportError>(
            (Some((id, kind, data)), pos + object_record(id, kind, data).len()),
        ),
{
    let chars = object_line_chars(id, kind, data.len());
    let line = encode_utf8(chars);
    let t = chars.drop_last();
    let next = pos + line.len();
    lemma_object_read_line(all, pos, id, kind, data);
    lemma_object_line_parse(id, kind, data.len());
    lemma_object_data_at(all, pos, line, data);
    lemma_object_step_from(all, pos, t, next, id, kind, data);
}


proof fn lemma_line_advances(data: Seq<u8>, pos: int)
    ensures
        line_read(data, pos) matches Ok(Some((_, n))) ==> pos < n <= data.len(),
{
    reveal(line_read);
    if pos < data.len() {
        if pos >= 0 {
            crate::transfer::lemma_next_line_start(data, pos);
        }
    }
}

/// A step through the refs moves forward and stays inside the data.
pub proof fn lemma_ref_step_advances(data: Seq<u8>, pos: int)
    ensures
        ref_step_spec(data, pos) matches Ok((_, n)) ==> pos < n <= data.len(),
{
    lemma_line_advances(data, pos);
}

/// A step through the objects moves forward and stays inside the data.
pub proof fn lemma_object_step_advances(data: Seq<u8>, pos: int)
    ensures
        object_step_spec(data, pos) matches Ok((_, n)) ==> pos < n <= data.len(),
{
    lemma_line_advances(data, pos);
}

/// The refs read from `pos` up to the end line, and where the objects start.
pub open spec fn read_refs(data: Seq<u8>, pos: int) -> Result<(Seq<(Seq<char>, Seq<u8>)>, int), ImportError>
    decreases data.len() - pos,
{
    match ref_step_spec(data, pos) {
        Err(e) => Err(e),
        Ok((None, next)) => Ok((Seq::empty(), next)),
        Ok((Some(r), next)) => {
            proof {
                lemma_ref_step_advances(data, pos);
            }
            match read_refs(data, next) {
                Err(e) => Err(e),
                Ok((rest, end)) => Ok((seq![r] + rest, end)),
            }
        },
    }
}

/// The objects read from `pos` up to the end line, and where the stream ends.
pub open spec fn read_objects(data: Seq<u8>, pos: int) -> Result<
    (Seq<(Seq<u8>, ObjectKind, Seq<u8>)>, int),
    ImportError,
>
    decreases data.len() - pos,
{
    match object_step_spec(data, pos) {
        Err(e) => Err(e),
        Ok((None, next)) => Ok((Seq::empty(), next)),
        Ok((Some(o), next)) => {
            proof {
                lemma_object_step_advances(data, pos);
            }
            match read_objects(data, next) {
                Err(e) => Err(e),
                Ok((rest, end)) => Ok((seq![o] + rest, end)),
            }
        },
    }
}

/// Reading a whole stream: the header, the refs, the objects, and where
/// the reading stopped.
pub open spec fn import_spec(data: Seq<u8>) -> Result<
    (Seq<(Seq<char>, Seq<u8>)>, Seq<(Seq<u8>, ObjectKind, Seq<u8>)>, int),
    ImportError,
> {
    match header_spec(data) {
        Err(e) => Err(e),
        Ok(p) => match read_refs(data, p) {
            Err(e) => Err(e),
            Ok((refs, q)) => match read_objects(data, q) {
                Err(e) => Err(e),
                Ok((objs, end)) => Ok((refs, objs, end)),
            },
        },
    }
}

/// The ref lines of a stream.
pub open spec fn refs_bytes(refs: Seq<(Seq<char>, Seq<u8>)>) -> Seq<u8>
    decreases refs.len(),
{
    if refs.len() == 0 {
        Seq::empty()
    } else {
        ref_record(refs[0].0, refs[0].1) + refs_bytes(refs.skip(1))
    }
}

/// The object records of a stream.
pub open spec fn objects_bytes(objs: Seq<(Seq<u8>, ObjectKind, Seq<u8>)>) -> Seq<u8>
    decreases objs.len(),
{
    if objs.len() == 0 {
        Seq::empty()
    } else {
        object_record(objs[0].0, objs[0].1, objs[0].2) + objects_bytes(objs.skip(1))
    }
}

/// A whole stream: header, ref lines, end of refs, object records, end of
/// objects.
pub open spec fn export_stream(
    refs: Seq<(Seq<char>, Seq<u8>)>,
    objs: Seq<(Seq<u8>, ObjectKind, Seq<u8>)>,
) -> Seq<u8> {
    header_record() + refs_bytes(refs) + end_refs_record() + objects_bytes(objs) + end_objects_record()
}

proof fn lemma_end_line(data: Seq<u8>, pos: int, text: Seq<char>)
    requires
        0 <= pos,
        text.len() >= 1,
        !text.contains('\n'),
        !white(text.last()),
        pos + encode_utf8(text + seq!['\n']).len() <= data.len(),
        data.subrange(pos, pos + encode_utf8(text + seq!['\n']).len()) == encode_utf8(text + seq!['\n']),
    ensures
        line_read(data, pos) == Ok::<Option<(Seq<char>, int)>, ImportError>(
            Some((text, pos + encode_utf8(text + seq!['\n']).len())),
        ),
{
    let chars = text + seq!['\n'];
    assert(chars.drop_last() =~= text);
    assert(chars[chars.len() - 2] == text.last());
    lemma_read_line(data, pos, chars);
}

proof fn lemma_end_refs_step(data: Seq<u8>, pos: int)
    requires
        0 <= pos,
        pos + end_refs_record().len() <= data.len(),
        data.subrange(pos, pos + end_refs_record().len()) == end_refs_record(),
    ensures
        ref_step_spec(data, pos) == Ok::<(Option<(Seq<char>, Seq<u8>)>, int), ImportError>(
            (None, pos + end_refs_record().len()),
        ),
{
    reveal_strlit("end-refs\n");
    reveal_strlit("end-refs");
    let text = "end-refs"@;
    assert("end-refs\n"@ =~= text + seq!['\n']);
    assert(!text.contains('\n')) by {
        if text.contains('\n') {
            let j = choose|j: int| 0 <= j < text.len() && text[j] == '\n';
        }
    }
    lemma_end_line(data, pos, text);
}

proof fn lemma_end_objects_step(data: Seq<u8>, pos: int)
    requires
        0 <= pos,
        pos + end_objects_record().len() <= data.len(),
        data.subrange(pos, pos + end_objects_record().len()) == end_objects_record(),
    ensures
        object_step_spec(data, pos) == Ok::<(Option<(Seq<u8>, ObjectKind, Seq<u8>)>, int), ImportError>(
            (None, pos + end_objects_record().len()),
        ),
{
    reveal_strlit("end-objects\n");
    reveal_strlit("end-objects");
    let text = "end-objects"@;
    assert("end-objects\n"@ =~= text + seq!['\n']);
    assert(!text.contains('\n')) by {
        if text.contains('\n') {
            let j = choose|j: int| 0 <= j < text.len() && text[j] == '\n';
        }
    }
    lemma_end_line(data, pos, text);
}

proof fn lemma_header_read(data: Seq<u8>)
    requires
        header_record().len() <= data.len(),
        data.subrange(0, header_record().len() as int) == header_record(),
    ensures
        header_spec(data) == Ok::<int, ImportError>(header_record().len() as int),
{
    reveal_strlit("gix-fast-export-1\n");
    reveal_strlit("gix-fast-export-1");
    let text = "gix-fast-export-1"@;
    assert("gix-fast-export-1\n"@ =~= text + seq!['\n']);
    assert(!text.contains('\n')) by {
        if text.contains('\n') {
            let j = choose|j: int| 0 <= j < text.len() && text[j] == '\n';
        }
    }
    lemma_end_line(data, 0, text);
}

proof fn lemma_subrange_split(data: Seq<u8>, pos: int, a: Seq<u8>, b: Seq<u8>)
    requires
        0 <= pos,
        pos + a.len() + b.len() <= data.len(),
        data.subrange(pos, pos + a.len() + b.len()) == a + b,
    ensures
        data.subrange(pos, pos + a.len()) == a,
        data.subrange(pos + a.len(), pos + a.len() + b.len()) == b,
{
    assert forall|j: int| 0 <= j < a.len() implies data.subrange(pos, pos + a.len())[j] == a[j] by {
        assert(data[pos + j] == (a + b)[j]);
    }
    assert forall|j: int| 0 <= j < b.len() implies data.subrange(pos + a.len(), pos + a.len() + b.len())[j]
        == b[j] by {
        assert(data[pos + a.len() + j] == (a + b)[a.len() + j]);
    }
    assert(data.subrange(pos, pos + a.len()) =~= a);
    assert(data.subrange(pos + a.len(), pos + a.len() + b.len()) =~= b);
}

/// Written ref lines followed by the end line read back as the refs.
pub proof fn lemma_read_refs(data: Seq<u8>, pos: int, refs: Seq<(Seq<char>, Seq<u8>)>)
    requires
        0 <= pos,
        pos + refs_bytes(refs).len() + end_refs_record().len() <= data.len(),
        data.subrange(pos, pos + refs_bytes(refs).len() + end_refs_record().len()) == refs_bytes(refs)
            + end_refs_record(),
        forall|i: int| 0 <= i < refs.len() ==> writable_ref(#[trigger] refs[i]),
    ensures
        read_refs(data, pos) == Ok::<(Seq<(Seq<char>, Seq<u8>)>, int), ImportError>(
            (refs, pos + refs_bytes(refs).len() + end_refs_record().len()),
        ),
    decreases refs.len(),
{
    if refs.len() == 0 {
        assert(refs_bytes(refs) =~= Seq::<u8>::empty());
        assert(refs_bytes(refs) + end_refs_record() =~= end_refs_record());
        lemma_end_refs_step(data, pos);
        assert(refs =~= Seq::<(Seq<char>, Seq<u8>)>::empty());
    } else {
        let r = refs[0];
        let rec = ref_record(r.0, r.1);
        let rest = refs.skip(1);
        assert(refs_bytes(refs) == rec + refs_bytes(rest));
        assert(rec + refs_bytes(rest) + end_refs_record() =~= rec + (refs_bytes(rest) + end_refs_record()));
        lemma_subrange_split(data, pos, rec, refs_bytes(rest) + end_refs_record());
        assert(writable_ref(refs[0]));
        lemma_ref_step(data, pos, r.0, r.1);
        assert forall|i: int| 0 <= i < rest.len() implies writable_ref(#[trigger] rest[i]) by {
            assert(rest[i] == refs[i + 1]);
        }
        lemma_read_refs(data, pos + rec.len(), rest);
        lemma_ref_step_advances(data, pos);
        assert(seq![r] + rest =~= refs);
    }
}

/// Written object records followed by the end line read back as the
/// objects.
pub proof fn lemma_read_objects(data: Seq<u8>, pos: int, objs: Seq<(Seq<u8>, ObjectKind, Seq<u8>)>)
    requires
        0 <= pos,
        pos + objects_bytes(objs).len() + end_objects_record().len() <= data.len(),
        data.subrange(pos, pos + objects_bytes(objs).len() + end_objects_record().len())
            == objects_bytes(objs) + end_objects_record(),
        forall|i: int| 0 <= i < objs.len() ==> writable_object(#[trigger] objs[i]),
    ensures
        read_objects(data, pos) == Ok::<(Seq<(Seq<u8>, ObjectKind, Seq<u8>)>, int), ImportError>(
            (objs, pos + objects_bytes(objs).len() + end_objects_record().len()),
        ),
    decreases objs.len(),
{
    if objs.len() == 0 {
        assert(objects_bytes(objs) =~= Seq::<u8>::empty());
        assert(objects_bytes(objs) + end_objects_record() =~= end_objects_record());
        lemma_end_objects_step(data, pos);
        assert(objs =~= Seq::<(Seq<u8>, ObjectKind, Seq<u8>)>::empty());
    } else {
        let o = objs[0];
        let rec = object_record(o.0, o.1, o.2);
        let rest = objs.skip(1);
        assert(objects_bytes(objs) == rec + objects_bytes(rest));
        assert(rec + objects_bytes(rest) + end_objects_record() =~= rec + (objects_bytes(rest)
            + end_objects_record()));
        lemma_subrange_split(data, pos, rec, objects_bytes(rest) + end_objects_record());
        assert(writable_object(objs[0]));
        lemma_object_step(data, pos, o.0, o.1, o.2);
        assert forall|i: int| 0 <= i < rest.len() implies writable_object(#[trigger] rest[i]) by {
            assert(rest[i] == objs[i + 1]);
        }
        lemma_read_objects(data, pos + rec.len(), rest);
        lemma_object_step_advances(data, pos);
        assert(seq![o] + rest =~= objs);
    }
}

/// Reading a written stream gives back the refs and objects it was written
/// from, in order, and stops at its end; provided ref names hold no spaces
/// or newlines and every id is a canonical forty-digit id.
pub proof fn lemma_stream_roundtrip(
    refs: Seq<(Seq<char>, Seq<u8>)>,
    objs: Seq<(Seq<u8>, ObjectKind, Seq<u8>)>,
)
    requires
        forall|i: int| 0 <= i < refs.len() ==> writable_ref(#[trigger] refs[i]),
        forall|i: int| 0 <= i < objs.len() ==> writable_object(#[trigger] objs[i]),
    ensures
        import_spec(export_stream(refs, objs)) == Ok::<
            (Seq<(Seq<char>, Seq<u8>)>, Seq<(Seq<u8>, ObjectKind, Seq<u8>)>, int),
            ImportError,
        >((refs, objs, export_stream(refs, objs).len() as int)),
{
    let h = header_record();
    let rb = refs_bytes(refs);
    let er = end_refs_record();
    let ob = objects_bytes(objs);
    let eo = end_objects_record();
    let data = export_stream(refs, objs);
    assert(data =~= h + ((rb + er) + (ob + eo)));
    assert(data.subrange(0, data.len() as int) =~= data);
    assert(data.len() == h.len() + ((rb + er) + (ob + eo)).len());
    lemma_subrange_split(data, 0, h, (rb + er) + (ob + eo));
    lemma_header_read(data);
    lemma_subrange_split(data, h.len() as int, rb + er, ob + eo);
    lemma_read_refs(data, h.len() as int, refs);
    lemma_read_objects(data, (h.len() + rb.len() + er.len()) as int, objs);
}

/// What is read after the entries `acc`: the entries read so far put in
/// front of what the rest reads as.
pub open spec fn after_read<A>(acc: Seq<A>, x: Result<(Seq<A>, int), ImportError>) -> Result<
    (Seq<A>, int),
    ImportError,
> {
    match x {
        Err(e) => Err(e),
        Ok((rest, end)) => Ok((acc + rest, end)),
    }
}

proof fn lemma_after_read_push<A>(acc: Seq<A>, a: A, x: Result<(Seq<A>, int), ImportError>)
    ensures
        after_read(acc, match x {
            Err(e) => Err(e),
            Ok((rest, end)) => Ok((seq![a] + rest, end)),
        }) == after_read(acc.push(a), x),
{
    match x {
        Err(e) => {},
        Ok((rest, end)) => {
            assert(acc + (seq![a] + rest) =~= acc.push(a) + rest);
        },
    }
}

/// An object record of a stream: its id, kind, and where its data lies.
pub struct ObjectRecord {
    pub id: Vec<u8>,
    pub kind: ObjectKind,
    pub start: usize,
    pub end: usize,
}

pub open spec fn records_view(data: Seq<u8>, v: Seq<ObjectRecord>) -> Seq<(Seq<u8>, ObjectKind, Seq<u8>)> {
    v.map_values(|o: ObjectRecord| (o.id@, o.kind, data.subrange(o.start as int, o.end as int)))
}

pub open spec fn stream_view(
    data: Seq<u8>,
    r: Result<(Vec<crate::transfer::ExportRef>, Vec<ObjectRecord>, usize), ImportError>,
) -> Result<(Seq<(Seq<char>, Seq<u8>)>, Seq<(Seq<u8>, ObjectKind, Seq<u8>)>, int), ImportError> {
    match r {
        Ok((refs, objs, end)) => Ok((crate::transfer::refs_view(refs@), records_view(data, objs@), end as int)),
        Err(e) => Err(e),
    }
}

/// Read the ref lines from `start` up to the end line; where the objects
/// start.
fn read_ref_lines(data: &[u8], start: usize) -> (r: Result<(Vec<crate::transfer::ExportRef>, usize), ImportError>)
    requires
        start <= data@.len(),
    ensures
        match r {
            Ok((refs, q)) => q <= data@.len() && read_refs(data@, start as int) == Ok::<
                (Seq<(Seq<char>, Seq<u8>)>, int),
                ImportError,
            >((crate::transfer::refs_view(refs@), q as int)),
            Err(e) => read_refs(data@, start as int) == Err::<(Seq<(Seq<char>, Seq<u8>)>, int), ImportError>(e),
        },
{
    let mut refs: Vec<crate::transfer::ExportRef> = Vec::new();
    let mut pos = start;
    assert(crate::transfer::refs_view(refs@) =~= Seq::<(Seq<char>, Seq<u8>)>::empty());
    assert(after_read(Seq::<(Seq<char>, Seq<u8>)>::empty(), read_refs(data@, start as int)) =~= read_refs(
        data@,
        start as int,
    )) by {
        match read_refs(data@, start as int) {
            Err(e) => {},
            Ok((rest, end)) => {
                assert(Seq::<(Seq<char>, Seq<u8>)>::empty() + rest =~= rest);
            },
        }
    }
    loop
        invariant
            pos <= data@.len(),
            after_read(crate::transfer::refs_view(refs@), read_refs(data@, pos as int)) == read_refs(
                data@,
                start as int,
            ),
        decreases data@.len() - pos,
    {
        proof {
            lemma_ref_step_advances(data@, pos as int);
        }
        match crate::transfer::next_ref(data, pos) {
            Err(e) => {
                assert(read_refs(data@, pos as int) == Err::<(Seq<(Seq<char>, Seq<u8>)>, int), ImportError>(e));
                return Err(e);
            },
            Ok(crate::transfer::RefStep::End { next }) => {
                assert(crate::transfer::refs_view(refs@) + Seq::<(Seq<char>, Seq<u8>)>::empty()
                    =~= crate::transfer::refs_view(refs@));
                return Ok((refs, next));
            },
            Ok(crate::transfer::RefStep::Entry { entry, next }) => {
                let ghost acc = crate::transfer::refs_view(refs@);
                let ghost ev = entry@;
                proof {
                    lemma_after_read_push(acc, ev, read_refs(data@, next as int));
                }
                refs.push(entry);
                assert(crate::transfer::refs_view(refs@) =~= acc.push(ev));
                pos = next;
            },
        }
    }
}

/// Read the object records from `start` up to the end line; where the
/// stream ends.
fn read_object_records(data: &[u8], start: usize) -> (r: Result<(Vec<ObjectRecord>, usize), ImportError>)
    requires
        start <= data@.len(),
    ensures
        match r {
            Ok((objs, end)) => read_objects(data@, start as int) == Ok::<
                (Seq<(Seq<u8>, ObjectKind, Seq<u8>)>, int),
                ImportError,
            >((records_view(data@, objs@), end as int)) && forall|i: int|
                0 <= i < objs@.len() ==> (#[trigger] objs@[i]).start <= objs@[i].end <= data@.len(),
            Err(e) => read_objects(data@, start as int) == Err::<
                (Seq<(Seq<u8>, ObjectKind, Seq<u8>)>, int),
                ImportError,
            >(e),
        },
{
    let mut objs: Vec<ObjectRecord> = Vec::new();
    let mut pos = start;
    assert(records_view(data@, objs@) =~= Seq::<(Seq<u8>, ObjectKind, Seq<u8>)>::empty());
    assert(after_read(Seq::<(Seq<u8>, ObjectKind, Seq<u8>)>::empty(), read_objects(data@, pos as int))
        =~= read_objects(data@, pos as int)) by {
        match read_objects(data@, pos as int) {
            Err(e) => {},
            Ok((rest, end)) => {
                assert(Seq::<(Seq<u8>, ObjectKind, Seq<u8>)>::empty() + rest =~= rest);
            },
        }
    }
    loop
        invariant
            pos <= data@.len(),
            after_read(records_view(data@, objs@), read_objects(data@, pos as int)) == read_objects(
                data@,
                start as int,
            ),
            forall|i: int| 0 <= i < objs@.len() ==> (#[trigger] objs@[i]).start <= objs@[i].end <= data@.len(),
        decreases data@.len() - pos,
    {
        proof {
            lemma_object_step_advances(data@, pos as int);
        }
        match crate::transfer::next_object(data, pos) {
            Err(e) => {
                assert(read_objects(data@, pos as int) == Err::<
                    (Seq<(Seq<u8>, ObjectKind, Seq<u8>)>, int),
                    ImportError,
                >(e));
                return Err(e);
            },
            Ok(crate::transfer::ObjectStep::End { next }) => {
                assert(records_view(data@, objs@) + Seq::<(Seq<u8>, ObjectKind, Seq<u8>)>::empty()
                    =~= records_view(data@, objs@));
                return Ok((objs, next));
            },
            Ok(crate::transfer::ObjectStep::Record { id, kind, start: s, end: e, next }) => {
                let ghost acc = records_view(data@, objs@);
                let ghost ov = (id@, kind, data@.subrange(s as int, e as int));
                proof {
                    lemma_after_read_push(acc, ov, read_objects(data@, next as int));
                }
                objs.push(ObjectRecord { id, kind, start: s, end: e });
                assert(records_view(data@, objs@) =~= acc.push(ov));
                pos = next;
            },
        }
    }
}

/// Read a whole stream: the refs, the object records, and where the stream
/// ends.
pub fn read_stream(data: &[u8]) -> (r: Result<
    (Vec<crate::transfer::ExportRef>, Vec<ObjectRecord>, usize),
    ImportError,
>)
    ensures
        stream_view(data@, r) == import_spec(data@),
        r matches Ok((_, objs, _)) ==> forall|i: int|
            0 <= i < objs@.len() ==> (#[trigger] objs@[i]).start <= objs@[i].end <= data@.len(),
{
    let start = match crate::transfer::read_header(data) {
        Ok(p) => p,
        Err(e) => {
            return Err(e);
        },
    };
    proof {
        lemma_line_advances(data@, 0);
    }
    let (refs, q) = match read_ref_lines(data, start) {
        Ok(t) => t,
        Err(e) => {
            return Err(e);
        },
    };
    let (objs, end) = match read_object_records(data, q) {
        Ok(t) => t,
        Err(e) => {
            return Err(e);
        },
    };
    Ok((refs, objs, end))
}

/// The objects read from `pos` before the end line or the first error, and
/// that error.
pub open spec fn objects_until_error(data: Seq<u8>, pos: int) -> (
    Seq<(Seq<u8>, ObjectKind, Seq<u8>)>,
    Option<ImportError>,
)
    decreases data.len() - pos,
{
    match object_step_spec(data, pos) {
        Err(e) => (Seq::empty(), Some(e)),
        Ok((None, _)) => (Seq::empty(), None),
        Ok((Some(o), next)) => {
            proof {
                lemma_object_step_advances(data, pos);
            }
            let rest = objects_until_error(data, next);
            (seq![o] + rest.0, rest.1)
        },
    }
}

/// Reading the objects fails exactly when an error stops them before the
/// end line, and otherwise reads the same objects.
proof fn lemma_until_error(data: Seq<u8>, pos: int)
    ensures
        match read_objects(data, pos) {
            Ok((objs, _)) => objects_until_error(data, pos) == (objs, None::<ImportError>),
            Err(e) => objects_until_error(data, pos).1 == Some(e),
        },
    decreases data.len() - pos,
{
    lemma_object_step_advances(data, pos);
    match object_step_spec(data, pos) {
        Err(e) => {},
        Ok((None, _)) => {},
        Ok((Some(o), next)) => {
            lemma_until_error(data, next);
        },
    }
}

/// What importing a stream does, in order.
pub enum ImportAction {
    /// Write an object whose data lies in the stream.
    WriteObject { record: ObjectRecord },
    /// Point a ref at its target.
    SetRef { entry: crate::transfer::ExportRef },
}

/// The same, as contracts see it.
pub enum ImportActionSpec {
    WriteObject(Seq<u8>, ObjectKind, Seq<u8>),
    SetRef(Seq<char>, Seq<u8>),
}

pub open spec fn action_view(data: Seq<u8>, a: ImportAction) -> ImportActionSpec {
    match a {
        ImportAction::WriteObject { record } => ImportActionSpec::WriteObject(
            record.id@,
            record.kind,
            data.subrange(record.start as int, record.end as int),
        ),
        ImportAction::SetRef { entry } => ImportActionSpec::SetRef(entry.name@, entry.target@),
    }
}

pub open spec fn actions_view(data: Seq<u8>, v: Seq<ImportAction>) -> Seq<ImportActionSpec> {
    v.map_values(|a: ImportAction| action_view(data, a))
}

/// Importing writes every object of the stream, in order, and only then
/// sets the refs, in order.
pub open spec fn import_actions_spec(
    refs: Seq<(Seq<char>, Seq<u8>)>,
    objs: Seq<(Seq<u8>, ObjectKind, Seq<u8>)>,
) -> Seq<ImportActionSpec> {
    objs.map_values(|o: (Seq<u8>, ObjectKind, Seq<u8>)| ImportActionSpec::WriteObject(o.0, o.1, o.2))
        + refs.map_values(|r: (Seq<char>, Seq<u8>)| ImportActionSpec::SetRef(r.0, r.1))
}


/// What importing a stream does, and the error that stops it: nothing
/// when the header or a ref line is bad; otherwise every object read before
/// the end line or the first bad record, written in order, then, when the
/// objects were all read, every ref set in order.
pub open spec fn import_outcome(data: Seq<u8>) -> (Seq<ImportActionSpec>, Option<ImportError>) {
    match header_spec(data) {
        Err(e) => (Seq::empty(), Some(e)),
        Ok(p) => match read_refs(data, p) {
            Err(e) => (Seq::empty(), Some(e)),
            Ok((refs, q)) => {
                let (objs, err) = objects_until_error(data, q);
                let writes = objs.map_values(
                    |o: (Seq<u8>, ObjectKind, Seq<u8>)| ImportActionSpec::WriteObject(o.0, o.1, o.2),
                );
                match err {
                    Some(e) => (writes, Some(e)),
                    None => (writes + refs.map_values(
                        |r: (Seq<char>, Seq<u8>)| ImportActionSpec::SetRef(r.0, r.1),
                    ), None),
                }
            },
        },
    }
}

/// Read a stream into the actions that import it, and the error that stops
/// the import, if any: the objects are written first, then the refs set;
/// objects read before a bad record are still written.
pub fn import_plan(data: &[u8]) -> (r: (Vec<ImportAction>, Option<ImportError>))
    ensures
        (actions_view(data@, r.0@), r.1) == import_outcome(data@),
        r.1 is None <==> import_spec(data@) is Ok,
        import_spec(data@) matches Ok((refs, objs, _)) ==> actions_view(data@, r.0@) == import_actions_spec(
            refs,
            objs,
        ),
        forall|i: int|
            0 <= i < r.0@.len() ==> (#[trigger] r.0@[i] matches ImportAction::WriteObject { record }
                ==> record.start <= record.end <= data@.len()),
{
    let start = match crate::transfer::read_header(data) {
        Ok(p) => p,
        Err(e) => {
            let none: Vec<ImportAction> = Vec::new();
            assert(actions_view(data@, none@) =~= Seq::<ImportActionSpec>::empty());
            return (none, Some(e));
        },
    };
    proof {
        lemma_line_advances(data@, 0);
    }
    let (refs, q) = match read_ref_lines(data, start) {
        Ok(t) => t,
        Err(e) => {
            let none: Vec<ImportAction> = Vec::new();
            assert(actions_view(data@, none@) =~= Seq::<ImportActionSpec>::empty());
            return (none, Some(e));
        },
    };
    let ghost rv = crate::transfer::refs_view(refs@);
    let ghost fo = |o: (Seq<u8>, ObjectKind, Seq<u8>)| ImportActionSpec::WriteObject(o.0, o.1, o.2);
    let ghost fr = |r: (Seq<char>, Seq<u8>)| ImportActionSpec::SetRef(r.0, r.1);
    let ghost total = objects_until_error(data@, q as int);
    proof {
        lemma_until_error(data@, q as int);
    }
    let mut out: Vec<ImportAction> = Vec::new();
    let ghost mut done: Seq<(Seq<u8>, ObjectKind, Seq<u8>)> = Seq::empty();
    let mut pos = q;
    assert(actions_view(data@, out@) =~= done.map_values(fo));
    assert(done + objects_until_error(data@, pos as int).0 =~= total.0);
    let mut failure: Option<ImportError> = None;
    loop
        invariant_except_break
            failure is None,
        invariant
            pos <= data@.len(),
            fo == (|o: (Seq<u8>, ObjectKind, Seq<u8>)| ImportActionSpec::WriteObject(o.0, o.1, o.2)),
            total == objects_until_error(data@, q as int),
            done + objects_until_error(data@, pos as int).0 == total.0,
            objects_until_error(data@, pos as int).1 == total.1,
            actions_view(data@, out@) == done.map_values(fo),
            forall|i: int|
                0 <= i < out@.len() ==> (#[trigger] out@[i] matches ImportAction::WriteObject { record }
                    ==> record.start <= record.end <= data@.len()),
        ensures
            actions_view(data@, out@) == total.0.map_values(fo),
            failure == total.1,
            forall|i: int|
                0 <= i < out@.len() ==> (#[trigger] out@[i] matches ImportAction::WriteObject { record }
                    ==> record.start <= record.end <= data@.len()),
        decreases data@.len() - pos,
    {
        proof {
            lemma_object_step_advances(data@, pos as int);
        }
        match crate::transfer::next_object(data, pos) {
            Err(e) => {
                assert(done =~= total.0);
                failure = Some(e);
                break;
            },
            Ok(crate::transfer::ObjectStep::End { next }) => {
                assert(done =~= total.0);
                break;
            },
            Ok(crate::transfer::ObjectStep::Record { id, kind, start: s, end: e, next }) => {
                let ghost ov = (id@, kind, data@.subrange(s as int, e as int));
                let ghost before = actions_view(data@, out@);
                out.push(ImportAction::WriteObject { record: ObjectRecord { id, kind, start: s, end: e } });
                assert(actions_view(data@, out@) =~= before.push(fo(ov)));
                proof {
                    assert(done.push(ov).map_values(fo) =~= done.map_values(fo).push(fo(ov)));
                    assert(done.push(ov) + objects_until_error(data@, next as int).0 =~= done + (seq![ov]
                        + objects_until_error(data@, next as int).0));
                    done = done.push(ov);
                }
                pos = next;
            },
        }
    }
    if failure.is_some() {
        return (out, failure);
    }
    let ghost mid = actions_view(data@, out@);
    let n = out.len();
    let mut k: usize = 0;
    assert(rv.take(0).map_values(fr) =~= Seq::<ImportActionSpec>::empty());
    assert(mid + rv.take(0).map_values(fr) =~= mid);
    while k < refs.len()
        invariant
            rv == crate::transfer::refs_view(refs@),
            fr == (|r: (Seq<char>, Seq<u8>)| ImportActionSpec::SetRef(r.0, r.1)),
            k <= refs@.len(),
            out@.len() == n + k,
            actions_view(data@, out@) == mid + rv.take(k as int).map_values(fr),
            forall|j: int|
                0 <= j < out@.len() ==> (#[trigger] out@[j] matches ImportAction::WriteObject { record }
                    ==> record.start <= record.end <= data@.len()),
        decreases refs@.len() - k,
    {
        let entry = crate::transfer::ExportRef { name: refs[k].name.clone(), target: refs[k].target.clone() };
        let ghost before = actions_view(data@, out@);
        out.push(ImportAction::SetRef { entry });
        assert(actions_view(data@, out@) =~= before.push(fr(rv[k as int])));
        assert(rv.take(k + 1).map_values(fr) =~= rv.take(k as int).map_values(fr).push(fr(rv[k as int])));
        k = k + 1;
    }
    assert(rv.take(refs@.len() as int) =~= rv);
    (out, None)
}

} // verus!
