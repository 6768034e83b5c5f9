//! Reading commit objects, rewriting their identities and the commit ids in
//! their messages, and re-encoding them.
use vstd::prelude::*;
use crate::bytes::{extend_all, vec_views};
use crate::matcher::{regex_accepts, regex_matches, spans_view, valid_spans, Matcher};
use crate::objects::{build_commit_bytes, commit_bytes, id_hex, opt_view, parse_object_id};
use crate::options::{lowercase, opt_bytes, to_lowercase, Options};
use crate::replace::{end_before, extend_range};
use crate::text::{lossy_decoded, lossy_text, views_of};

verus! {

/// The fields of a commit object: tree, parents, author, committer,
/// encoding, message.
pub struct CommitFields {
    pub tree: Vec<u8>,
    pub parents: Vec<Vec<u8>>,
    pub author: Vec<u8>,
    pub committer: Vec<u8>,
    pub encoding: Option<Vec<u8>>,
    pub message: Vec<u8>,
}

impl View for CommitFields {
    type V = (Seq<u8>, Seq<Seq<u8>>, Seq<u8>, Seq<u8>, Option<Seq<u8>>, Seq<u8>);

    open spec fn view(&self) -> Self::V {
        (
            self.tree@,
            vec_views(self.parents@),
            self.author@,
            self.committer@,
            opt_view(self.encoding),
            self.message@,
        )
    }
}

/// What `gix_object::CommitRef::from_bytes` reads out of `data` with SHA-1
/// ids: tree, parents, raw author and committer, encoding and message.
pub uninterp spec fn commit_fields(data: Seq<u8>) -> Option<
    (Seq<u8>, Seq<Seq<u8>>, Seq<u8>, Seq<u8>, Option<Seq<u8>>, Seq<u8>),
>;

/// Forty hexadecimal digits, as the commit parser checks every id.
pub open spec fn sha1_hex(s: Seq<u8>) -> bool {
    s.len() == 40 && forall|i: int| 0 <= i < 40 ==> crate::objects::hex_digit(#[trigger] s[i])
}

pub open spec fn fields_view(r: Option<CommitFields>) -> Option<
    (Seq<u8>, Seq<Seq<u8>>, Seq<u8>, Seq<u8>, Option<Seq<u8>>, Seq<u8>),
> {
    match r {
        Some(f) => Some(f@),
        None => None,
    }
}

/// Calls `gix_object::CommitRef::from_bytes` with SHA-1 ids and copies the
/// fields out. Claimed: the result is the named reading of `data`, and, as
/// the parser validates them, the tree and every parent are forty hex
/// digits.
#[verifier::external_body]
pub(crate) fn decode_commit(data: &[u8]) -> (r: Option<CommitFields>)
    ensures
        fields_view(r) == commit_fields(data@),
        r matches Some(f) ==> sha1_hex(f.tree@) && forall|i: int|
            0 <= i < f.parents@.len() ==> sha1_hex(#[trigger] f.parents@[i]@),
{
    gix_object::CommitRef::from_bytes(data, gix_hash::Kind::Sha1).ok().map(|c| CommitFields {
        tree: c.tree.to_vec(),
        parents: c.parents.iter().map(|p| p.to_vec()).collect(),
        author: c.author.to_vec(),
        committer: c.committer.to_vec(),
        encoding: c.encoding.map(|e| e.to_vec()),
        message: c.message.to_vec(),
    })
}

/// A signature split into name, email and time, each as written.
pub struct Signature {
    pub name: Vec<u8>,
    pub email: Vec<u8>,
    pub time: Vec<u8>,
}

impl View for Signature {
    type V = (Seq<u8>, Seq<u8>, Seq<u8>);

    open spec fn view(&self) -> Self::V {
        (self.name@, self.email@, self.time@)
    }
}

/// What `gix_actor::SignatureRef::from_bytes` reads out of a raw signature:
/// name, email and time.
pub uninterp spec fn signature_fields(raw: Seq<u8>) -> Option<(Seq<u8>, Seq<u8>, Seq<u8>)>;

pub open spec fn signature_view(r: Option<Signature>) -> Option<(Seq<u8>, Seq<u8>, Seq<u8>)> {
    match r {
        Some(s) => Some(s@),
        None => None,
    }
}

/// Calls `gix_actor::SignatureRef::from_bytes` and copies the fields out.
/// Claimed: the result is the named reading of `raw`.
#[verifier::external_body]
fn decode_signature(raw: &[u8]) -> (r: Option<Signature>)
    ensures
        signature_view(r) == signature_fields(raw@),
{
    gix_actor::SignatureRef::from_bytes(raw).ok().map(|s| Signature {
        name: s.name.to_vec(),
        email: s.email.to_vec(),
        time: s.time.as_bytes().to_vec(),
    })
}

/// The bytes that `bstr::ByteSlice::trim` leaves of `b`.
pub uninterp spec fn bstr_trimmed(b: Seq<u8>) -> Seq<u8>;

/// Calls `bstr::ByteSlice::trim` (through `gix::bstr`), which is what
/// `SignatureRef::trim` applies to a name and an email. Claimed: the result
/// is the named trimming of `b`, and for valid UTF-8 it is the text without
/// its leading and trailing Unicode whitespace, as bstr documents.
#[verifier::external_body]
fn trim_bytes(b: &[u8]) -> (r: Vec<u8>)
    ensures
        r@ == bstr_trimmed(b@),
        vstd::utf8::valid_utf8(b@) ==> r@ == vstd::utf8::encode_utf8(
            crate::text::trim(vstd::utf8::decode_utf8(b@)),
        ),
{
    gix::bstr::ByteSlice::trim(b).to_vec()
}

/// The lower-case text of some bytes, decoded leniently.
pub fn lower_bytes(bytes: &[u8]) -> (r: String)
    ensures
        r@ == lowercase(lossy_decoded(bytes@)),
{
    let text = lossy_text(bytes);
    to_lowercase(text.as_str())
}

pub open spec fn opt_chars(v: Option<String>) -> Option<Seq<char>> {
    match v {
        Some(s) => Some(s@),
        None => None,
    }
}

/// The form in which a name or email is compared: trimmed, decoded and
/// lower-cased.
pub open spec fn compared_form(b: Seq<u8>) -> Seq<char> {
    lowercase(lossy_decoded(bstr_trimmed(b)))
}

/// Whether a signature is one the options rewrite: its email is one of the
/// old emails, and its name is the old name when one is given.
pub open spec fn identity_selected(name: Seq<u8>, email: Seq<u8>, options: Options) -> bool {
    &&& views_of(options.old_emails@).contains(compared_form(email))
    &&& match opt_chars(options.old_name) {
        Some(n) => n == compared_form(name),
        None => true,
    }
}

/// The signature line after the rewrite, and whether it changed. Nothing is
/// rewritten without old emails and a new email.
pub open spec fn signature_rewrite(raw: Seq<u8>, sig: (Seq<u8>, Seq<u8>, Seq<u8>), options: Options) -> (
    Seq<u8>,
    bool,
) {
    if options.old_emails@.len() == 0 || options.new_email is None {
        (raw, false)
    } else if !identity_selected(sig.0, sig.1, options) {
        (raw, false)
    } else {
        (
            match opt_bytes(options.new_name) {
                Some(n) => n,
                None => sig.0,
            } + seq![32u8, 60] + opt_bytes(options.new_email).unwrap() + seq![62u8, 32] + sig.2,
            true,
        )
    }
}

/// A signature line is rewritten only when it is selected: with old
/// emails, a new email, and a matching identity; otherwise it stays as it
/// was. A rewritten line is the new name (or, without one, the signature's
/// own name), then ` <`, the new email, `> ` and the signature's time.
pub proof fn lemma_signature_rewrite_shape(raw: Seq<u8>, sig: (Seq<u8>, Seq<u8>, Seq<u8>), options: Options)
    ensures
        !signature_rewrite(raw, sig, options).1 ==> signature_rewrite(raw, sig, options).0 == raw,
        signature_rewrite(raw, sig, options).1 <==> (options.old_emails@.len() != 0
            && options.new_email is Some && identity_selected(sig.0, sig.1, options)),
        signature_rewrite(raw, sig, options).1 ==> ({
            let line = signature_rewrite(raw, sig, options).0;
            let name = match opt_bytes(options.new_name) {
                Some(n) => n,
                None => sig.0,
            };
            let email = opt_bytes(options.new_email).unwrap();
            let n = name.len() as int;
            let m = email.len() as int;
            &&& line.len() == n + 2 + m + 2 + sig.2.len()
            &&& line.take(n) == name
            &&& line[n] == 32u8 && line[n + 1] == 60u8
            &&& line.subrange(n + 2, n + 2 + m) == email
            &&& line[n + 2 + m] == 62u8 && line[n + 3 + m] == 32u8
            &&& line.skip(line.len() - sig.2.len()) == sig.2
        }),
        options.new_name is None && signature_rewrite(raw, sig, options).1 ==> signature_rewrite(
            raw,
            sig,
            options,
        ).0.take(sig.0.len() as int) == sig.0,
{
    if signature_rewrite(raw, sig, options).1 {
        let line = signature_rewrite(raw, sig, options).0;
        let name = match opt_bytes(options.new_name) {
            Some(n) => n,
            None => sig.0,
        };
        let email = opt_bytes(options.new_email).unwrap();
        assert(line == name + seq![32u8, 60] + email + seq![62u8, 32] + sig.2);
        assert(line.take(name.len() as int) =~= name);
        assert(line.subrange((name.len() + 2) as int, (name.len() + 2 + email.len()) as int) =~= email);
        assert(line.skip(line.len() - sig.2.len()) =~= sig.2);
    }
}

/// Whether `target` is among the strings.
fn contains_string(values: &Vec<String>, target: &String) -> (r: bool)
    ensures
        r == views_of(values@).contains(target@),
{
    let mut i: usize = 0;
    while i < values.len()
        invariant
            i <= values@.len(),
            forall|j: int| 0 <= j < i ==> values@[j]@ != target@,
        decreases values@.len() - i,
    {
        if values[i] == *target {
            assert(views_of(values@)[i as int] == target@);
            return true;
        }
        i = i + 1;
    }
    proof {
        if views_of(values@).contains(target@) {
            let j = choose|j: int| 0 <= j < views_of(values@).len() && views_of(values@)[j] == target@;
            assert(values@[j]@ == target@);
        }
    }
    false
}

/// Rewrite one author or committer line: a signature whose email is an old
/// email (and whose name is the old name, when one is given) gets the new
/// name, when one is given, and the new email, keeping its time; any other
/// line stays as it was.
pub fn rewrite_signature_line(raw: &[u8], sig: &Signature, options: &Options) -> (r: (Vec<u8>, bool))
    ensures
        (r.0@, r.1) == signature_rewrite(raw@, sig@, *options),
{
    let unchanged = crate::casing::slice_range(raw, 0, raw.len());
    assert(raw@.subrange(0, raw@.len() as int) =~= raw@);
    if options.old_emails.len() == 0 {
        return (unchanged, false);
    }
    let new_email = match &options.new_email {
        Some(e) => e,
        None => {
            return (unchanged, false);
        },
    };
    let email_lower = lower_bytes(trim_bytes(sig.email.as_slice()).as_slice());
    let name_lower = lower_bytes(trim_bytes(sig.name.as_slice()).as_slice());
    let matches_email = contains_string(&options.old_emails, &email_lower);
    let matches_name = match &options.old_name {
        Some(n) => *n == name_lower,
        None => true,
    };
    if !(matches_email && matches_name) {
        return (unchanged, false);
    }
    let mut out: Vec<u8> = Vec::new();
    match &options.new_name {
        Some(n) => extend_all(&mut out, n.as_slice()),
        None => extend_all(&mut out, sig.name.as_slice()),
    }
    let open = vec![32u8, 60];
    extend_all(&mut out, open.as_slice());
    extend_all(&mut out, new_email.as_slice());
    let close = vec![62u8, 32];
    extend_all(&mut out, close.as_slice());
    extend_all(&mut out, sig.time.as_slice());
    (out, true)
}


/// The value last recorded for `key`.
pub open spec fn latest(entries: Seq<(Seq<u8>, Seq<u8>)>, key: Seq<u8>) -> Option<Seq<u8>>
    decreases entries.len(),
{
    if entries.len() == 0 {
        None
    } else if entries.last().0 == key {
        Some(entries.last().1)
    } else {
        latest(entries.drop_last(), key)
    }
}

/// Old commit ids and the ids they were rewritten to, both as hex, in the
/// order they were recorded, with an index of the last value recorded for
/// each old id, ordered by id, for lookups by binary search.
pub struct CommitMap {
    entries: Vec<(Vec<u8>, Vec<u8>)>,
    index: Vec<(Vec<u8>, Vec<u8>)>,
}

pub open spec fn pair_view(p: (Vec<u8>, Vec<u8>)) -> (Seq<u8>, Seq<u8>) {
    (p.0@, p.1@)
}

/// The keys of an index come in strictly increasing byte order.
pub open spec fn index_sorted(iv: Seq<(Seq<u8>, Seq<u8>)>) -> bool {
    forall|i: int, j: int|
        0 <= i < j < iv.len() ==> crate::order::bytes_before(#[trigger] iv[i].0, #[trigger] iv[j].0)
}

/// An index holds, for each old id recorded and only for those, the value
/// last recorded for it.
pub open spec fn index_of(iv: Seq<(Seq<u8>, Seq<u8>)>, entries: Seq<(Seq<u8>, Seq<u8>)>) -> bool {
    &&& index_sorted(iv)
    &&& forall|i: int| 0 <= i < iv.len() ==> latest(entries, #[trigger] iv[i].0) == Some(iv[i].1)
    &&& forall|k: Seq<u8>|
        #[trigger] latest(entries, k) is Some ==> exists|i: int| 0 <= i < iv.len() && iv[i].0 == k
}

/// Where `key` goes in a sorted index: the first position whose key does
/// not come before it.
fn lower_bound(index: &Vec<(Vec<u8>, Vec<u8>)>, key: &[u8]) -> (p: usize)
    requires
        index_sorted(index@.map_values(|q: (Vec<u8>, Vec<u8>)| pair_view(q))),
    ensures
        p <= index@.len(),
        forall|i: int| 0 <= i < p ==> crate::order::bytes_before(#[trigger] index@[i].0@, key@),
        forall|i: int| p <= i < index@.len() ==> !crate::order::bytes_before(#[trigger] index@[i].0@, key@),
{
    let ghost iv = index@.map_values(|q: (Vec<u8>, Vec<u8>)| pair_view(q));
    let mut lo: usize = 0;
    let mut hi: usize = index.len();
    while lo < hi
        invariant
            iv == index@.map_values(|q: (Vec<u8>, Vec<u8>)| pair_view(q)),
            index_sorted(iv),
            lo <= hi <= index@.len(),
            forall|i: int| 0 <= i < lo ==> crate::order::bytes_before(#[trigger] index@[i].0@, key@),
            forall|i: int| hi <= i < index@.len() ==> !crate::order::bytes_before(#[trigger] index@[i].0@, key@),
        decreases hi - lo,
    {
        let mid = lo + (hi - lo) / 2;
        if crate::order::bytes_lt(index[mid].0.as_slice(), key) {
            proof {
                assert forall|i: int| 0 <= i < mid + 1 implies crate::order::bytes_before(
                    #[trigger] index@[i].0@,
                    key@,
                ) by {
                    if i < mid {
                        assert(iv[i].0 == index@[i].0@ && iv[mid as int].0 == index@[mid as int].0@);
                        crate::order::lemma_bytes_transitive(index@[i].0@, index@[mid as int].0@, key@);
                    }
                }
            }
            lo = mid + 1;
        } else {
            proof {
                assert forall|i: int| mid <= i < index@.len() implies !crate::order::bytes_before(
                    #[trigger] index@[i].0@,
                    key@,
                ) by {
                    if i > mid && crate::order::bytes_before(index@[i].0@, key@) {
                        assert(iv[mid as int].0 == index@[mid as int].0@ && iv[i].0 == index@[i].0@);
                        crate::order::lemma_bytes_transitive(index@[mid as int].0@, index@[i].0@, key@);
                    }
                }
            }
            hi = mid;
        }
    }
    lo
}

impl CommitMap {
    pub closed spec fn entries(&self) -> Seq<(Seq<u8>, Seq<u8>)> {
        self.entries@.map_values(|p: (Vec<u8>, Vec<u8>)| pair_view(p))
    }

    closed spec fn index_view(&self) -> Seq<(Seq<u8>, Seq<u8>)> {
        self.index@.map_values(|p: (Vec<u8>, Vec<u8>)| pair_view(p))
    }

    #[verifier::type_invariant]
    closed spec fn indexed(&self) -> bool {
        index_of(self.index_view(), self.entries())
    }

    /// An empty map.
    pub fn new() -> (r: CommitMap)
        ensures
            r@ == Seq::<(Seq<u8>, Seq<u8>)>::empty(),
    {
        let r = CommitMap { entries: Vec::new(), index: Vec::new() };
        assert(r@ =~= Seq::<(Seq<u8>, Seq<u8>)>::empty());
        r
    }

    /// Record that `from` was rewritten to `to`.
    pub fn record(&mut self, from: &[u8], to: &[u8])
        ensures
            final(self)@ == old(self)@.push((from@, to@)),
    {
        proof {
            use_type_invariant(&*self);
        }
        let mut cur = CommitMap { entries: Vec::new(), index: Vec::new() };
        std::mem::swap(&mut cur, self);
        proof {
            use_type_invariant(&cur);
        }
        let ghost ev = cur.entries();
        let ghost iv = cur.index_view();
        let CommitMap { mut entries, mut index } = cur;
        let o = crate::casing::slice_range(from, 0, from.len());
        let n = crate::casing::slice_range(to, 0, to.len());
        assert(from@.subrange(0, from@.len() as int) =~= from@);
        assert(to@.subrange(0, to@.len() as int) =~= to@);
        entries.push((o, n));
        let ghost ev2 = entries@.map_values(|p: (Vec<u8>, Vec<u8>)| pair_view(p));
        assert(ev2 =~= ev.push((from@, to@)));
        assert forall|k: Seq<u8>| #[trigger] latest(ev2, k) == (if k == from@ {
            Some(to@)
        } else {
            latest(ev, k)
        }) by {
            lemma_lookup_after_record(ev, from@, to@, k);
        }
        let p = lower_bound(&index, from);
        let o2 = crate::casing::slice_range(from, 0, from.len());
        let n2 = crate::casing::slice_range(to, 0, to.len());
        if p < index.len() && crate::bytes::bytes_eq(index[p].0.as_slice(), from) {
            assert(iv[p as int].0 == from@);
            index.set(p, (o2, n2));
            let ghost iv2 = index@.map_values(|q: (Vec<u8>, Vec<u8>)| pair_view(q));
            assert(iv2 =~= iv.update(p as int, (from@, to@)));
            assert(forall|i: int| 0 <= i < iv.len() ==> #[trigger] iv2[i].0 == iv[i].0);
            assert(index_of(iv2, ev2)) by {
                assert forall|i: int, j: int| 0 <= i < j < iv2.len() implies crate::order::bytes_before(
                    #[trigger] iv2[i].0,
                    #[trigger] iv2[j].0,
                ) by {
                    assert(iv2[i].0 == iv[i].0 && iv2[j].0 == iv[j].0);
                }
                assert forall|i: int| 0 <= i < iv2.len() implies latest(ev2, #[trigger] iv2[i].0) == Some(
                    iv2[i].1,
                ) by {
                    if i != p {
                        assert(iv2[i] == iv[i]);
                        if iv[i].0 == from@ {
                            if i < p {
                                assert(crate::order::bytes_before(iv[i].0, iv[p as int].0));
                            } else {
                                assert(crate::order::bytes_before(iv[p as int].0, iv[i].0));
                            }
                            crate::order::lemma_bytes_irreflexive(from@);
                        }
                    }
                }
                assert forall|k: Seq<u8>| #[trigger] latest(ev2, k) is Some implies exists|i: int|
                    0 <= i < iv2.len() && iv2[i].0 == k by {
                    if k == from@ {
                        assert(iv2[p as int].0 == k);
                    } else {
                        assert(latest(ev, k) is Some);
                        let i = choose|i: int| 0 <= i < iv.len() && iv[i].0 == k;
                        assert(iv2[i].0 == k);
                    }
                }
            }
            *self = CommitMap { entries, index };
        } else {
            index.insert(p, (o2, n2));
            let ghost iv2 = index@.map_values(|q: (Vec<u8>, Vec<u8>)| pair_view(q));
            assert(iv2 =~= iv.insert(p as int, (from@, to@)));
            assert(forall|i: int| 0 <= i < p ==> #[trigger] iv[i].0 == index@[i].0@);
            assert(forall|i: int| p <= i < iv.len() ==> #[trigger] iv[i].0 == index@[i + 1].0@);
            assert(index_of(iv2, ev2)) by {
                assert forall|i: int, j: int| 0 <= i < j < iv2.len() implies crate::order::bytes_before(
                    #[trigger] iv2[i].0,
                    #[trigger] iv2[j].0,
                ) by {
                    if j < p {
                        assert(iv2[i] == iv[i] && iv2[j] == iv[j]);
                    } else if j == p {
                        assert(iv2[i] == iv[i]);
                        assert(iv[i].0 == index@[i].0@);
                    } else if i == p {
                        assert(iv2[j] == iv[j - 1]);
                        assert(iv[j - 1].0 == index@[j].0@);
                        assert(!crate::order::bytes_before(iv[p as int].0, from@));
                        crate::order::lemma_bytes_total(from@, iv[p as int].0);
                        if j - 1 > p {
                            crate::order::lemma_bytes_transitive(from@, iv[p as int].0, iv[j - 1].0);
                        }
                    } else if i < p {
                        assert(iv2[i] == iv[i] && iv2[j] == iv[j - 1]);
                    } else {
                        assert(iv2[i] == iv[i - 1] && iv2[j] == iv[j - 1]);
                    }
                }
                assert forall|i: int| 0 <= i < iv2.len() implies latest(ev2, #[trigger] iv2[i].0) == Some(
                    iv2[i].1,
                ) by {
                    if i < p {
                        assert(iv2[i] == iv[i]);
                        assert(crate::order::bytes_before(iv[i].0, from@));
                        crate::order::lemma_bytes_irreflexive(from@);
                    } else if i > p {
                        assert(iv2[i] == iv[i - 1]);
                        assert(!crate::order::bytes_before(iv[i - 1].0, from@));
                        if iv[i - 1].0 == from@ {
                            if i - 1 == p {
                            } else {
                                assert(crate::order::bytes_before(iv[p as int].0, iv[i - 1].0));
                                assert(!crate::order::bytes_before(iv[p as int].0, from@));
                            }
                        }
                    }
                }
                assert forall|k: Seq<u8>| #[trigger] latest(ev2, k) is Some implies exists|i: int|
                    0 <= i < iv2.len() && iv2[i].0 == k by {
                    if k == from@ {
                        assert(iv2[p as int].0 == k);
                    } else {
                        assert(latest(ev, k) is Some);
                        let i = choose|i: int| 0 <= i < iv.len() && iv[i].0 == k;
                        if i < p {
                            assert(iv2[i].0 == k);
                        } else {
                            assert(iv2[i + 1].0 == k);
                        }
                    }
                }
            }
            *self = CommitMap { entries, index };
        }
        assert(self@ =~= old(self)@.push((from@, to@)));
    }

    /// The id `old` was last rewritten to.
    pub fn lookup(&self, old: &[u8]) -> (r: Option<Vec<u8>>)
        ensures
            opt_view(r) == latest(self@, old@),
    {
        proof {
            use_type_invariant(self);
        }
        let ghost iv = self.index_view();
        let p = lower_bound(&self.index, old);
        if p < self.index.len() && crate::bytes::bytes_eq(self.index[p].0.as_slice(), old) {
            assert(iv[p as int] == pair_view(self.index@[p as int]));
            assert(iv[p as int].0 == old@);
            assert(latest(self@, iv[p as int].0) == Some(iv[p as int].1));
            let v = crate::casing::slice_range(self.index[p].1.as_slice(), 0, self.index[p].1.len());
            assert(self.index@[p as int].1@.subrange(0, self.index@[p as int].1@.len() as int)
                =~= self.index@[p as int].1@);
            Some(v)
        } else {
            proof {
                if latest(self@, old@) is Some {
                    let i = choose|i: int| 0 <= i < iv.len() && iv[i].0 == old@;
                    assert(iv[i].0 == self.index@[i].0@);
                    if i < p {
                        crate::order::lemma_bytes_irreflexive(old@);
                    } else if i > p {
                        assert(iv[p as int].0 == self.index@[p as int].0@);
                        assert(crate::order::bytes_before(iv[p as int].0, iv[i].0));
                        crate::order::lemma_bytes_total(old@, iv[p as int].0);
                        crate::order::lemma_bytes_asymmetric(iv[p as int].0, old@);
                    }
                }
            }
            None
        }
    }

    /// How many rewrites were recorded.
    pub fn len(&self) -> (r: usize)
        ensures
            r == self@.len(),
    {
        self.entries.len()
    }

    /// The recorded pairs, in order.
    pub fn pairs(&self) -> (r: &Vec<(Vec<u8>, Vec<u8>)>)
        ensures
            r@.map_values(|p: (Vec<u8>, Vec<u8>)| pair_view(p)) == self@,
    {
        &self.entries
    }
}

impl View for CommitMap {
    type V = Seq<(Seq<u8>, Seq<u8>)>;

    open spec fn view(&self) -> Seq<(Seq<u8>, Seq<u8>)> {
        self.entries()
    }
}

/// A lookup after a record gives back what was recorded for that id, and
/// what was there before for any other id.
pub proof fn lemma_lookup_after_record(
    entries: Seq<(Seq<u8>, Seq<u8>)>,
    old: Seq<u8>,
    new: Seq<u8>,
    key: Seq<u8>,
)
    ensures
        latest(entries.push((old, new)), key) == (if key == old {
            Some(new)
        } else {
            latest(entries, key)
        }),
{
    assert(entries.push((old, new)).drop_last() =~= entries);
}

/// `s` starts with `p`.
pub open spec fn starts_with(s: Seq<u8>, p: Seq<u8>) -> bool {
    p.len() <= s.len() && s.take(p.len() as int) == p
}

/// The recorded pairs whose old id starts with `needle`.
pub open spec fn prefix_hits(entries: Seq<(Seq<u8>, Seq<u8>)>, needle: Seq<u8>) -> Seq<
    (Seq<u8>, Seq<u8>),
> {
    entries.filter(|e: (Seq<u8>, Seq<u8>)| starts_with(e.0, needle))
}

/// What a commit id found in a message becomes: a full id is replaced by
/// what it was rewritten to; an abbreviated one by the same number of
/// digits of the rewritten id, when exactly one recorded id starts with it;
/// anything else stays.
pub open spec fn id_replacement(m: Seq<u8>, entries: Seq<(Seq<u8>, Seq<u8>)>) -> Seq<u8> {
    if m.len() == 40 {
        match id_hex(m) {
            Some(id) => match latest(entries, id) {
                Some(n) => n,
                None => m,
            },
            None => m,
        }
    } else {
        let hits = prefix_hits(entries, m);
        if hits.len() == 1 && m.len() <= hits[0].1.len() {
            hits[0].1.take(m.len() as int)
        } else {
            m
        }
    }
}

/// The pattern of commit ids in messages.
pub open spec fn commit_id_pattern() -> Seq<char> {
    "[0-9a-f]{7,40}"@
}

/// A matcher for commit ids: the pattern, case-sensitive, Unicode on (the
/// regex crate's defaults).
pub open spec fn is_commit_id_matcher(m: Matcher) -> bool {
    m.source() == commit_id_pattern() && !m.ignore_case() && m.unicode()
}

/// Compile the commit-id pattern.
pub fn commit_id_matcher() -> (r: Option<Matcher>)
    ensures
        r is Some <==> regex_accepts(commit_id_pattern(), false, true),
        r matches Some(m) ==> is_commit_id_matcher(m),
{
    Matcher::compile("[0-9a-f]{7,40}", false, true)
}

/// A message with its commit ids rewritten; unchanged while nothing was
/// recorded.
pub open spec fn commit_ids_rewritten(message: Seq<u8>, entries: Seq<(Seq<u8>, Seq<u8>)>) -> Seq<u8> {
    if entries.len() == 0 {
        message
    } else {
        crate::replace::splice_with(
            message,
            regex_matches(commit_id_pattern(), false, true, message),
            |m: Seq<u8>| id_replacement(m, entries),
        )
    }
}

/// What one commit id found in a message becomes.
pub fn commit_id_replacement(m: &[u8], map: &CommitMap) -> (r: Vec<u8>)
    ensures
        r@ == id_replacement(m@, map@),
{
    let keep = crate::casing::slice_range(m, 0, m.len());
    assert(m@.subrange(0, m@.len() as int) =~= m@);
    if m.len() == 40 {
        return match parse_object_id(m) {
            Some(id) => match map.lookup(id.as_slice()) {
                Some(n) => n,
                None => keep,
            },
            None => keep,
        };
    }
    let pairs = map.pairs();
    let ghost entries = map@;
    let mut count: usize = 0;
    let mut first: Vec<u8> = Vec::new();
    let mut i: usize = 0;
    while i < pairs.len()
        invariant
            entries == pairs@.map_values(|p: (Vec<u8>, Vec<u8>)| pair_view(p)),
            i <= pairs@.len(),
            count <= i,
            count == prefix_hits(entries.take(i as int), m@).len(),
            count >= 1 ==> first@ == prefix_hits(entries.take(i as int), m@)[0].1,
        decreases pairs@.len() - i,
    {
        proof {
            reveal(Seq::filter);
            assert(entries.take(i + 1).drop_last() =~= entries.take(i as int));
            assert(entries.take(i + 1).last() == pair_view(pairs@[i as int]));
        }
        let old = pairs[i].0.as_slice();
        if m.len() <= old.len() && crate::bytes::occurs_at(old, m, 0) {
            proof {
                assert(old@.subrange(0, m@.len() as int) == old@.take(m@.len() as int));
            }
            if count == 0 {
                first = crate::casing::slice_range(pairs[i].1.as_slice(), 0, pairs[i].1.len());
                assert(pairs@[i as int].1@.subrange(0, pairs@[i as int].1@.len() as int)
                    =~= pairs@[i as int].1@);
            }
            count = count + 1;
        } else {
            proof {
                if m@.len() <= old@.len() {
                    assert(old@.subrange(0, m@.len() as int) == old@.take(m@.len() as int));
                }
            }
        }
        i = i + 1;
    }
    assert(entries.take(pairs@.len() as int) =~= entries);
    if count == 1 && m.len() <= first.len() {
        let r = crate::casing::slice_range(first.as_slice(), 0, m.len());
        assert(r@ =~= first@.take(m@.len() as int));
        r
    } else {
        keep
    }
}

/// Rewrite the commit ids a message mentions, as recorded in `map`.
pub fn rewrite_commit_ids(message: &[u8], map: &CommitMap, ids: &Matcher) -> (r: Vec<u8>)
    requires
        is_commit_id_matcher(*ids),
    ensures
        r@ == commit_ids_rewritten(message@, map@),
{
    let keep = crate::casing::slice_range(message, 0, message.len());
    assert(message@.subrange(0, message@.len() as int) =~= message@);
    if map.len() == 0 {
        return keep;
    }
    let spans = ids.find_all(message);
    let ghost sv = spans_view(spans@);
    let ghost f = |m: Seq<u8>| id_replacement(m, map@);
    let mut out: Vec<u8> = Vec::new();
    let mut last: usize = 0;
    let mut k: usize = 0;
    while k < spans.len()
        invariant
            sv == spans_view(spans@),
            valid_spans(sv, message@.len() as int),
            f == (|m: Seq<u8>| id_replacement(m, map@)),
            k <= spans@.len(),
            last as int == end_before(sv, k as int),
            last <= message@.len(),
            out@ == crate::replace::spliced_with(message@, sv, f, k as nat),
        decreases spans@.len() - k,
    {
        let (start, end) = spans[k];
        assert(sv[k as int] == (start as int, end as int));
        if k > 0 {
            assert(sv[k - 1].1 <= sv[k as int].0);
        }
        extend_range(&mut out, message, last, start);
        let matched = crate::casing::slice_range(message, start, end);
        let repl = commit_id_replacement(matched.as_slice(), map);
        extend_all(&mut out, repl.as_slice());
        last = end;
        k = k + 1;
    }
    extend_range(&mut out, message, last, message.len());
    out
}


/// Why a commit could not be rewritten, as contracts see it.
pub enum CommitFault {
    Unreadable,
    BadAuthor,
    BadCommitter,
    BadTreeId,
    BadParentId,
    MissingParent(Seq<u8>),
}

/// Why a commit could not be rewritten.
pub enum CommitError {
    /// The object does not read as a commit.
    Unreadable,
    /// The author signature does not read.
    BadAuthor,
    /// The committer signature does not read.
    BadCommitter,
    /// The tree id is not an object id.
    BadTreeId,
    /// A parent id is not an object id.
    BadParentId,
    /// A parent (given as hex) was not rewritten before its child.
    MissingParent { parent: Vec<u8> },
}

impl View for CommitError {
    type V = CommitFault;

    open spec fn view(&self) -> CommitFault {
        match self {
            CommitError::Unreadable => CommitFault::Unreadable,
            CommitError::BadAuthor => CommitFault::BadAuthor,
            CommitError::BadCommitter => CommitFault::BadCommitter,
            CommitError::BadTreeId => CommitFault::BadTreeId,
            CommitError::BadParentId => CommitFault::BadParentId,
            CommitError::MissingParent { parent } => CommitFault::MissingParent(parent@),
        }
    }
}

/// A commit read and rewritten but for its tree and parents: the tree id
/// (canonical hex), the parent ids as written, the rewritten author and
/// committer lines, the encoding, and the rewritten message.
pub struct PreparedCommit {
    pub tree: Vec<u8>,
    pub parents: Vec<Vec<u8>>,
    pub author: Vec<u8>,
    pub committer: Vec<u8>,
    pub encoding: Option<Vec<u8>>,
    pub message: Vec<u8>,
}

impl View for PreparedCommit {
    type V = (Seq<u8>, Seq<Seq<u8>>, Seq<u8>, Seq<u8>, Option<Seq<u8>>, Seq<u8>);

    open spec fn view(&self) -> Self::V {
        (
            self.tree@,
            vec_views(self.parents@),
            self.author@,
            self.committer@,
            opt_view(self.encoding),
            self.message@,
        )
    }
}

/// What reading and rewriting a commit object gives, before its tree and
/// parents are settled.
pub open spec fn prepared_spec(data: Seq<u8>, options: Options, entries: Seq<(Seq<u8>, Seq<u8>)>) -> Result<
    (Seq<u8>, Seq<Seq<u8>>, Seq<u8>, Seq<u8>, Option<Seq<u8>>, Seq<u8>),
    CommitFault,
> {
    match commit_fields(data) {
        None => Err(CommitFault::Unreadable),
        Some(f) => match signature_fields(f.2) {
            None => Err(CommitFault::BadAuthor),
            Some(a) => match signature_fields(f.3) {
                None => Err(CommitFault::BadCommitter),
                Some(c) => match id_hex(f.0) {
                    None => Err(CommitFault::BadTreeId),
                    Some(t) => Ok(
                        (
                            t,
                            f.1,
                            signature_rewrite(f.2, a, options).0,
                            signature_rewrite(f.3, c, options).0,
                            f.4,
                            commit_ids_rewritten(f.5, entries),
                        ),
                    ),
                },
            },
        },
    }
}

pub open spec fn prepared_view(r: Result<PreparedCommit, CommitError>) -> Result<
    (Seq<u8>, Seq<Seq<u8>>, Seq<u8>, Seq<u8>, Option<Seq<u8>>, Seq<u8>),
    CommitFault,
> {
    match r {
        Ok(p) => Ok(p@),
        Err(e) => Err(e@),
    }
}

/// Read a commit object and rewrite its signatures and the commit ids in its
/// message. The tree and parents are settled by [`finish_commit`].
pub fn prepare_commit(data: &[u8], options: &Options, map: &CommitMap, ids: &Matcher) -> (r: Result<
    PreparedCommit,
    CommitError,
>)
    requires
        is_commit_id_matcher(*ids),
    ensures
        prepared_view(r) == prepared_spec(data@, *options, map@),
        r is Ok <==> commit_fields(data@) is Some && signature_fields(commit_fields(data@).unwrap().2) is Some
            && signature_fields(commit_fields(data@).unwrap().3) is Some,
{
    let fields = match decode_commit(data) {
        Some(f) => f,
        None => {
            return Err(CommitError::Unreadable);
        },
    };
    let author_sig = match decode_signature(fields.author.as_slice()) {
        Some(s) => s,
        None => {
            return Err(CommitError::BadAuthor);
        },
    };
    let committer_sig = match decode_signature(fields.committer.as_slice()) {
        Some(s) => s,
        None => {
            return Err(CommitError::BadCommitter);
        },
    };
    let (author, _author_changed) = rewrite_signature_line(fields.author.as_slice(), &author_sig, options);
    let (committer, _committer_changed) = rewrite_signature_line(
        fields.committer.as_slice(),
        &committer_sig,
        options,
    );
    let message = rewrite_commit_ids(fields.message.as_slice(), map, ids);
    let tree = match parse_object_id(fields.tree.as_slice()) {
        Some(t) => t,
        None => {
            return Err(CommitError::BadTreeId);
        },
    };
    Ok(
        PreparedCommit {
            tree,
            parents: fields.parents,
            author,
            committer,
            encoding: fields.encoding,
            message,
        },
    )
}

/// The parents mapped to their rewritten ids, in order; the first parent
/// that is not an id, or was not rewritten, stops the mapping.
pub open spec fn mapped_parents(parents: Seq<Seq<u8>>, entries: Seq<(Seq<u8>, Seq<u8>)>) -> Result<
    Seq<Seq<u8>>,
    CommitFault,
>
    decreases parents.len(),
{
    if parents.len() == 0 {
        Ok(Seq::empty())
    } else {
        match mapped_parents(parents.drop_last(), entries) {
            Err(e) => Err(e),
            Ok(v) => match id_hex(parents.last()) {
                None => Err(CommitFault::BadParentId),
                Some(id) => match latest(entries, id) {
                    None => Err(CommitFault::MissingParent(id)),
                    Some(n) => Ok(v.push(n)),
                },
            },
        }
    }
}

proof fn lemma_mapped_err(parents: Seq<Seq<u8>>, entries: Seq<(Seq<u8>, Seq<u8>)>, i: int, e: CommitFault)
    requires
        0 <= i <= parents.len(),
        mapped_parents(parents.take(i), entries) == Err::<Seq<Seq<u8>>, CommitFault>(e),
    ensures
        mapped_parents(parents, entries) == Err::<Seq<Seq<u8>>, CommitFault>(e),
    decreases parents.len() - i,
{
    if i < parents.len() {
        assert(parents.take(i + 1).drop_last() =~= parents.take(i));
        lemma_mapped_err(parents, entries, i + 1, e);
    } else {
        assert(parents.take(i) =~= parents);
    }
}

pub open spec fn bytes_result_view(r: Result<Vec<u8>, CommitError>) -> Result<Seq<u8>, CommitFault> {
    match r {
        Ok(b) => Ok(b@),
        Err(e) => Err(e@),
    }
}

/// Every parent is mapped, in order: the i-th mapped parent is what the
/// i-th parent (read as an id) was last rewritten to.
pub proof fn lemma_mapped_parents_in_order(
    parents: Seq<Seq<u8>>,
    entries: Seq<(Seq<u8>, Seq<u8>)>,
    mapped: Seq<Seq<u8>>,
)
    requires
        mapped_parents(parents, entries) == Ok::<Seq<Seq<u8>>, CommitFault>(mapped),
    ensures
        mapped.len() == parents.len(),
        forall|i: int|
            0 <= i < parents.len() ==> id_hex(#[trigger] parents[i]) is Some && latest(
                entries,
                id_hex(parents[i]).unwrap(),
            ) == Some(mapped[i]),
    decreases parents.len(),
{
    if parents.len() > 0 {
        let front = parents.drop_last();
        let v = mapped.drop_last();
        match mapped_parents(front, entries) {
            Ok(w) => {
                assert(mapped == w.push(mapped.last()));
                assert(w =~= v);
                lemma_mapped_parents_in_order(front, entries, v);
                assert forall|i: int| 0 <= i < parents.len() implies id_hex(#[trigger] parents[i]) is Some
                    && latest(entries, id_hex(parents[i]).unwrap()) == Some(mapped[i]) by {
                    if i < parents.len() - 1 {
                        assert(parents[i] == front[i]);
                        assert(mapped[i] == v[i]);
                    }
                }
            },
            Err(e) => {},
        }
    }
}

/// Mapping the parents succeeds exactly when every parent is an id that was
/// rewritten.
pub proof fn lemma_mapped_parents_succeed(parents: Seq<Seq<u8>>, entries: Seq<(Seq<u8>, Seq<u8>)>)
    ensures
        mapped_parents(parents, entries) is Ok <==> forall|i: int|
            0 <= i < parents.len() ==> id_hex(#[trigger] parents[i]) is Some && latest(
                entries,
                id_hex(parents[i]).unwrap(),
            ) is Some,
    decreases parents.len(),
{
    if parents.len() > 0 {
        let front = parents.drop_last();
        lemma_mapped_parents_succeed(front, entries);
        if mapped_parents(parents, entries) is Ok {
            assert forall|i: int| 0 <= i < parents.len() implies id_hex(#[trigger] parents[i]) is Some
                && latest(entries, id_hex(parents[i]).unwrap()) is Some by {
                if i < parents.len() - 1 {
                    assert(parents[i] == front[i]);
                }
            }
        } else {
            if forall|i: int|
                0 <= i < parents.len() ==> id_hex(#[trigger] parents[i]) is Some && latest(
                    entries,
                    id_hex(parents[i]).unwrap(),
                ) is Some {
                assert forall|i: int| 0 <= i < front.len() implies id_hex(#[trigger] front[i]) is Some
                    && latest(entries, id_hex(front[i]).unwrap()) is Some by {
                    assert(front[i] == parents[i]);
                }
                assert(id_hex(parents[parents.len() - 1]) is Some);
            }
        }
    }
}

/// Encode a prepared commit on its rewritten tree, with each parent replaced
/// by what it was rewritten to.
pub fn finish_commit(prepared: &PreparedCommit, new_tree: &[u8], map: &CommitMap) -> (r: Result<
    Vec<u8>,
    CommitError,
>)
    ensures
        bytes_result_view(r) == match mapped_parents(prepared@.1, map@) {
            Err(e) => Err::<Seq<u8>, CommitFault>(e),
            Ok(ps) => Ok(
                commit_bytes(new_tree@, ps, prepared@.2, prepared@.3, prepared@.4, prepared@.5),
            ),
        },
{
    let ghost ps = vec_views(prepared.parents@);
    let mut parents: Vec<Vec<u8>> = Vec::new();
    assert(ps.take(0) =~= Seq::<Seq<u8>>::empty());
    assert(vec_views(parents@) =~= Seq::<Seq<u8>>::empty());
    let mut i: usize = 0;
    while i < prepared.parents.len()
        invariant
            ps == vec_views(prepared.parents@),
            i <= ps.len(),
            mapped_parents(ps.take(i as int), map@) == Ok::<Seq<Seq<u8>>, CommitFault>(
                vec_views(parents@),
            ),
        decreases ps.len() - i,
    {
        proof {
            assert(ps.take(i + 1).drop_last() =~= ps.take(i as int));
            assert(ps.take(i + 1).last() == prepared.parents@[i as int]@);
        }
        let id = match parse_object_id(prepared.parents[i].as_slice()) {
            Some(id) => id,
            None => {
                proof {
                    lemma_mapped_err(ps, map@, i + 1, CommitFault::BadParentId);
                }
                return Err(CommitError::BadParentId);
            },
        };
        match map.lookup(id.as_slice()) {
            Some(n) => {
                let ghost before = parents@;
                parents.push(n);
                assert(vec_views(parents@) =~= vec_views(before).push(n@));
            },
            None => {
                proof {
                    lemma_mapped_err(ps, map@, i + 1, CommitFault::MissingParent(id@));
                }
                return Err(CommitError::MissingParent { parent: id });
            },
        }
        i = i + 1;
    }
    assert(ps.take(ps.len() as int) =~= ps);
    Ok(
        build_commit_bytes(
            new_tree,
            &parents,
            prepared.author.as_slice(),
            prepared.committer.as_slice(),
            &prepared.encoding,
            prepared.message.as_slice(),
        ),
    )
}

} // verus!
