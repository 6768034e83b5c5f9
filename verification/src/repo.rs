//! What the rewrite and the export decide about references and objects:
//! which refs they touch, where a ref or a tag must point after the
//! rewrite, which objects an object links to, the walk over them, and the
//! reading of git's own output.
use vstd::prelude::*;
use crate::bytes::bytes_eq;
use crate::commit::{commit_fields, latest, starts_with, CommitMap};
use crate::objects::{id_hex, kind_named, opt_view, parse_object_id, to_hex, ObjectKind, RawTag};
use crate::options::string_bytes;
use crate::order::{byte_views, sorted_unique_bytes, strictly_sorted_bytes};
use vstd::utf8::encode_utf8;
use gix_object::tree::EntryKind;

verus! {

/// A ref the rewrite and the export work on: not a backup under
/// `refs/original/` and not a replacement under `refs/replace/`.
pub open spec fn rewritable_ref(name: Seq<u8>) -> bool {
    !starts_with(name, encode_utf8("refs/original/"@)) && !starts_with(name, encode_utf8("refs/replace/"@))
}

fn has_prefix(s: &[u8], p: &[u8]) -> (r: bool)
    ensures
        r == starts_with(s@, p@),
{
    if p.len() > s.len() {
        return false;
    }
    let r = crate::bytes::occurs_at(s, p, 0);
    assert(s@.subrange(0, p@.len() as int) =~= s@.take(p@.len() as int));
    r
}

/// Whether the ref named `name` is rewritten and exported.
pub fn is_rewritable_ref(name: &[u8]) -> (r: bool)
    ensures
        r == rewritable_ref(name@),
{
    let original = string_bytes("refs/original/");
    let replace = string_bytes("refs/replace/");
    !has_prefix(name, original.as_slice()) && !has_prefix(name, replace.as_slice())
}

/// Whether the ref named `name` is a remote-tracking ref, which the rewrite
/// deletes.
pub fn is_remote_ref(name: &[u8]) -> (r: bool)
    ensures
        r == starts_with(name@, encode_utf8("refs/remotes/"@)),
{
    let remotes = string_bytes("refs/remotes/");
    has_prefix(name, remotes.as_slice())
}

/// Where a ref or a tag must point after the rewrite.
pub enum Retarget {
    /// At the rewritten commit (hex).
    Commit { id: Vec<u8> },
    /// The commit it points at was not rewritten.
    MissingCommit,
    /// At the tag (hex) that must be rewritten first.
    Tag { id: Vec<u8> },
    /// Nowhere new: it points at a tree or a blob.
    Keep,
}

/// The same, as contracts see it.
pub enum RetargetSpec {
    Commit(Seq<u8>),
    MissingCommit,
    Tag(Seq<u8>),
    Keep,
}

pub open spec fn retarget_view(r: Retarget) -> RetargetSpec {
    match r {
        Retarget::Commit { id } => RetargetSpec::Commit(id@),
        Retarget::MissingCommit => RetargetSpec::MissingCommit,
        Retarget::Tag { id } => RetargetSpec::Tag(id@),
        Retarget::Keep => RetargetSpec::Keep,
    }
}

/// Where an object of `kind` at `target` points after the rewrite.
pub open spec fn retarget_spec(
    kind: ObjectKind,
    target: Seq<u8>,
    commits: Seq<(Seq<u8>, Seq<u8>)>,
) -> RetargetSpec {
    match kind {
        ObjectKind::Commit => match latest(commits, target) {
            Some(n) => RetargetSpec::Commit(n),
            None => RetargetSpec::MissingCommit,
        },
        ObjectKind::Tag => RetargetSpec::Tag(target),
        _ => RetargetSpec::Keep,
    }
}

/// Decide where a ref (or a tag's target) of `kind` at `target` must point.
pub fn retarget(kind: ObjectKind, target: &[u8], commits: &CommitMap) -> (r: Retarget)
    ensures
        retarget_view(r) == retarget_spec(kind, target@, commits@),
{
    match kind {
        ObjectKind::Commit => match commits.lookup(target) {
            Some(n) => Retarget::Commit { id: n },
            None => Retarget::MissingCommit,
        },
        ObjectKind::Tag => {
            let id = crate::casing::slice_range(target, 0, target.len());
            assert(target@.subrange(0, target@.len() as int) =~= target@);
            Retarget::Tag { id }
        },
        _ => Retarget::Keep,
    }
}

/// Where a tag object's target must point after the rewrite.
pub fn retarget_tag(tag: &RawTag, commits: &CommitMap) -> (r: Retarget)
    ensures
        retarget_view(r) == retarget_spec(tag.kind, tag.target@, commits@),
{
    retarget(tag.kind, tag.target.as_slice(), commits)
}

/// Whether a raw tree-entry mode is one gix takes as it is: the tree,
/// symlink and submodule modes, and any mode with the regular-file bit set.
pub open spec fn canonical_mode_spec(value: u16) -> Option<u16> {
    if value == 0o40000u16 || value == 0o120000u16 || value == 0o160000u16 || value & 0o100000u16
        == 0o100000u16 {
        Some(value)
    } else {
        None
    }
}

/// The mode a tree entry is rewritten with when its tree is normalized: its
/// raw value when that value is a mode gix takes as it is, none otherwise
/// (the entry then keeps its mode).
pub fn canonical_mode(value: u16) -> (r: Option<u16>)
    ensures
        r == canonical_mode_spec(value),
{
    if value == 0o40000u16 || value == 0o120000u16 || value == 0o160000u16 || value & 0o100000u16
        == 0o100000u16 {
        Some(value)
    } else {
        None
    }
}

/// The kinds of tree entries, as gix tells them apart.
#[derive(PartialEq, Eq, Structural, Clone, Copy, Debug)]
pub enum TreeEntryKind {
    Tree,
    Blob,
    BlobExecutable,
    Link,
    Commit,
}

/// The entries of a tree object that gix reads (SHA-1 ids): kind and raw id.
pub uninterp spec fn tree_entry_list(data: Seq<u8>) -> Option<Seq<(TreeEntryKind, Seq<u8>)>>;

pub open spec fn entries_view(v: Seq<(TreeEntryKind, Vec<u8>)>) -> Seq<(TreeEntryKind, Seq<u8>)> {
    v.map_values(|e: (TreeEntryKind, Vec<u8>)| (e.0, e.1@))
}

pub open spec fn entry_list_view(r: Option<Vec<(TreeEntryKind, Vec<u8>)>>) -> Option<
    Seq<(TreeEntryKind, Seq<u8>)>,
> {
    match r {
        Some(v) => Some(entries_view(v@)),
        None => None,
    }
}

/// Iterates `gix_object::TreeRefIter::from_bytes` over SHA-1 tree data and
/// copies each entry's kind and raw id; `None` when an entry does not
/// decode. Claimed: the result is the named reading of `data`.
#[verifier::external_body]
fn decode_tree(data: &[u8]) -> (r: Option<Vec<(TreeEntryKind, Vec<u8>)>>)
    ensures
        entry_list_view(r) == tree_entry_list(data@),
{
    gix_object::TreeRefIter::from_bytes(data, gix_hash::Kind::Sha1)
        .map(|e| e.map(|e| (match e.mode.kind() {
            EntryKind::Tree => TreeEntryKind::Tree,
            EntryKind::Blob => TreeEntryKind::Blob,
            EntryKind::BlobExecutable => TreeEntryKind::BlobExecutable,
            EntryKind::Link => TreeEntryKind::Link,
            EntryKind::Commit => TreeEntryKind::Commit,
        }, e.oid.as_bytes().to_vec())))
        .collect::<Result<Vec<_>, _>>().ok()
}


/// The target field that `gix_object::TagRef::from_bytes` reads out of tag
/// data with SHA-1 ids.
pub uninterp spec fn tag_target_field(data: Seq<u8>) -> Option<Seq<u8>>;

/// Calls `gix_object::TagRef::from_bytes` with SHA-1 ids and copies the
/// target field. Claimed: the result is the named target of `data`, and, as
/// the parser validates it, forty hex digits.
#[verifier::external_body]
fn decode_tag_target(data: &[u8]) -> (r: Option<Vec<u8>>)
    ensures
        opt_view(r) == tag_target_field(data@),
        r matches Some(t) ==> crate::commit::sha1_hex(t@),
{
    gix_object::TagRef::from_bytes(data, gix_hash::Kind::Sha1).ok().map(|t| t.target.to_vec())
}

/// Why the links of an object could not be read.
#[derive(PartialEq, Eq, Structural, Clone, Copy, Debug)]
pub enum LinkError {
    BadCommit,
    BadTree,
    BadTag,
    BadId,
}

/// Every id of a list in canonical hex, when each is an id.
pub open spec fn all_ids(v: Seq<Seq<u8>>) -> Option<Seq<Seq<u8>>>
    decreases v.len(),
{
    if v.len() == 0 {
        Some(Seq::empty())
    } else {
        match all_ids(v.drop_last()) {
            None => None,
            Some(w) => match id_hex(v.last()) {
                None => None,
                Some(x) => Some(w.push(x)),
            },
        }
    }
}

/// The ids (hex) of the tree entries that are not submodule commits.
pub open spec fn entry_links(entries: Seq<(TreeEntryKind, Seq<u8>)>) -> Seq<Seq<u8>> {
    entries.filter(|e: (TreeEntryKind, Seq<u8>)| e.0 != TreeEntryKind::Commit).map_values(
        |e: (TreeEntryKind, Seq<u8>)| crate::objects::hex_encode(e.1),
    )
}

/// The objects an object links to, in the order the export pushes them: a
/// commit's tree then its parents; a tree's entries but submodule commits; a
/// tag's target; nothing for a blob.
pub open spec fn links_spec(kind: ObjectKind, data: Seq<u8>) -> Result<Seq<Seq<u8>>, LinkError> {
    match kind {
        ObjectKind::Commit => match commit_fields(data) {
            None => Err(LinkError::BadCommit),
            Some(f) => match id_hex(f.0) {
                None => Err(LinkError::BadId),
                Some(t) => match all_ids(f.1) {
                    None => Err(LinkError::BadId),
                    Some(ps) => Ok(seq![t] + ps),
                },
            },
        },
        ObjectKind::Tree => match tree_entry_list(data) {
            None => Err(LinkError::BadTree),
            Some(es) => Ok(entry_links(es)),
        },
        ObjectKind::Tag => match tag_target_field(data) {
            None => Err(LinkError::BadTag),
            Some(t) => match id_hex(t) {
                None => Err(LinkError::BadId),
                Some(x) => Ok(seq![x]),
            },
        },
        ObjectKind::Blob => Ok(Seq::empty()),
    }
}

pub open spec fn links_view(r: Result<Vec<Vec<u8>>, LinkError>) -> Result<Seq<Seq<u8>>, LinkError> {
    match r {
        Ok(v) => Ok(byte_views(v@)),
        Err(e) => Err(e),
    }
}

/// The objects an object of `kind` with `data` links to.
pub fn object_links(kind: ObjectKind, data: &[u8]) -> (r: Result<Vec<Vec<u8>>, LinkError>)
    ensures
        links_view(r) == links_spec(kind, data@),
{
    match kind {
        ObjectKind::Commit => {
            let f = match crate::commit::decode_commit(data) {
                Some(f) => f,
                None => {
                    return Err(LinkError::BadCommit);
                },
            };
            let tree = match parse_object_id(f.tree.as_slice()) {
                Some(t) => t,
                None => {
                    return Err(LinkError::BadId);
                },
            };
            let mut out: Vec<Vec<u8>> = vec![tree];
            let ghost ps = crate::bytes::vec_views(f.parents@);
            let mut i: usize = 0;
            assert(ps.take(0) =~= Seq::<Seq<u8>>::empty());
            assert(byte_views(out@) =~= seq![id_hex(f.tree@).unwrap()] + Seq::<Seq<u8>>::empty());
            while i < f.parents.len()
                invariant
                    ps == crate::bytes::vec_views(f.parents@),
                    commit_fields(data@) == Some(f@),
                    kind == ObjectKind::Commit,
                    id_hex(f.tree@) is Some,
                    i <= ps.len(),
                    all_ids(ps.take(i as int)) matches Some(w) && byte_views(out@) == seq![id_hex(
                        f.tree@,
                    ).unwrap()] + w,
                decreases ps.len() - i,
            {
                proof {
                    assert(ps.take(i + 1).drop_last() =~= ps.take(i as int));
                    assert(ps.take(i + 1).last() == f.parents@[i as int]@);
                }
                match parse_object_id(f.parents[i].as_slice()) {
                    Some(p) => {
                        let ghost before = byte_views(out@);
                        out.push(p);
                        assert(byte_views(out@) =~= before.push(id_hex(ps[i as int]).unwrap()));
                    },
                    None => {
                        proof {
                            assert(all_ids(ps.take(i + 1)) is None);
                            lemma_all_ids_none(ps, i + 1);
                        }
                        return Err(LinkError::BadId);
                    },
                }
                i = i + 1;
            }
            assert(ps.take(ps.len() as int) =~= ps);
            Ok(out)
        },
        ObjectKind::Tree => {
            let entries = match decode_tree(data) {
                Some(e) => e,
                None => {
                    return Err(LinkError::BadTree);
                },
            };
            let ghost ev = entries_view(entries@);
            let mut out: Vec<Vec<u8>> = Vec::new();
            let mut i: usize = 0;
            while i < entries.len()
                invariant
                    ev == entries_view(entries@),
                    i <= ev.len(),
                    byte_views(out@) == entry_links(ev.take(i as int)),
                decreases ev.len() - i,
            {
                proof {
                    reveal(Seq::filter);
                    assert(ev.take(i + 1).drop_last() =~= ev.take(i as int));
                    assert(ev.take(i + 1).last() == ev[i as int]);
                }
                let (k, id) = &entries[i];
                if *k != TreeEntryKind::Commit {
                    let ghost before = byte_views(out@);
                    out.push(to_hex(id.as_slice()));
                    proof {
                        let f0 = ev.take(i as int).filter(
                            |e: (TreeEntryKind, Seq<u8>)| e.0 != TreeEntryKind::Commit,
                        );
                        assert(ev.take(i + 1).filter(
                            |e: (TreeEntryKind, Seq<u8>)| e.0 != TreeEntryKind::Commit,
                        ) =~= f0.push(ev[i as int]));
                        assert(byte_views(out@) =~= before.push(crate::objects::hex_encode(ev[i as int].1)));
                        assert(f0.push(ev[i as int]).map_values(
                            |e: (TreeEntryKind, Seq<u8>)| crate::objects::hex_encode(e.1),
                        ) =~= f0.map_values(
                            |e: (TreeEntryKind, Seq<u8>)| crate::objects::hex_encode(e.1),
                        ).push(crate::objects::hex_encode(ev[i as int].1)));
                    }
                } else {
                    assert(ev.take(i + 1).filter(
                        |e: (TreeEntryKind, Seq<u8>)| e.0 != TreeEntryKind::Commit,
                    ) =~= ev.take(i as int).filter(
                        |e: (TreeEntryKind, Seq<u8>)| e.0 != TreeEntryKind::Commit,
                    ));
                }
                i = i + 1;
            }
            assert(ev.take(ev.len() as int) =~= ev);
            Ok(out)
        },
        ObjectKind::Tag => {
            let target = match decode_tag_target(data) {
                Some(t) => t,
                None => {
                    return Err(LinkError::BadTag);
                },
            };
            match parse_object_id(target.as_slice()) {
                Some(x) => {
                    let v = vec![x];
                    assert(byte_views(v@) =~= seq![v@[0]@]);
                    Ok(v)
                },
                None => Err(LinkError::BadId),
            }
        },
        ObjectKind::Blob => {
            let v: Vec<Vec<u8>> = Vec::new();
            assert(byte_views(v@) =~= Seq::<Seq<u8>>::empty());
            Ok(v)
        },
    }
}

proof fn lemma_all_ids_none(v: Seq<Seq<u8>>, i: int)
    requires
        0 <= i <= v.len(),
        all_ids(v.take(i)) is None,
    ensures
        all_ids(v) is None,
    decreases v.len() - i,
{
    if i < v.len() {
        assert(v.take(i + 1).drop_last() =~= v.take(i));
        lemma_all_ids_none(v, i + 1);
    } else {
        assert(v.take(i) =~= v);
    }
}


/// The next object of a walk: the top of the stack, skipping objects seen
/// already, and the stack left after taking it.
pub open spec fn walk_next(stack: Seq<Seq<u8>>, seen: Set<Seq<u8>>) -> (Option<Seq<u8>>, Seq<Seq<u8>>)
    decreases stack.len(),
{
    if stack.len() == 0 {
        (None, stack)
    } else if seen.contains(stack.last()) {
        walk_next(stack.drop_last(), seen)
    } else {
        (Some(stack.last()), stack.drop_last())
    }
}

/// A depth-first walk over object ids (hex): a stack of ids to visit and the
/// ids visited, each once.
pub struct ObjectWalk {
    stack: Vec<Vec<u8>>,
    seen: Vec<Vec<u8>>,
}

impl ObjectWalk {
    pub closed spec fn stack(&self) -> Seq<Seq<u8>> {
        byte_views(self.stack@)
    }

    pub closed spec fn seen(&self) -> Seq<Seq<u8>> {
        byte_views(self.seen@)
    }

    /// A walk that starts from the roots, the last root first.
    pub fn new(roots: &Vec<Vec<u8>>) -> (r: ObjectWalk)
        ensures
            r.stack() == byte_views(roots@),
            r.seen() == Seq::<Seq<u8>>::empty(),
    {
        let mut stack: Vec<Vec<u8>> = Vec::new();
        let mut i: usize = 0;
        while i < roots.len()
            invariant
                i <= roots@.len(),
                byte_views(stack@) == byte_views(roots@.take(i as int)),
            decreases roots@.len() - i,
        {
            let x = crate::casing::slice_range(roots[i].as_slice(), 0, roots[i].len());
            assert(roots@[i as int]@.subrange(0, roots@[i as int]@.len() as int) =~= roots@[i as int]@);
            let ghost before = byte_views(stack@);
            stack.push(x);
            assert(byte_views(stack@) =~= before.push(roots@[i as int]@));
            assert(byte_views(roots@.take(i + 1)) =~= byte_views(roots@.take(i as int)).push(
                roots@[i as int]@,
            ));
            i = i + 1;
        }
        assert(roots@.take(roots@.len() as int) =~= roots@);
        let r = ObjectWalk { stack, seen: Vec::new() };
        assert(r.seen() =~= Seq::<Seq<u8>>::empty());
        r
    }

    /// Take the next object not seen yet, and mark it seen.
    pub fn next(&mut self) -> (r: Option<Vec<u8>>)
        ensures
            (opt_view(r), final(self).stack()) == walk_next(old(self).stack(), old(self).seen().to_set()),
            r matches Some(x) ==> final(self).seen() == old(self).seen().push(x@),
            r is None ==> final(self).seen() == old(self).seen(),
            old(self).seen().no_duplicates() ==> final(self).seen().no_duplicates(),
    {
        let ghost start = self.stack();
        let ghost seen = self.seen();
        loop
            invariant
                start == old(self).stack(),
                seen == old(self).seen(),
                self.seen() == seen,
                walk_next(self.stack(), seen.to_set()) == walk_next(start, seen.to_set()),
            decreases self.stack@.len(),
        {
            let ghost full = self.stack();
            let top = match self.stack.pop() {
                Some(t) => t,
                None => {
                    assert(full =~= Seq::<Seq<u8>>::empty());
                    return None;
                },
            };
            let ghost rest = self.stack();
            assert(rest =~= full.drop_last());
            assert(full.last() == top@);
            let mut found = false;
            let mut j: usize = 0;
            while j < self.seen.len()
                invariant
                    self.seen() == seen,
                    j <= seen.len(),
                    found ==> seen.to_set().contains(top@),
                    !found ==> forall|k: int| 0 <= k < j ==> #[trigger] seen[k] != top@,
                decreases seen.len() - j,
            {
                if bytes_eq(self.seen[j].as_slice(), top.as_slice()) {
                    assert(seen[j as int] == top@);
                    found = true;
                }
                j = j + 1;
            }
            proof {
                if !found {
                    assert(!seen.to_set().contains(top@)) by {
                        if seen.to_set().contains(top@) {
                            let k = choose|k: int| 0 <= k < seen.len() && seen[k] == top@;
                            assert(seen[k] != top@);
                        }
                    }
                }
            }
            if !found {
                let x = crate::casing::slice_range(top.as_slice(), 0, top.len());
                assert(top@.subrange(0, top@.len() as int) =~= top@);
                self.seen.push(x);
                assert(self.seen() =~= seen.push(top@));
                proof {
                    if seen.no_duplicates() {
                        assert forall|a: int, b: int| 0 <= a < b < self.seen().len() implies self.seen()[a]
                            != self.seen()[b] by {
                            if b == seen.len() {
                                assert(seen[a] != top@);
                            }
                        }
                    }
                }
                return Some(top);
            }
        }
    }

    /// Push the ids an object links to, in order.
    pub fn push_links(&mut self, links: &Vec<Vec<u8>>)
        ensures
            final(self).stack() == old(self).stack() + byte_views(links@),
            final(self).seen() == old(self).seen(),
    {
        let mut i: usize = 0;
        while i < links.len()
            invariant
                i <= links@.len(),
                self.stack() == old(self).stack() + byte_views(links@.take(i as int)),
                self.seen() == old(self).seen(),
            decreases links@.len() - i,
        {
            let x = crate::casing::slice_range(links[i].as_slice(), 0, links[i].len());
            assert(links@[i as int]@.subrange(0, links@[i as int]@.len() as int) =~= links@[i as int]@);
            let ghost before = self.stack();
            self.stack.push(x);
            assert(self.stack() =~= before.push(links@[i as int]@));
            assert(byte_views(links@.take(i + 1)) =~= byte_views(links@.take(i as int)).push(
                links@[i as int]@,
            ));
            i = i + 1;
        }
        assert(links@.take(links@.len() as int) =~= links@);
    }

    /// The ids seen, in increasing byte order of the ids (hex order is the
    /// order of the raw ids).
    pub fn finish(&self) -> (r: Vec<Vec<u8>>)
        ensures
            strictly_sorted_bytes(byte_views(r@)),
            byte_views(r@).to_set() == self.seen().to_set(),
    {
        sorted_unique_bytes(&self.seen)
    }
}

/// Why `git cat-file --batch` output does not hold the object asked for.
#[derive(PartialEq, Eq, Structural, Clone, Copy, Debug)]
pub enum CatFileError {
    MissingHeaderNewline,
    ReportedMissing,
    MissingKind,
    MissingSize,
    IdMismatch,
    BadSize,
    Truncated,
    MissingNewline,
    BadKind,
}

/// `s` ends with `suffix`.
pub open spec fn ends_with_text(s: Seq<char>, suffix: Seq<char>) -> bool {
    suffix.len() <= s.len() && s.skip(s.len() - suffix.len()) == suffix
}

/// What `git cat-file --batch` output for the object `oid` (hex text) holds:
/// its kind and where its data starts and ends.
pub open spec fn cat_file_spec(out: Seq<u8>, oid: Seq<char>) -> Result<(ObjectKind, int, int), CatFileError> {
    let nl = crate::bytes::find(out, seq![10u8]);
    if nl == -1 {
        Err(CatFileError::MissingHeaderNewline)
    } else {
        let header = crate::text::trim_end(crate::text::lossy_decoded(out.take(nl)));
        if ends_with_text(header, " missing"@) {
            Err(CatFileError::ReportedMissing)
        } else {
            match crate::transfer::split_once(header, ' ') {
                None => Err(CatFileError::MissingKind),
                Some((hid, r1)) => match crate::transfer::split_once(r1, ' ') {
                    None => Err(CatFileError::MissingSize),
                    Some((kind, size)) => if hid != oid {
                        Err(CatFileError::IdMismatch)
                    } else {
                        match crate::transfer::parse_usize_spec(size) {
                            None => Err(CatFileError::BadSize),
                            Some(n) => {
                                let start = nl + 1;
                                let end = start + n;
                                if out.len() < end + 1 {
                                    Err(CatFileError::Truncated)
                                } else if out[end] != 10 {
                                    Err(CatFileError::MissingNewline)
                                } else {
                                    match kind_named(encode_utf8(kind)) {
                                        None => Err(CatFileError::BadKind),
                                        Some(k) => Ok((k, start, end)),
                                    }
                                }
                            },
                        }
                    },
                },
            }
        }
    }
}

fn ends_with_str(s: &str, suffix: &str) -> (r: bool)
    ensures
        r == ends_with_text(s@, suffix@),
{
    let n = s.unicode_len();
    let m = suffix.unicode_len();
    if m > n {
        return false;
    }
    let tail = crate::text::chars_range(s, n - m, n);
    assert(s@.subrange(n - m, n as int) =~= s@.skip(n - m));
    tail == crate::text::owned(suffix)
}

/// Read the output of `git cat-file --batch` for the object `oid`.
pub fn parse_cat_file(out: &[u8], oid: &str) -> (r: Result<(ObjectKind, usize, usize), CatFileError>)
    ensures
        match r {
            Ok((k, s, e)) => cat_file_spec(out@, oid@) == Ok::<(ObjectKind, int, int), CatFileError>(
                (k, s as int, e as int),
            ),
            Err(e) => cat_file_spec(out@, oid@) == Err::<(ObjectKind, int, int), CatFileError>(e),
        },
{
    let newline = vec![10u8];
    assert(newline@ =~= seq![10u8]);
    let nl = match crate::bytes::find_bytes(out, newline.as_slice()) {
        Some(p) => p,
        None => {
            return Err(CatFileError::MissingHeaderNewline);
        },
    };
    proof {
        crate::bytes::lemma_find_from(out@, newline@, 0);
    }
    let n = out.len();
    let head = crate::casing::slice_range(out, 0, nl);
    assert(head@ =~= out@.take(nl as int));
    let header = crate::text::trim_end_str(crate::text::lossy_text(head.as_slice()).as_str());
    if ends_with_str(header.as_str(), " missing") {
        return Err(CatFileError::ReportedMissing);
    }
    let (hid, r1) = match crate::transfer::split_once_str(header.as_str(), ' ') {
        None => {
            return Err(CatFileError::MissingKind);
        },
        Some(p) => p,
    };
    let (kind, size) = match crate::transfer::split_once_str(r1.as_str(), ' ') {
        None => {
            return Err(CatFileError::MissingSize);
        },
        Some(p) => p,
    };
    if hid != crate::text::owned(oid) {
        return Err(CatFileError::IdMismatch);
    }
    let size = match crate::transfer::parse_usize(size.as_str()) {
        None => {
            return Err(CatFileError::BadSize);
        },
        Some(v) => v,
    };
    let start = nl + 1;
    if size >= n - start {
        return Err(CatFileError::Truncated);
    }
    let end = start + size;
    if out[end] != 10u8 {
        return Err(CatFileError::MissingNewline);
    }
    match crate::objects::kind_from_bytes(string_bytes(kind.as_str()).as_slice()) {
        None => Err(CatFileError::BadKind),
        Some(k) => Ok((k, start, end)),
    }
}

/// The commit ids `git rev-list` printed, one per line, each read as an id;
/// the first line that is not an id is the error.
pub open spec fn rev_list_spec(lines: Seq<Seq<char>>) -> Result<Seq<Seq<u8>>, Seq<char>>
    decreases lines.len(),
{
    if lines.len() == 0 {
        Ok(Seq::empty())
    } else {
        match rev_list_spec(lines.drop_last()) {
            Err(l) => Err(l),
            Ok(ids) => match id_hex(encode_utf8(lines.last())) {
                None => Err(lines.last()),
                Some(x) => Ok(ids.push(x)),
            },
        }
    }
}

proof fn lemma_rev_list_err(lines: Seq<Seq<char>>, i: int, l: Seq<char>)
    requires
        0 <= i <= lines.len(),
        rev_list_spec(lines.take(i)) == Err::<Seq<Seq<u8>>, Seq<char>>(l),
    ensures
        rev_list_spec(lines) == Err::<Seq<Seq<u8>>, Seq<char>>(l),
    decreases lines.len() - i,
{
    if i < lines.len() {
        assert(lines.take(i + 1).drop_last() =~= lines.take(i));
        lemma_rev_list_err(lines, i + 1, l);
    } else {
        assert(lines.take(i) =~= lines);
    }
}

/// Read the output of `git rev-list` as commit ids (hex).
pub fn parse_rev_list(out: &[u8]) -> (r: Result<Vec<Vec<u8>>, String>)
    ensures
        match r {
            Ok(v) => rev_list_spec(crate::cli::lines_of(crate::text::lossy_decoded(out@))) == Ok::<
                Seq<Seq<u8>>,
                Seq<char>,
            >(byte_views(v@)),
            Err(l) => rev_list_spec(crate::cli::lines_of(crate::text::lossy_decoded(out@))) == Err::<
                Seq<Seq<u8>>,
                Seq<char>,
            >(l@),
        },
{
    let text = crate::text::lossy_text(out);
    let lines = crate::cli::text_lines(text.as_str());
    let ghost lv = crate::text::views_of(lines@);
    let mut ids: Vec<Vec<u8>> = Vec::new();
    let mut i: usize = 0;
    assert(lv.take(0) =~= Seq::<Seq<char>>::empty());
    assert(byte_views(ids@) =~= Seq::<Seq<u8>>::empty());
    while i < lines.len()
        invariant
            lv == crate::text::views_of(lines@),
            lv == crate::cli::lines_of(crate::text::lossy_decoded(out@)),
            i <= lv.len(),
            rev_list_spec(lv.take(i as int)) == Ok::<Seq<Seq<u8>>, Seq<char>>(byte_views(ids@)),
        decreases lv.len() - i,
    {
        proof {
            assert(lv.take(i + 1).drop_last() =~= lv.take(i as int));
            assert(lv.take(i + 1).last() == lines@[i as int]@);
        }
        match parse_object_id(string_bytes(lines[i].as_str()).as_slice()) {
            Some(id) => {
                let ghost before = byte_views(ids@);
                ids.push(id);
                assert(byte_views(ids@) =~= before.push(id_hex(encode_utf8(lv[i as int])).unwrap()));
            },
            None => {
                proof {
                    lemma_rev_list_err(lv, i + 1, lv[i as int]);
                }
                return Err(lines[i].clone());
            },
        }
        i = i + 1;
    }
    assert(lv.take(lv.len() as int) =~= lv);
    Ok(ids)
}

} // verus!
