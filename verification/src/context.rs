//! The one-line context shown for a replacement: a few words on either side
//! of the match, with the matched and replacing text highlighted.
use vstd::prelude::*;
use crate::text::{chars_range, is_white, join_with, joined, push_str, trim, trim_str, views_of, white};

verus! {

/// The pieces of `s` between whitespace characters, empty ones included.
pub open spec fn split_white(s: Seq<char>) -> Seq<Seq<char>>
    decreases s.len(),
{
    if s.len() == 0 {
        seq![Seq::empty()]
    } else {
        let rest = split_white(s.drop_last());
        if white(s.last()) {
            rest.push(Seq::empty())
        } else {
            rest.update(rest.len() - 1, rest.last().push(s.last()))
        }
    }
}

/// The words of `s`, as `str::split_whitespace` yields them.
pub open spec fn words(s: Seq<char>) -> Seq<Seq<char>> {
    split_white(s).filter(|w: Seq<char>| w.len() != 0)
}

proof fn lemma_split_white_nonempty(s: Seq<char>)
    ensures
        split_white(s).len() >= 1,
    decreases s.len(),
{
    if s.len() > 0 {
        lemma_split_white_nonempty(s.drop_last());
    }
}

/// Split `s` at every whitespace character, keeping empty pieces.
fn split_white_pieces(s: &str) -> (r: Vec<String>)
    ensures
        views_of(r@) == split_white(s@),
{
    let n = s.unicode_len();
    let mut pieces: Vec<String> = Vec::new();
    let mut start: usize = 0;
    let mut i: usize = 0;
    proof {
        assert(s@.take(0) =~= Seq::<char>::empty());
        assert(s@.subrange(0, 0) =~= Seq::<char>::empty());
        assert(views_of(pieces@).push(s@.subrange(0, 0)) =~= seq![Seq::<char>::empty()]);
    }
    while i < n
        invariant
            n == s@.len(),
            start <= i <= n,
            views_of(pieces@).push(s@.subrange(start as int, i as int)) == split_white(
                s@.take(i as int),
            ),
        decreases n - i,
    {
        let c = s.get_char(i);
        proof {
            let t = s@.take(i + 1);
            assert(t.drop_last() == s@.take(i as int));
            assert(t.last() == c);
        }
        if is_white(c) {
            let piece = chars_range(s, start, i);
            let ghost before = pieces@;
            pieces.push(piece);
            proof {
                assert(views_of(pieces@) =~= views_of(before).push(s@.subrange(start as int, i as int)));
                assert(s@.subrange((i + 1) as int, (i + 1) as int) =~= Seq::<char>::empty());
            }
            start = i + 1;
        } else {
            proof {
                let old_views = views_of(pieces@);
                let prev = old_views.push(s@.subrange(start as int, i as int));
                assert(s@.subrange(start as int, i + 1) =~= s@.subrange(start as int, i as int).push(c));
                assert(prev.update(prev.len() - 1, prev.last().push(c)) =~= old_views.push(
                    s@.subrange(start as int, i + 1),
                ));
            }
        }
        i = i + 1;
    }
    let last = chars_range(s, start, n);
    let ghost before = pieces@;
    pieces.push(last);
    proof {
        assert(s@.take(n as int) == s@);
        assert(views_of(pieces@) =~= views_of(before).push(s@.subrange(start as int, n as int)));
    }
    pieces
}

/// The words of `s`.
pub fn split_words(s: &str) -> (r: Vec<String>)
    ensures
        views_of(r@) == words(s@),
{
    let pieces = split_white_pieces(s);
    let ghost pv = views_of(pieces@);
    let mut out: Vec<String> = Vec::new();
    let mut i: usize = 0;
    while i < pieces.len()
        invariant
            pv == views_of(pieces@),
            i <= pieces@.len(),
            views_of(out@) == pv.take(i as int).filter(|w: Seq<char>| w.len() != 0),
        decreases pieces@.len() - i,
    {
        proof {
            reveal(Seq::filter);
            assert(pv.take(i + 1).drop_last() =~= pv.take(i as int));
            assert(pv.take(i + 1).last() == pieces@[i as int]@);
        }
        if pieces[i].unicode_len() != 0 {
            let ghost before = out@;
            out.push(pieces[i].clone());
            assert(views_of(out@) =~= views_of(before).push(pieces@[i as int]@));
        }
        i = i + 1;
    }
    assert(pv.take(pv.len() as int) =~= pv);
    out
}

/// How many words of context are shown on each side.
pub open spec fn context_words() -> int {
    2
}

/// The last words of a list, at most [`context_words`] of them.
pub open spec fn last_words(w: Seq<Seq<char>>) -> Seq<Seq<char>> {
    if w.len() > context_words() {
        w.skip(w.len() - context_words())
    } else {
        w
    }
}

/// The first words of a list, at most [`context_words`] of them.
pub open spec fn first_words(w: Seq<Seq<char>>) -> Seq<Seq<char>> {
    if w.len() > context_words() {
        w.take(context_words())
    } else {
        w
    }
}

/// The terminal code that colours matched text.
pub open spec fn color_match() -> Seq<char> {
    seq!['\u{1b}', '[', '3', '1', 'm']
}

/// The terminal code that colours replacing text.
pub open spec fn color_repl() -> Seq<char> {
    seq!['\u{1b}', '[', '3', '4', 'm']
}

/// The terminal code that ends a colour.
pub open spec fn color_reset() -> Seq<char> {
    seq!['\u{1b}', '[', '0', 'm']
}

/// The words before the match, joined, with a space after them when there
/// are any.
pub open spec fn left_part(prefix: Seq<char>) -> Seq<char> {
    let left = joined(last_words(words(prefix)), seq![' ']);
    if left.len() == 0 {
        Seq::empty()
    } else {
        left + seq![' ']
    }
}

/// The words after the match, joined, with a space before them when there
/// are any.
pub open spec fn right_part(suffix: Seq<char>) -> Seq<char> {
    let right = joined(first_words(words(suffix)), seq![' ']);
    if right.len() == 0 {
        Seq::empty()
    } else {
        seq![' '] + right
    }
}

/// The before and after lines shown for a replacement.
pub open spec fn context_lines(
    prefix: Seq<char>,
    suffix: Seq<char>,
    match_text: Seq<char>,
    repl_text: Seq<char>,
) -> (Seq<char>, Seq<char>) {
    (
        trim(left_part(prefix) + color_match() + match_text + color_reset() + right_part(suffix)),
        trim(left_part(prefix) + color_repl() + repl_text + color_reset() + right_part(suffix)),
    )
}

/// A sub-list of strings, `v[from..to]`.
fn string_range(v: &Vec<String>, from: usize, to: usize) -> (r: Vec<String>)
    requires
        from <= to <= v@.len(),
    ensures
        views_of(r@) == views_of(v@).subrange(from as int, to as int),
{
    let mut out: Vec<String> = Vec::new();
    let mut i = from;
    while i < to
        invariant
            from <= i <= to <= v@.len(),
            views_of(out@) == views_of(v@).subrange(from as int, i as int),
        decreases to - i,
    {
        let ghost before = out@;
        out.push(v[i].clone());
        assert(views_of(out@) =~= views_of(before).push(v@[i as int]@));
        assert(views_of(out@) =~= views_of(v@).subrange(from as int, i + 1));
        i = i + 1;
    }
    out
}

/// The lines shown for a replacement: up to two words of the text before
/// the match, the match (or the replacement) highlighted, and up to two
/// words of the text after it, each line trimmed.
pub fn extract_context(prefix: &str, suffix: &str, match_text: &str, repl_text: &str) -> (r: (
    String,
    String,
))
    ensures
        (r.0@, r.1@) == context_lines(prefix@, suffix@, match_text@, repl_text@),
{
    let pre_words = split_words(prefix);
    let post_words = split_words(suffix);
    let left_words = if pre_words.len() > 2 {
        string_range(&pre_words, pre_words.len() - 2, pre_words.len())
    } else {
        string_range(&pre_words, 0, pre_words.len())
    };
    let right_words = if post_words.len() > 2 {
        string_range(&post_words, 0, 2)
    } else {
        string_range(&post_words, 0, post_words.len())
    };
    proof {
        reveal_strlit(" ");
        reveal_strlit("\x1b[31m");
        reveal_strlit("\x1b[34m");
        reveal_strlit("\x1b[0m");
        assert(" "@ =~= seq![' ']);
        assert("\x1b[31m"@ =~= color_match());
        assert("\x1b[34m"@ =~= color_repl());
        assert("\x1b[0m"@ =~= color_reset());
        assert(views_of(pre_words@).subrange(0, pre_words@.len() as int) =~= views_of(pre_words@));
        assert(views_of(post_words@).subrange(0, post_words@.len() as int) =~= views_of(post_words@));
        assert(views_of(post_words@).subrange(0, 2) =~= views_of(post_words@).take(2));
        assert(views_of(pre_words@).subrange(pre_words@.len() - 2, pre_words@.len() as int)
            =~= views_of(pre_words@).skip(pre_words@.len() - 2));
    }
    let left = join_with(&left_words, " ");
    let right = join_with(&right_words, " ");
    let mut left_sp = String::new();
    if left.unicode_len() != 0 {
        push_str(&mut left_sp, left.as_str());
        push_str(&mut left_sp, " ");
    }
    let mut right_sp = String::new();
    if right.unicode_len() != 0 {
        push_str(&mut right_sp, " ");
        push_str(&mut right_sp, right.as_str());
    }
    let mut left_line = String::new();
    push_str(&mut left_line, left_sp.as_str());
    push_str(&mut left_line, "\x1b[31m");
    push_str(&mut left_line, match_text);
    push_str(&mut left_line, "\x1b[0m");
    push_str(&mut left_line, right_sp.as_str());
    let mut right_line = String::new();
    push_str(&mut right_line, left_sp.as_str());
    push_str(&mut right_line, "\x1b[34m");
    push_str(&mut right_line, repl_text);
    push_str(&mut right_line, "\x1b[0m");
    push_str(&mut right_line, right_sp.as_str());
    proof {
        assert(left_sp@ =~= left_part(prefix@));
        assert(right_sp@ =~= right_part(suffix@));
        assert(left_line@ =~= left_part(prefix@) + color_match() + match_text@ + color_reset()
            + right_part(suffix@));
        assert(right_line@ =~= left_part(prefix@) + color_repl() + repl_text@ + color_reset()
            + right_part(suffix@));
    }
    (trim_str(left_line.as_str()), trim_str(right_line.as_str()))
}

} // verus!
