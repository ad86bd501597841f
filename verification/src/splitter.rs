//! Detection and removal of a leading frontmatter block.
//!
//! A fence is a line that reads `---` once its surrounding whitespace is
//! trimmed.  A document carries frontmatter exactly when its first line is
//! a fence and a later line is one too; the block then spans both fences
//! inclusively.  `split_frontmatter` is the specification of the split and
//! `strip_frontmatter` the verified executable that computes it.

use vstd::prelude::*;

use crate::text::has_no_newline;
use crate::text::is_blank_char;
use crate::text::is_blank_line;
use crate::text::join_lines;
use crate::text::lemma_join_lines_concat;
use crate::text::lemma_join_lines_push;
use crate::text::lemma_join_split_lines;
use crate::text::lemma_split_join_lines;
use crate::text::lemma_split_lines_len;
use crate::text::lemma_split_lines_no_newline;
use crate::text::lemma_split_lines_push;
use crate::text::lemma_trim_end_chars_range;
use crate::text::lemma_trim_leading_blank_lines_no_newline;
use crate::text::lemma_trim_start_chars_range;
use crate::text::lemma_trim_trailing_blank_lines_no_newline;
use crate::text::lemma_trim_trailing_blank_lines_prefix;
use crate::text::split_lines;
use crate::text::string_from_chars;
use crate::text::trim_blank_lines;
use crate::text::trim_chars;
use crate::text::trim_start_chars;
use crate::text::trim_end_chars;
use crate::text::trim_leading_blank_lines;
use crate::text::trim_trailing_blank_lines;

verus! {

/// A fence line: it reads `---` once its whitespace is trimmed away.
pub open spec fn is_fence_line(l: Seq<char>) -> bool {
    trim_chars(l) == seq!['-', '-', '-']
}

/// The index of the first fence line at or after position `i`, if any.
pub open spec fn find_fence_from(ls: Seq<Seq<char>>, i: int) -> Option<int>
    decreases ls.len() - i,
{
    if i < 0 || i >= ls.len() {
        None
    } else if is_fence_line(ls[i]) {
        Some(i)
    } else {
        find_fence_from(ls, i + 1)
    }
}

/// A document carries frontmatter when its very first line is a fence and
/// some later line closes it.
pub open spec fn has_frontmatter(s: Seq<char>) -> bool {
    let ls = split_lines(s);
    is_fence_line(ls[0]) && find_fence_from(ls, 1) is Some
}

/// What splitting returns: the body, and the frontmatter block if one is
/// present.
///
/// With an opening fence on the first line and a closing fence at line
/// `e`, the frontmatter is the text from the opening fence through line
/// `e`, its trailing whitespace trimmed; the body is the remaining lines
/// with the blank lines at both ends removed.  Otherwise — no fence on the
/// first line, or an opening fence that is never closed — there is no
/// frontmatter, and the body is the whole document with only its trailing
/// blank lines removed.
pub open spec fn split_frontmatter(s: Seq<char>) -> (Seq<char>, Option<Seq<char>>) {
    let ls = split_lines(s);
    if is_fence_line(ls[0]) {
        match find_fence_from(ls, 1) {
            Some(e) => (
                join_lines(trim_blank_lines(ls.subrange(e + 1, ls.len() as int))),
                Some(trim_end_chars(join_lines(ls.subrange(0, e + 1)))),
            ),
            None => (join_lines(trim_trailing_blank_lines(ls)), None),
        }
    } else {
        (join_lines(trim_trailing_blank_lines(ls)), None)
    }
}

/// The views of a sequence of character vectors.
pub open spec fn lines_view(lines: Seq<Vec<char>>) -> Seq<Seq<char>> {
    Seq::new(lines.len(), |i: int| lines[i]@)
}

/// Whether this character counts as whitespace when a line is trimmed.
fn is_blank_char_exec(c: char) -> (b: bool)
    ensures
        b == is_blank_char(c),
{
    c == ' ' || c == '\t' || c == '\r'
}

/// Whether every character of this line is whitespace.
fn is_blank_vec(l: &Vec<char>) -> (b: bool)
    ensures
        b == is_blank_line(l@),
{
    let n: usize = l.len();
    let mut j: usize = 0;
    while j < n
        invariant
            j <= n,
            n == l@.len(),
            forall|k: int| 0 <= k < j ==> is_blank_char(#[trigger] l@[k]),
        decreases n - j,
    {
        if !is_blank_char_exec(l[j]) {
            assert(!is_blank_char(l@[j as int]));
            return false;
        }
        j += 1;
    }
    true
}

/// Whether this line is a fence: `---` once trimmed.
fn is_fence_vec(l: &Vec<char>) -> (b: bool)
    ensures
        b == is_fence_line(l@),
{
    let n: usize = l.len();
    let mut lo: usize = 0;
    while lo < n && is_blank_char_exec(l[lo])
        invariant
            lo <= n,
            n == l@.len(),
            forall|k: int| 0 <= k < lo ==> is_blank_char(#[trigger] l@[k]),
        decreases n - lo,
    {
        lo += 1;
    }
    proof {
        lemma_trim_start_chars_range(l@, lo as int);
    }
    let mut hi: usize = n;
    while hi > lo && is_blank_char_exec(l[hi - 1])
        invariant
            lo <= hi <= n,
            n == l@.len(),
            forall|k: int| hi <= k < n ==> is_blank_char(#[trigger] l@[k]),
        decreases hi,
    {
        hi -= 1;
    }
    proof {
        lemma_trim_end_chars_range(l@.subrange(lo as int, n as int), hi - lo);
        assert(l@.subrange(lo as int, n as int).subrange(0, hi - lo) =~= l@.subrange(
            lo as int,
            hi as int,
        ));
        assert(trim_chars(l@) == l@.subrange(lo as int, hi as int));
    }
    let b: bool = hi - lo == 3 && l[lo] == '-' && l[lo + 1] == '-' && l[lo + 2] == '-';
    proof {
        if b {
            assert(l@.subrange(lo as int, hi as int) =~= seq!['-', '-', '-']);
        }
        if trim_chars(l@) == seq!['-', '-', '-'] {
            assert(l@.subrange(lo as int, hi as int).len() == 3);
            assert(l@[lo as int] == l@.subrange(lo as int, hi as int)[0]);
            assert(l@[lo + 1] == l@.subrange(lo as int, hi as int)[1]);
            assert(l@[lo + 2] == l@.subrange(lo as int, hi as int)[2]);
        }
    }
    b
}

/// The lines of the document, split at each `'\n'`.
fn split_into_lines(s: &str) -> (lines: Vec<Vec<char>>)
    ensures
        lines_view(lines@) == split_lines(s@),
{
    let n: usize = s.unicode_len();
    let mut lines: Vec<Vec<char>> = Vec::new();
    let mut cur: Vec<char> = Vec::new();
    let mut i: usize = 0;
    while i < n
        invariant
            i <= n,
            n == s@.len(),
            lines_view(lines@).push(cur@) == split_lines(s@.subrange(0, i as int)),
        decreases n - i,
    {
        let c: char = s.get_char(i);
        proof {
            lemma_split_lines_push(s@.subrange(0, i as int), c);
            assert(s@.subrange(0, i + 1) =~= s@.subrange(0, i as int).push(c));
        }
        if c == '\n' {
            lines.push(cur);
            cur = Vec::new();
            proof {
                assert(lines_view(lines@).push(cur@) =~~= split_lines(s@.subrange(0, i + 1)));
            }
        } else {
            cur.push(c);
            proof {
                assert(lines_view(lines@).push(cur@) =~~= split_lines(s@.subrange(0, i + 1)));
            }
        }
        i += 1;
    }
    lines.push(cur);
    proof {
        assert(s@.subrange(0, n as int) =~= s@);
        assert(lines_view(lines@) =~~= split_lines(s@));
    }
    lines
}

/// The index of the first closing fence: the first fence line at or after
/// line 1.
fn find_closing_fence(lines: &Vec<Vec<char>>) -> (r: Option<usize>)
    requires
        lines@.len() >= 1,
    ensures
        r is Some <==> find_fence_from(lines_view(lines@), 1) is Some,
        r matches Some(e) ==> 1 <= e < lines@.len() && find_fence_from(lines_view(lines@), 1)
            == Some(e as int),
{
    let ghost lv = lines_view(lines@);
    let n: usize = lines.len();
    let mut k: usize = 1;
    while k < n
        invariant
            1 <= k <= n,
            n == lv.len(),
            lv == lines_view(lines@),
            find_fence_from(lv, 1) == find_fence_from(lv, k as int),
        decreases n - k,
    {
        assert(lv[k as int] == lines@[k as int]@);
        if is_fence_vec(&lines[k]) {
            return Some(k);
        }
        k += 1;
    }
    None
}

/// The characters of lines `from..to`, joined with `'\n'` separators.
fn join_range(lines: &Vec<Vec<char>>, from: usize, to: usize) -> (v: Vec<char>)
    requires
        from <= to <= lines@.len(),
    ensures
        v@ == join_lines(lines_view(lines@).subrange(from as int, to as int)),
{
    let ghost lv = lines_view(lines@);
    let mut v: Vec<char> = Vec::new();
    let mut k: usize = from;
    proof {
        assert(join_lines(lv.subrange(from as int, from as int)) =~= v@);
    }
    while k < to
        invariant
            from <= k <= to,
            to <= lines@.len(),
            lv == lines_view(lines@),
            v@ == join_lines(lv.subrange(from as int, k as int)),
        decreases to - k,
    {
        if k > from {
            v.push('\n');
        }
        let ghost base = v@;
        let m: usize = lines[k].len();
        let mut j: usize = 0;
        while j < m
            invariant
                j <= m,
                k < lines@.len(),
                m == lines@[k as int]@.len(),
                v@ == base + lines@[k as int]@.subrange(0, j as int),
            decreases m - j,
        {
            let c: char = lines[k][j];
            v.push(c);
            proof {
                assert(v@ =~= base + lines@[k as int]@.subrange(0, j + 1));
            }
            j += 1;
        }
        proof {
            assert(lv[k as int] == lines@[k as int]@);
            assert(v@ =~= base + lv[k as int]);
            if k == from {
                assert(lv.subrange(from as int, k + 1).len() == 1);
                assert(lv.subrange(from as int, k + 1)[0] == lv[k as int]);
                assert(join_lines(lv.subrange(from as int, k + 1)) == lv[k as int]);
                assert(v@ =~= join_lines(lv.subrange(from as int, k + 1)));
            } else {
                lemma_join_lines_push(lv.subrange(from as int, k as int), lv[k as int]);
                assert(lv.subrange(from as int, k + 1) =~= lv.subrange(from as int, k as int).push(
                    lv[k as int],
                ));
                assert(v@ =~= join_lines(lv.subrange(from as int, k + 1)));
            }
        }
        k += 1;
    }
    v
}

/// Remove the trailing whitespace characters of the vector.
fn trim_end_chars_vec(v: &mut Vec<char>)
    ensures
        final(v)@ == trim_end_chars(old(v)@),
{
    while v.len() > 0 && is_blank_char_exec(v[v.len() - 1])
        invariant
            trim_end_chars(v@) == trim_end_chars(old(v)@),
        decreases v@.len(),
    {
        proof {
            assert(v@.drop_last() =~= v@.subrange(0, v@.len() - 1));
        }
        v.pop();
    }
}

/// The first index at or after `from` whose line is not blank, or the line
/// count when all remaining lines are blank.
fn skip_blank_lines_from(lines: &Vec<Vec<char>>, from: usize) -> (lo: usize)
    requires
        from <= lines@.len(),
    ensures
        from <= lo <= lines@.len(),
        trim_leading_blank_lines(
            lines_view(lines@).subrange(from as int, lines@.len() as int),
        ) == lines_view(lines@).subrange(lo as int, lines@.len() as int),
{
    let ghost lv = lines_view(lines@);
    let n: usize = lines.len();
    let mut lo: usize = from;
    while lo < n && is_blank_vec(&lines[lo])
        invariant
            from <= lo <= n,
            n == lv.len(),
            lv == lines_view(lines@),
            trim_leading_blank_lines(lv.subrange(from as int, n as int))
                == trim_leading_blank_lines(lv.subrange(lo as int, n as int)),
        decreases n - lo,
    {
        proof {
            assert(lv.subrange(lo as int, n as int)[0] == lv[lo as int]);
            assert(lv.subrange(lo as int, n as int).drop_first() =~= lv.subrange(
                lo + 1,
                n as int,
            ));
        }
        lo += 1;
    }
    proof {
        if lo == n {
            assert(lv.subrange(lo as int, n as int).len() == 0);
        } else {
            assert(lv.subrange(lo as int, n as int)[0] == lv[lo as int]);
        }
    }
    lo
}

/// One past the last non-blank line at or after `lo`, or `lo` when all
/// those lines are blank.
fn trim_blank_lines_until(lines: &Vec<Vec<char>>, lo: usize) -> (hi: usize)
    requires
        lo <= lines@.len(),
    ensures
        lo <= hi <= lines@.len(),
        trim_trailing_blank_lines(
            lines_view(lines@).subrange(lo as int, lines@.len() as int),
        ) == lines_view(lines@).subrange(lo as int, hi as int),
{
    let ghost lv = lines_view(lines@);
    let n: usize = lines.len();
    let mut hi: usize = n;
    while hi > lo && is_blank_vec(&lines[hi - 1])
        invariant
            lo <= hi <= n,
            n == lv.len(),
            lv == lines_view(lines@),
            trim_trailing_blank_lines(lv.subrange(lo as int, n as int))
                == trim_trailing_blank_lines(lv.subrange(lo as int, hi as int)),
        decreases hi,
    {
        proof {
            assert(lv.subrange(lo as int, hi as int).last() == lv[hi - 1]);
            assert(lv.subrange(lo as int, hi as int).drop_last() =~= lv.subrange(
                lo as int,
                hi - 1,
            ));
        }
        hi -= 1;
    }
    proof {
        if hi == lo {
            assert(lv.subrange(lo as int, hi as int).len() == 0);
        } else {
            assert(lv.subrange(lo as int, hi as int).last() == lv[hi - 1]);
        }
    }
    hi
}

/// Split the document into its body and its frontmatter block.
///
/// The body is the text after the block, trimmed of the blank lines at
/// both ends; when no block is recognized it is the whole document with
/// only its trailing blank lines removed.  The frontmatter, fence lines
/// included, is returned exactly when the first line is a fence and a
/// later line closes it.
pub fn strip_frontmatter(content: &str) -> (r: (String, Option<String>))
    ensures
        r.0@ == split_frontmatter(content@).0,
        r.1.deep_view() == split_frontmatter(content@).1,
{
    let lines: Vec<Vec<char>> = split_into_lines(content);
    let ghost lv = lines_view(lines@);
    proof {
        lemma_split_lines_len(content@);
    }
    let n: usize = lines.len();
    if is_fence_vec(&lines[0]) {
        proof {
            assert(lv[0] == lines@[0]@);
        }
        match find_closing_fence(&lines) {
            Some(e) => {
                let mut fm: Vec<char> = join_range(&lines, 0, e + 1);
                trim_end_chars_vec(&mut fm);
                let lo: usize = skip_blank_lines_from(&lines, e + 1);
                let hi: usize = trim_blank_lines_until(&lines, lo);
                proof {
                    assert(trim_blank_lines(lv.subrange(e + 1, n as int)) == lv.subrange(
                        lo as int,
                        hi as int,
                    ));
                }
                let body: Vec<char> = join_range(&lines, lo, hi);
                let r = (string_from_chars(&body), Some(string_from_chars(&fm)));
                proof {
                    assert(r.1.deep_view() == split_frontmatter(content@).1);
                }
                r
            },
            None => {
                let hi: usize = trim_blank_lines_until(&lines, 0);
                proof {
                    assert(lv.subrange(0, n as int) =~= lv);
                }
                let body: Vec<char> = join_range(&lines, 0, hi);
                (string_from_chars(&body), None)
            },
        }
    } else {
        proof {
            assert(lv[0] == lines@[0]@);
        }
        let hi: usize = trim_blank_lines_until(&lines, 0);
        proof {
            assert(lv.subrange(0, n as int) =~= lv);
        }
        let body: Vec<char> = join_range(&lines, 0, hi);
        (string_from_chars(&body), None)
    }
}

/// `find_fence_from` finds the first fence at or after `i`: a returned
/// index carries a fence and no line from `i` up to it does; `None` means
/// no line from `i` on is a fence.
pub proof fn lemma_find_fence_from_props(ls: Seq<Seq<char>>, i: int)
    requires
        0 <= i,
    ensures
        match find_fence_from(ls, i) {
            Some(e) => i <= e < ls.len() && is_fence_line(ls[e]) && (forall|j: int|
                i <= j < e ==> !is_fence_line(#[trigger] ls[j])),
            None => forall|j: int| i <= j < ls.len() ==> !is_fence_line(#[trigger] ls[j]),
        },
    decreases ls.len() - i,
{
    if i >= ls.len() {
    } else if is_fence_line(ls[i]) {
    } else {
        lemma_find_fence_from_props(ls, i + 1);
    }
}

/// When no line at or after `i` is a fence, none is found.
pub proof fn lemma_find_fence_from_none(ls: Seq<Seq<char>>, i: int)
    requires
        0 <= i,
        forall|j: int| i <= j < ls.len() ==> !is_fence_line(#[trigger] ls[j]),
    ensures
        find_fence_from(ls, i) is None,
    decreases ls.len() - i,
{
    if i < ls.len() {
        lemma_find_fence_from_none(ls, i + 1);
    }
}

/// Splitting the empty document yields the empty body and no frontmatter.
pub proof fn lemma_split_frontmatter_empty()
    ensures
        split_frontmatter(Seq::<char>::empty()) == (Seq::<char>::empty(), None::<Seq<char>>),
{
    let s = Seq::<char>::empty();
    let ls = split_lines(s);
    assert(ls == seq![Seq::<char>::empty()]);
    assert(trim_start_chars(Seq::<char>::empty()) == Seq::<char>::empty());
    assert(trim_chars(Seq::<char>::empty()).len() == 0);
    assert(!is_fence_line(ls[0]));
    assert(is_blank_line(Seq::<char>::empty()));
    assert(ls.drop_last() =~= Seq::<Seq<char>>::empty());
    assert(trim_trailing_blank_lines(Seq::<Seq<char>>::empty()) == Seq::<Seq<char>>::empty());
    assert(trim_trailing_blank_lines(ls) == Seq::<Seq<char>>::empty());
    assert(join_lines(Seq::<Seq<char>>::empty()) == Seq::<char>::empty());
}

/// Frontmatter is returned exactly when the document carries one: its
/// first line is a fence and a later line closes it.
pub proof fn lemma_frontmatter_iff(s: Seq<char>)
    ensures
        split_frontmatter(s).1 is Some <==> has_frontmatter(s),
{
}

/// No-op on plain text: when the first line of the document is not a
/// fence, nothing is recognized as frontmatter, the body is the document
/// with only its trailing blank lines removed, and a document with no
/// trailing blank line comes back unchanged.
pub proof fn lemma_split_plain_text(s: Seq<char>)
    requires
        !is_fence_line(split_lines(s)[0]),
    ensures
        split_frontmatter(s).1 is None,
        split_frontmatter(s).0 == join_lines(trim_trailing_blank_lines(split_lines(s))),
        trim_trailing_blank_lines(split_lines(s)) == split_lines(s) ==> split_frontmatter(s).0
            == s,
{
    lemma_join_split_lines(s);
}

/// Malformed fence safety: a document whose first line opens a fence that
/// is never closed has no frontmatter; the body is the document with only
/// its trailing blank lines removed, unchanged when there are none.
pub proof fn lemma_split_unterminated_fence(s: Seq<char>)
    requires
        is_fence_line(split_lines(s)[0]),
        find_fence_from(split_lines(s), 1) is None,
    ensures
        split_frontmatter(s).1 is None,
        split_frontmatter(s).0 == join_lines(trim_trailing_blank_lines(split_lines(s))),
        trim_trailing_blank_lines(split_lines(s)) == split_lines(s) ==> split_frontmatter(s).0
            == s,
{
    lemma_join_split_lines(s);
}

/// Round trip: when a document carries frontmatter, the text through the
/// closing fence and the text after it concatenate, with the separating
/// newline, back to the document itself; the split returns exactly these
/// two parts, the first with its trailing whitespace trimmed, the second
/// with the blank lines at its ends removed.
pub proof fn lemma_split_round_trip(s: Seq<char>)
    requires
        has_frontmatter(s),
    ensures
        ({
            let ls = split_lines(s);
            let e = find_fence_from(ls, 1).unwrap();
            &&& split_frontmatter(s).1 == Some(
                trim_end_chars(join_lines(ls.subrange(0, e + 1))),
            )
            &&& split_frontmatter(s).0 == join_lines(
                trim_blank_lines(ls.subrange(e + 1, ls.len() as int)),
            )
            &&& e + 1 < ls.len() ==> join_lines(ls.subrange(0, e + 1)) + seq!['\n']
                + join_lines(ls.subrange(e + 1, ls.len() as int)) == s
            &&& e + 1 == ls.len() ==> join_lines(ls.subrange(0, e + 1)) == s
        }),
{
    let ls = split_lines(s);
    lemma_split_lines_len(s);
    let e = find_fence_from(ls, 1).unwrap();
    lemma_find_fence_from_props(ls, 1);
    lemma_join_split_lines(s);
    if e + 1 < ls.len() {
        let a = ls.subrange(0, e + 1);
        let b = ls.subrange(e + 1, ls.len() as int);
        assert(a + b =~= ls);
        lemma_join_lines_concat(a, b);
    } else {
        assert(ls.subrange(0, e + 1) =~= ls);
    }
}

/// Idempotence: a returned body holds no recoverable frontmatter — unless
/// the extracted block was itself followed by a second complete block at
/// the very top of the body, splitting the body again returns it
/// unchanged, with no frontmatter.
pub proof fn lemma_split_idempotent(s: Seq<char>)
    requires
        !has_frontmatter(split_frontmatter(s).0),
    ensures
        split_frontmatter(split_frontmatter(s).0) == (split_frontmatter(s).0, None::<Seq<char>>),
{
    let ls = split_lines(s);
    lemma_split_lines_len(s);
    lemma_split_lines_no_newline(s);
    let b = split_frontmatter(s).0;
    if is_fence_line(ls[0]) && find_fence_from(ls, 1) is Some {
        let e = find_fence_from(ls, 1).unwrap();
        lemma_find_fence_from_props(ls, 1);
        let tail = ls.subrange(e + 1, ls.len() as int);
        assert forall|i: int| 0 <= i < tail.len() implies has_no_newline(#[trigger] tail[i]) by {
            assert(tail[i] == ls[e + 1 + i]);
        }
        lemma_trim_leading_blank_lines_no_newline(tail);
        let m = trim_leading_blank_lines(tail);
        lemma_trim_trailing_blank_lines_no_newline(m);
        lemma_trim_trailing_blank_lines_prefix(m);
        let fl = trim_blank_lines(tail);
        assert(fl == trim_trailing_blank_lines(m));
        assert(b == join_lines(fl));
        if fl.len() == 0 {
            assert(join_lines(fl) == Seq::<char>::empty());
            lemma_split_frontmatter_empty();
            assert(b == Seq::<char>::empty());
        } else {
            lemma_split_join_lines(fl);
            assert(split_lines(b) == fl);
            assert(!is_blank_line(fl.last()));
            assert(trim_trailing_blank_lines(fl) == fl);
            if is_fence_line(fl[0]) {
                assert(find_fence_from(fl, 1) is None);
                assert(split_frontmatter(b).0 == join_lines(fl));
                assert(split_frontmatter(b).1 is None);
            } else {
                assert(split_frontmatter(b).0 == join_lines(fl));
            }
        }
    } else {
        let fl = trim_trailing_blank_lines(ls);
        lemma_trim_trailing_blank_lines_prefix(ls);
        assert(b == join_lines(fl));
        if fl.len() == 0 {
            assert(join_lines(fl) == Seq::<char>::empty());
            lemma_split_frontmatter_empty();
            assert(b == Seq::<char>::empty());
        } else {
            assert forall|i: int| 0 <= i < fl.len() implies has_no_newline(#[trigger] fl[i]) by {
                assert(fl[i] == ls[i]);
            }
            lemma_split_join_lines(fl);
            assert(split_lines(b) == fl);
            assert(fl[0] == ls[0]);
            assert(!is_blank_line(fl.last()));
            assert(trim_trailing_blank_lines(fl) == fl);
            if is_fence_line(fl[0]) {
                lemma_find_fence_from_props(ls, 1);
                assert forall|j: int| 1 <= j < fl.len() implies !is_fence_line(
                    #[trigger] fl[j],
                ) by {
                    assert(fl[j] == ls[j]);
                }
                lemma_find_fence_from_none(fl, 1);
                assert(split_frontmatter(b).0 == join_lines(fl));
                assert(split_frontmatter(b).1 is None);
            } else {
                assert(split_frontmatter(b).0 == join_lines(fl));
            }
        }
    }
}

} // verus!

