//! A line-level model of document text.
//!
//! A document is a sequence of characters; its lines are the maximal runs
//! separated by `'\n'`.  Splitting an empty document yields one empty line,
//! and joining is its inverse: `join_lines(split_lines(s)) == s`.
//!
//! Trimming treats space, tab and carriage return as whitespace inside a
//! line; a line made of such characters alone is blank.

use vstd::prelude::*;

verus! {

/// Characters treated as whitespace when a single line is trimmed.
///
/// `'\n'` is excluded: it separates lines and never occurs inside one.
pub open spec fn is_blank_char(c: char) -> bool {
    c == ' ' || c == '\t' || c == '\r'
}

/// A line is blank when every one of its characters is whitespace.
/// The empty line is blank.
pub open spec fn is_blank_line(l: Seq<char>) -> bool {
    forall|i: int| 0 <= i < l.len() ==> is_blank_char(#[trigger] l[i])
}

/// The line without its leading whitespace characters.
pub open spec fn trim_start_chars(l: Seq<char>) -> Seq<char>
    decreases l.len(),
{
    if l.len() > 0 && is_blank_char(l[0]) {
        trim_start_chars(l.drop_first())
    } else {
        l
    }
}

/// The line without its trailing whitespace characters.
pub open spec fn trim_end_chars(l: Seq<char>) -> Seq<char>
    decreases l.len(),
{
    if l.len() > 0 && is_blank_char(l.last()) {
        trim_end_chars(l.drop_last())
    } else {
        l
    }
}

/// The line without leading and trailing whitespace characters.
pub open spec fn trim_chars(l: Seq<char>) -> Seq<char> {
    trim_end_chars(trim_start_chars(l))
}

/// The lines of a document: the runs of characters separated by `'\n'`.
///
/// Every document has at least one line; the empty document has exactly
/// one, which is empty.  A trailing `'\n'` yields a final empty line.
pub open spec fn split_lines(s: Seq<char>) -> Seq<Seq<char>>
    decreases s.len(),
{
    if s.len() == 0 {
        seq![Seq::<char>::empty()]
    } else if s[0] == '\n' {
        seq![Seq::<char>::empty()] + split_lines(s.drop_first())
    } else {
        let rest = split_lines(s.drop_first());
        rest.update(0, seq![s[0]] + rest[0])
    }
}

/// The document made of the given lines, separated by `'\n'`.
pub open spec fn join_lines(ls: Seq<Seq<char>>) -> Seq<char>
    decreases ls.len(),
{
    if ls.len() == 0 {
        Seq::<char>::empty()
    } else if ls.len() == 1 {
        ls[0]
    } else {
        ls[0] + seq!['\n'] + join_lines(ls.drop_first())
    }
}

/// The lines without their leading run of blank lines.
pub open spec fn trim_leading_blank_lines(ls: Seq<Seq<char>>) -> Seq<Seq<char>>
    decreases ls.len(),
{
    if ls.len() > 0 && is_blank_line(ls[0]) {
        trim_leading_blank_lines(ls.drop_first())
    } else {
        ls
    }
}

/// The lines without their trailing run of blank lines.
pub open spec fn trim_trailing_blank_lines(ls: Seq<Seq<char>>) -> Seq<Seq<char>>
    decreases ls.len(),
{
    if ls.len() > 0 && is_blank_line(ls.last()) {
        trim_trailing_blank_lines(ls.drop_last())
    } else {
        ls
    }
}

/// The lines without blank lines at either end.
pub open spec fn trim_blank_lines(ls: Seq<Seq<char>>) -> Seq<Seq<char>> {
    trim_trailing_blank_lines(trim_leading_blank_lines(ls))
}

/// A line holds no `'\n'`: that character only ever separates lines.
pub open spec fn has_no_newline(l: Seq<char>) -> bool {
    forall|j: int| 0 <= j < l.len() ==> l[j] != '\n'
}

/// A document always splits into at least one line.
pub proof fn lemma_split_lines_len(s: Seq<char>)
    ensures
        split_lines(s).len() >= 1,
    decreases s.len(),
{
    if s.len() == 0 {
    } else {
        lemma_split_lines_len(s.drop_first());
    }
}

/// No line produced by `split_lines` contains a `'\n'`.
pub proof fn lemma_split_lines_no_newline(s: Seq<char>)
    ensures
        forall|i: int| 0 <= i < split_lines(s).len() ==> has_no_newline(#[trigger] split_lines(s)[i]),
    decreases s.len(),
{
    lemma_split_lines_len(s);
    if s.len() == 0 {
    } else {
        lemma_split_lines_no_newline(s.drop_first());
        lemma_split_lines_len(s.drop_first());
        let rest = split_lines(s.drop_first());
        if s[0] == '\n' {
            assert forall|i: int| 0 <= i < split_lines(s).len() implies has_no_newline(
                #[trigger] split_lines(s)[i],
            ) by {
                if i > 0 {
                    assert(split_lines(s)[i] == rest[i - 1]);
                }
            }
        } else {
            assert forall|i: int| 0 <= i < split_lines(s).len() implies has_no_newline(
                #[trigger] split_lines(s)[i],
            ) by {
                if i == 0 {
                    assert(split_lines(s)[0] == seq![s[0]] + rest[0]);
                    assert(has_no_newline(rest[0]));
                } else {
                    assert(split_lines(s)[i] == rest[i]);
                }
            }
        }
    }
}

/// Joining the lines of a document gives the document back.
pub proof fn lemma_join_split_lines(s: Seq<char>)
    ensures
        join_lines(split_lines(s)) == s,
    decreases s.len(),
{
    if s.len() == 0 {
        assert(join_lines(split_lines(s)) =~= s);
    } else {
        lemma_join_split_lines(s.drop_first());
        lemma_split_lines_len(s.drop_first());
        let rest = split_lines(s.drop_first());
        if s[0] == '\n' {
            let ls = seq![Seq::<char>::empty()] + rest;
            assert(split_lines(s) == ls);
            assert(ls.drop_first() =~= rest);
            assert(join_lines(ls) == ls[0] + seq!['\n'] + join_lines(rest));
            assert(join_lines(ls) =~= s);
        } else {
            let ls = rest.update(0, seq![s[0]] + rest[0]);
            assert(split_lines(s) == ls);
            if rest.len() == 1 {
                assert(join_lines(ls) == ls[0]);
                assert(join_lines(rest) == rest[0]);
                assert(join_lines(ls) =~= s);
            } else {
                assert(ls.drop_first() =~= rest.drop_first());
                assert(join_lines(ls) == ls[0] + seq!['\n'] + join_lines(ls.drop_first()));
                assert(join_lines(rest) == rest[0] + seq!['\n'] + join_lines(rest.drop_first()));
                assert(join_lines(ls) =~= seq![s[0]] + join_lines(rest));
                assert(join_lines(ls) =~= s);
            }
        }
    }
}

/// Splitting a joined sequence of newline-free lines gives the lines back.
pub proof fn lemma_split_join_lines(ls: Seq<Seq<char>>)
    requires
        ls.len() >= 1,
        forall|i: int| 0 <= i < ls.len() ==> has_no_newline(#[trigger] ls[i]),
    ensures
        split_lines(join_lines(ls)) == ls,
    decreases ls.len(), ls[0].len(),
{
    let s = join_lines(ls);
    if ls[0].len() == 0 {
        if ls.len() == 1 {
            assert(s.len() == 0);
            assert(split_lines(s) =~~= ls);
        } else {
            let tail = ls.drop_first();
            assert(s == ls[0] + seq!['\n'] + join_lines(tail));
            assert(s =~= seq!['\n'] + join_lines(tail));
            assert(s[0] == '\n');
            assert(s.drop_first() =~= join_lines(tail));
            assert(forall|i: int|
                0 <= i < tail.len() ==> has_no_newline(#[trigger] tail[i]));
            lemma_split_join_lines(tail);
            assert(split_lines(s) == seq![Seq::<char>::empty()] + split_lines(s.drop_first()));
            assert(split_lines(s) =~~= ls);
        }
    } else {
        let c = ls[0][0];
        assert(c != '\n');
        let ls2 = ls.update(0, ls[0].drop_first());
        if ls.len() == 1 {
            assert(s == ls[0]);
            assert(join_lines(ls2) == ls2[0]);
            assert(s.drop_first() =~= join_lines(ls2));
        } else {
            assert(ls2.drop_first() =~= ls.drop_first());
            assert(s == ls[0] + seq!['\n'] + join_lines(ls.drop_first()));
            assert(join_lines(ls2) == ls2[0] + seq!['\n'] + join_lines(ls2.drop_first()));
            assert(s.drop_first() =~= join_lines(ls2));
        }
        assert(s[0] == c);
        assert(forall|i: int| 0 <= i < ls2.len() ==> has_no_newline(#[trigger] ls2[i]));
        lemma_split_join_lines(ls2);
        let rest = split_lines(s.drop_first());
        assert(rest == ls2);
        assert(split_lines(s) == rest.update(0, seq![c] + rest[0]));
        assert(seq![c] + ls2[0] =~= ls[0]);
        assert(split_lines(s) =~= ls);
    }
}

/// How the lines of a document change when one character is appended:
/// a `'\n'` starts a fresh empty line, any other character extends the
/// last line.
pub proof fn lemma_split_lines_push(t: Seq<char>, c: char)
    ensures
        c == '\n' ==> split_lines(t.push(c)) == split_lines(t).push(Seq::<char>::empty()),
        c != '\n' ==> split_lines(t.push(c)) == split_lines(t).update(
            split_lines(t).len() - 1,
            split_lines(t).last().push(c),
        ),
    decreases t.len(),
{
    lemma_split_lines_len(t);
    let u = t.push(c);
    if t.len() == 0 {
        assert(u.drop_first() =~= Seq::<char>::empty());
        assert(split_lines(Seq::<char>::empty()) == seq![Seq::<char>::empty()]);
        if c == '\n' {
            assert(split_lines(u) =~~= split_lines(t).push(Seq::<char>::empty()));
        } else {
            assert(split_lines(u) =~~= split_lines(t).update(
                0,
                split_lines(t).last().push(c),
            ));
        }
    } else {
        assert(u[0] == t[0]);
        assert(u.drop_first() =~= t.drop_first().push(c));
        lemma_split_lines_push(t.drop_first(), c);
        lemma_split_lines_len(t.drop_first());
        let d = split_lines(t.drop_first());
        let d2 = split_lines(t.drop_first().push(c));
        if t[0] == '\n' {
            assert(split_lines(t) == seq![Seq::<char>::empty()] + d);
            assert(split_lines(u) == seq![Seq::<char>::empty()] + d2);
            if c == '\n' {
                assert(split_lines(u) =~= split_lines(t).push(Seq::<char>::empty()));
            } else {
                assert(split_lines(t).last() == d.last());
                assert(split_lines(u) =~= split_lines(t).update(
                    split_lines(t).len() - 1,
                    split_lines(t).last().push(c),
                ));
            }
        } else {
            assert(split_lines(t) == d.update(0, seq![t[0]] + d[0]));
            assert(split_lines(u) == d2.update(0, seq![u[0]] + d2[0]));
            if c == '\n' {
                assert(d2 == d.push(Seq::<char>::empty()));
                assert(d2[0] == d[0]);
                assert(split_lines(u) =~= split_lines(t).push(Seq::<char>::empty()));
            } else {
                assert(d2 == d.update(d.len() - 1, d.last().push(c)));
                if d.len() == 1 {
                    assert(d2[0] == d[0].push(c));
                    assert(split_lines(t).last() == seq![t[0]] + d[0]);
                    assert(seq![t[0]] + d[0].push(c) =~= (seq![t[0]] + d[0]).push(c));
                    assert(split_lines(u) =~= split_lines(t).update(
                        split_lines(t).len() - 1,
                        split_lines(t).last().push(c),
                    ));
                } else {
                    assert(d2[0] == d[0]);
                    assert(split_lines(t).last() == d.last());
                    assert(split_lines(u) =~= split_lines(t).update(
                        split_lines(t).len() - 1,
                        split_lines(t).last().push(c),
                    ));
                }
            }
        }
    }
}

/// `trim_start_chars` drops exactly the leading run of whitespace: if the
/// characters before position `a` are whitespace and the one at `a` (when
/// there is one) is not, the trimmed line is the tail from `a`.
pub proof fn lemma_trim_start_chars_range(l: Seq<char>, a: int)
    requires
        0 <= a <= l.len(),
        forall|j: int| 0 <= j < a ==> is_blank_char(#[trigger] l[j]),
        a < l.len() ==> !is_blank_char(l[a]),
    ensures
        trim_start_chars(l) == l.subrange(a, l.len() as int),
    decreases a,
{
    if a == 0 {
        if l.len() == 0 {
            assert(trim_start_chars(l) =~= l.subrange(0, 0));
        } else {
            assert(!is_blank_char(l[0]));
            assert(trim_start_chars(l) =~= l.subrange(0, l.len() as int));
        }
    } else {
        assert(is_blank_char(l[0]));
        let d = l.drop_first();
        assert forall|j: int| 0 <= j < a - 1 implies is_blank_char(#[trigger] d[j]) by {
            assert(d[j] == l[j + 1]);
        }
        lemma_trim_start_chars_range(d, a - 1);
        assert(d.subrange(a - 1, d.len() as int) =~= l.subrange(a, l.len() as int));
    }
}

/// `trim_end_chars` drops exactly the trailing run of whitespace: if the
/// characters from position `b` on are whitespace and the one before `b`
/// (when there is one) is not, the trimmed line is the prefix up to `b`.
pub proof fn lemma_trim_end_chars_range(l: Seq<char>, b: int)
    requires
        0 <= b <= l.len(),
        forall|j: int| b <= j < l.len() ==> is_blank_char(#[trigger] l[j]),
        b > 0 ==> !is_blank_char(l[b - 1]),
    ensures
        trim_end_chars(l) == l.subrange(0, b),
    decreases l.len(),
{
    if l.len() == 0 {
        assert(trim_end_chars(l) =~= l.subrange(0, 0));
    } else if is_blank_char(l.last()) {
        assert(b < l.len());
        let d = l.drop_last();
        lemma_trim_end_chars_range(d, b);
        assert(d.subrange(0, b) =~= l.subrange(0, b));
    } else {
        assert(b == l.len());
        assert(trim_end_chars(l) =~= l.subrange(0, b));
    }
}

/// Appending one more line to a non-empty sequence of lines appends a
/// separator and that line to the joined text.
pub proof fn lemma_join_lines_push(ls: Seq<Seq<char>>, l: Seq<char>)
    requires
        ls.len() >= 1,
    ensures
        join_lines(ls.push(l)) == join_lines(ls) + seq!['\n'] + l,
    decreases ls.len(),
{
    if ls.len() == 1 {
        assert(ls.push(l).drop_first() =~= seq![l]);
        assert(join_lines(seq![l]) == l);
        assert(join_lines(ls.push(l)) == ls[0] + seq!['\n'] + join_lines(ls.push(l).drop_first()));
        assert(join_lines(ls.push(l)) =~= join_lines(ls) + seq!['\n'] + l);
    } else {
        assert(ls.push(l).drop_first() =~= ls.drop_first().push(l));
        lemma_join_lines_push(ls.drop_first(), l);
        assert(join_lines(ls.push(l)) == ls[0] + seq!['\n'] + join_lines(ls.drop_first().push(l)));
        assert(join_lines(ls) == ls[0] + seq!['\n'] + join_lines(ls.drop_first()));
        assert(join_lines(ls.push(l)) =~= join_lines(ls) + seq!['\n'] + l);
    }
}

/// Joining two non-empty line sequences one after the other joins each
/// part and puts one separator between them.
pub proof fn lemma_join_lines_concat(a: Seq<Seq<char>>, b: Seq<Seq<char>>)
    requires
        a.len() >= 1,
        b.len() >= 1,
    ensures
        join_lines(a + b) == join_lines(a) + seq!['\n'] + join_lines(b),
    decreases a.len(),
{
    if a.len() == 1 {
        assert((a + b).drop_first() =~= b);
        assert(join_lines(a + b) == (a + b)[0] + seq!['\n'] + join_lines((a + b).drop_first()));
        assert(join_lines(a + b) =~= join_lines(a) + seq!['\n'] + join_lines(b));
    } else {
        assert((a + b).drop_first() =~= a.drop_first() + b);
        lemma_join_lines_concat(a.drop_first(), b);
        assert(join_lines(a + b) == (a + b)[0] + seq!['\n'] + join_lines((a + b).drop_first()));
        assert(join_lines(a) == a[0] + seq!['\n'] + join_lines(a.drop_first()));
        assert(join_lines(a + b) =~= join_lines(a) + seq!['\n'] + join_lines(b));
    }
}

/// The trailing-blank trim keeps a prefix of the lines: the last kept
/// line, when any, is not blank, and every dropped line is blank.
pub proof fn lemma_trim_trailing_blank_lines_prefix(ls: Seq<Seq<char>>)
    ensures
        trim_trailing_blank_lines(ls).len() <= ls.len(),
        trim_trailing_blank_lines(ls) == ls.subrange(
            0,
            trim_trailing_blank_lines(ls).len() as int,
        ),
        trim_trailing_blank_lines(ls).len() > 0 ==> !is_blank_line(
            trim_trailing_blank_lines(ls).last(),
        ),
        forall|j: int|
            trim_trailing_blank_lines(ls).len() <= j < ls.len() ==> is_blank_line(
                #[trigger] ls[j],
            ),
    decreases ls.len(),
{
    let t = trim_trailing_blank_lines(ls);
    if ls.len() > 0 && is_blank_line(ls.last()) {
        lemma_trim_trailing_blank_lines_prefix(ls.drop_last());
        assert(ls.drop_last().subrange(0, t.len() as int) =~= ls.subrange(0, t.len() as int));
        assert forall|j: int| t.len() <= j < ls.len() implies is_blank_line(#[trigger] ls[j]) by {
            if j < ls.len() - 1 {
                assert(ls[j] == ls.drop_last()[j]);
            }
        }
    } else {
        assert(ls.subrange(0, ls.len() as int) =~= ls);
    }
}

/// Trimming leading blank lines keeps only lines that were there, so a
/// newline-free line sequence stays newline-free.
pub proof fn lemma_trim_leading_blank_lines_no_newline(ls: Seq<Seq<char>>)
    requires
        forall|i: int| 0 <= i < ls.len() ==> has_no_newline(#[trigger] ls[i]),
    ensures
        forall|i: int|
            0 <= i < trim_leading_blank_lines(ls).len() ==> has_no_newline(
                #[trigger] trim_leading_blank_lines(ls)[i],
            ),
    decreases ls.len(),
{
    let t = trim_leading_blank_lines(ls);
    if ls.len() > 0 && is_blank_line(ls[0]) {
        assert forall|i: int| 0 <= i < ls.drop_first().len() implies has_no_newline(
            #[trigger] ls.drop_first()[i],
        ) by {
            assert(ls.drop_first()[i] == ls[i + 1]);
        }
        lemma_trim_leading_blank_lines_no_newline(ls.drop_first());
        assert forall|i: int| 0 <= i < t.len() implies has_no_newline(#[trigger] t[i]) by {
            assert(t[i] == trim_leading_blank_lines(ls.drop_first())[i]);
            assert(has_no_newline(trim_leading_blank_lines(ls.drop_first())[i]));
        }
    } else {
        assert forall|i: int| 0 <= i < t.len() implies has_no_newline(#[trigger] t[i]) by {
            assert(t[i] == ls[i]);
        }
    }
}

/// Trimming trailing blank lines keeps only lines that were there, so a
/// newline-free line sequence stays newline-free.
pub proof fn lemma_trim_trailing_blank_lines_no_newline(ls: Seq<Seq<char>>)
    requires
        forall|i: int| 0 <= i < ls.len() ==> has_no_newline(#[trigger] ls[i]),
    ensures
        forall|i: int|
            0 <= i < trim_trailing_blank_lines(ls).len() ==> has_no_newline(
                #[trigger] trim_trailing_blank_lines(ls)[i],
            ),
    decreases ls.len(),
{
    let t = trim_trailing_blank_lines(ls);
    if ls.len() > 0 && is_blank_line(ls.last()) {
        assert forall|i: int| 0 <= i < ls.drop_last().len() implies has_no_newline(
            #[trigger] ls.drop_last()[i],
        ) by {
            assert(ls.drop_last()[i] == ls[i]);
        }
        lemma_trim_trailing_blank_lines_no_newline(ls.drop_last());
        assert forall|i: int| 0 <= i < t.len() implies has_no_newline(#[trigger] t[i]) by {
            assert(t[i] == trim_trailing_blank_lines(ls.drop_last())[i]);
            assert(has_no_newline(trim_trailing_blank_lines(ls.drop_last())[i]));
        }
    } else {
        assert forall|i: int| 0 <= i < t.len() implies has_no_newline(#[trigger] t[i]) by {
            assert(t[i] == ls[i]);
        }
    }
}

/// Build a `String` from a vector of characters.
///
/// Relies on `String`'s `FromIterator` implementation over `char`:
/// collecting yields the string whose characters are exactly those of the
/// iterator, in order.
#[verifier::external_body]
pub(crate) fn string_from_chars(v: &Vec<char>) -> (s: String)
    ensures
        s@ == v@,
{
    v.iter().collect()
}

} // verus!
