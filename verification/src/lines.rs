//! Lines of a message: splitting raw text into lines, joining lines
//! back, and blank-line handling.

use vstd::prelude::*;
use crate::text::find_char;
use crate::text::find_char_range;
use crate::text::is_space;
use crate::text::is_space_char;
use crate::text::lemma_find_char;
use crate::text::lemma_find_char_at;

verus! {

/// The lines of `s`, split at `'\n'`. A final newline terminates the
/// last line rather than opening an empty one, so `"a\n"` has the one
/// line `"a"` and the empty text has no lines.
pub open spec fn split_lines(s: Seq<char>) -> Seq<Seq<char>>
    decreases s.len(),
    via split_lines_decreases
{
    if s.len() == 0 {
        Seq::empty()
    } else {
        let i = find_char(s, '\n');
        if i == s.len() {
            seq![s]
        } else {
            seq![s.subrange(0, i)] + split_lines(s.subrange(i + 1, s.len() as int))
        }
    }
}

#[via_fn]
proof fn split_lines_decreases(s: Seq<char>) {
    lemma_find_char(s, '\n');
}

/// The lines of `ls` joined with single `'\n'` separators.
pub open spec fn join_lines(ls: Seq<Seq<char>>) -> Seq<char>
    decreases ls.len(),
{
    if ls.len() == 0 {
        Seq::empty()
    } else if ls.len() == 1 {
        ls[0]
    } else {
        ls[0] + seq!['\n'] + join_lines(ls.drop_first())
    }
}

/// Joining one more line appends a separator (unless nothing was
/// joined yet) and then the line.
pub proof fn lemma_join_lines_push(ls: Seq<Seq<char>>, x: Seq<char>)
    ensures
        ls.len() == 0 ==> join_lines(ls.push(x)) == x,
        ls.len() > 0 ==> join_lines(ls.push(x)) == join_lines(ls) + seq!['\n'] + x,
    decreases ls.len(),
{
    if ls.len() == 0 {
        assert(ls.push(x)[0] == x);
    } else if ls.len() == 1 {
        assert(ls.push(x).drop_first() =~= seq![x]);
        assert(join_lines(seq![x]) == x);
    } else {
        assert(ls.push(x).drop_first() =~= ls.drop_first().push(x));
        lemma_join_lines_push(ls.drop_first(), x);
        assert(ls[0] + seq!['\n'] + (join_lines(ls.drop_first()) + seq!['\n'] + x) =~= (ls[0]
            + seq!['\n'] + join_lines(ls.drop_first())) + seq!['\n'] + x);
        assert(ls.push(x)[0] == ls[0]);
    }
}

/// A joined block is at least as long as its first line.
pub proof fn lemma_join_lines_first(ls: Seq<Seq<char>>)
    requires
        ls.len() > 0,
    ensures
        join_lines(ls).len() >= ls[0].len(),
{
}

/// Joining the lines of `s` restores `s`, except that a final
/// newline, which closes the last line rather than opening a new one,
/// is not restored.
pub proof fn lemma_join_split_lines(s: Seq<char>)
    ensures
        join_lines(split_lines(s)) == s || (s.len() > 0 && s[s.len() - 1] == '\n' && join_lines(
            split_lines(s),
        ) == s.subrange(0, s.len() - 1)),
    decreases s.len(),
{
    if s.len() == 0 {
        assert(join_lines(split_lines(s)) == s);
    } else {
        lemma_find_char(s, '\n');
        let i = find_char(s, '\n');
        if i == s.len() {
            assert(join_lines(seq![s]) == s);
        } else {
            let head = s.subrange(0, i);
            let rest = s.subrange(i + 1, s.len() as int);
            if rest.len() == 0 {
                assert(seq![head] + split_lines(rest) =~= seq![head]);
                assert(join_lines(seq![head]) == head);
                assert(head =~= s.subrange(0, s.len() - 1));
            } else {
                lemma_join_split_lines(rest);
                assert(split_lines(rest).len() >= 1);
                let sp = seq![head] + split_lines(rest);
                assert(split_lines(s) == sp);
                assert(sp[0] == head);
                assert(sp.drop_first() =~= split_lines(rest));
                assert(join_lines(sp) == head + seq!['\n'] + join_lines(split_lines(rest)));
                if join_lines(split_lines(rest)) == rest {
                    assert(head + seq!['\n'] + rest =~= s);
                } else {
                    assert(head + seq!['\n'] + rest.subrange(0, rest.len() - 1) =~= s.subrange(
                        0,
                        s.len() - 1,
                    ));
                    assert(s[s.len() - 1] == rest[rest.len() - 1]);
                }
            }
        }
    }
}

/// A line is blank when it holds only whitespace.
pub open spec fn is_blank(l: Seq<char>) -> bool {
    forall|k: int| 0 <= k < l.len() ==> is_space(l[k])
}

/// Exec mirror of [`is_blank`].
pub(crate) fn is_blank_str(l: &str) -> (b: bool)
    ensures
        b == is_blank(l@),
{
    let len = l.unicode_len();
    let mut i: usize = 0;
    while i < len
        invariant
            i <= len,
            len == l@.len(),
            forall|k: int| 0 <= k < i ==> is_space(l@[k]),
        decreases len - i,
    {
        if !is_space_char(l.get_char(i)) {
            return false;
        }
        i = i + 1;
    }
    true
}

/// Index of the first blank line of `ls`, or `ls.len()` when none is
/// blank.
pub open spec fn find_blank_line(ls: Seq<Seq<char>>) -> int
    decreases ls.len(),
{
    if ls.len() == 0 {
        0
    } else if is_blank(ls[0]) {
        0
    } else {
        1 + find_blank_line(ls.drop_first())
    }
}

/// An index with no blank line before it that either is the end or
/// points at a blank line is exactly [`find_blank_line`].
pub proof fn lemma_find_blank_line_at(ls: Seq<Seq<char>>, i: int)
    requires
        0 <= i <= ls.len(),
        forall|k: int| 0 <= k < i ==> !is_blank(ls[k]),
        i < ls.len() ==> is_blank(ls[i]),
    ensures
        find_blank_line(ls) == i,
    decreases ls.len(),
{
    if ls.len() == 0 {
    } else if is_blank(ls[0]) {
        assert(i == 0);
    } else {
        assert(i >= 1);
        assert forall|k: int| 0 <= k < i - 1 implies !is_blank(ls.drop_first()[k]) by {
            assert(ls.drop_first()[k] == ls[k + 1]);
        }
        assert(i - 1 < ls.drop_first().len() ==> ls.drop_first()[i - 1] == ls[i]);
        lemma_find_blank_line_at(ls.drop_first(), i - 1);
    }
}

/// `ls` without its leading blank lines.
pub open spec fn drop_leading_blank(ls: Seq<Seq<char>>) -> Seq<Seq<char>>
    decreases ls.len(),
{
    if ls.len() > 0 && is_blank(ls[0]) {
        drop_leading_blank(ls.drop_first())
    } else {
        ls
    }
}

/// `ls` without its trailing blank lines.
pub open spec fn drop_trailing_blank(ls: Seq<Seq<char>>) -> Seq<Seq<char>>
    decreases ls.len(),
{
    if ls.len() > 0 && is_blank(ls[ls.len() - 1]) {
        drop_trailing_blank(ls.drop_last())
    } else {
        ls
    }
}

/// `ls` without its leading and trailing blank lines.
pub open spec fn trim_blank_lines(ls: Seq<Seq<char>>) -> Seq<Seq<char>> {
    drop_trailing_blank(drop_leading_blank(ls))
}

/// When dropping leading blank lines leaves anything, what it leaves
/// starts with a non-blank line.
pub proof fn lemma_drop_leading_blank_first(ls: Seq<Seq<char>>)
    ensures
        drop_leading_blank(ls).len() > 0 ==> !is_blank(drop_leading_blank(ls)[0]),
    decreases ls.len(),
{
    if ls.len() > 0 && is_blank(ls[0]) {
        lemma_drop_leading_blank_first(ls.drop_first());
    }
}

/// Dropping trailing blank lines keeps the first line in place.
pub proof fn lemma_drop_trailing_blank_keeps_first(ls: Seq<Seq<char>>)
    ensures
        drop_trailing_blank(ls).len() > 0 ==> drop_trailing_blank(ls)[0] == ls[0],
    decreases ls.len(),
{
    if ls.len() > 0 && is_blank(ls[ls.len() - 1]) {
        lemma_drop_trailing_blank_keeps_first(ls.drop_last());
        assert(drop_trailing_blank(ls.drop_last()).len() > 0 ==> ls.drop_last()[0] == ls[0]);
    }
}

/// If everything before `i` is blank and `i` is the end or points at a
/// non-blank line, dropping leading blank lines drops exactly
/// `ls[..i]`.
pub proof fn lemma_drop_leading_blank_at(ls: Seq<Seq<char>>, i: int)
    requires
        0 <= i <= ls.len(),
        forall|k: int| 0 <= k < i ==> is_blank(ls[k]),
        i < ls.len() ==> !is_blank(ls[i]),
    ensures
        drop_leading_blank(ls) == ls.subrange(i, ls.len() as int),
    decreases ls.len(),
{
    if i == 0 {
        assert(ls.subrange(0, ls.len() as int) =~= ls);
    } else {
        assert(is_blank(ls[0]));
        assert forall|k: int| 0 <= k < i - 1 implies is_blank(ls.drop_first()[k]) by {
            assert(ls.drop_first()[k] == ls[k + 1]);
        }
        assert(i - 1 < ls.drop_first().len() ==> ls.drop_first()[i - 1] == ls[i]);
        lemma_drop_leading_blank_at(ls.drop_first(), i - 1);
        assert(ls.drop_first().subrange(i - 1, ls.drop_first().len() as int) =~= ls.subrange(
            i,
            ls.len() as int,
        ));
    }
}

/// If everything from `j` on is blank and `j` is the start or is
/// preceded by a non-blank line, dropping trailing blank lines keeps
/// `ls[..j]`.
pub proof fn lemma_drop_trailing_blank_at(ls: Seq<Seq<char>>, j: int)
    requires
        0 <= j <= ls.len(),
        forall|k: int| j <= k < ls.len() ==> is_blank(ls[k]),
        j > 0 ==> !is_blank(ls[j - 1]),
    ensures
        drop_trailing_blank(ls) == ls.subrange(0, j),
    decreases ls.len(),
{
    if j == ls.len() {
        if ls.len() > 0 && is_blank(ls[ls.len() - 1]) {
            assert(!is_blank(ls[j - 1]));
        }
        assert(ls.subrange(0, j) =~= ls);
    } else {
        assert(is_blank(ls[ls.len() - 1]));
        assert forall|k: int| j <= k < ls.drop_last().len() implies is_blank(
            ls.drop_last()[k],
        ) by {
            assert(ls.drop_last()[k] == ls[k]);
        }
        assert(j > 0 ==> ls.drop_last()[j - 1] == ls[j - 1]);
        lemma_drop_trailing_blank_at(ls.drop_last(), j);
        assert(ls.drop_last().subrange(0, j) =~= ls.subrange(0, j));
    }
}

/// The lines of `s`, as owned strings.
pub(crate) fn split_lines_vec(s: &str) -> (v: Vec<String>)
    ensures
        v.deep_view() == split_lines(s@),
{
    let len = s.unicode_len();
    let mut v: Vec<String> = Vec::new();
    let mut pos: usize = 0;
    proof {
        assert(s@.subrange(0, len as int) =~= s@);
        assert(v.deep_view() =~= Seq::<Seq<char>>::empty());
    }
    while pos < len
        invariant
            pos <= len,
            len == s@.len(),
            split_lines(s@) == v.deep_view() + split_lines(s@.subrange(pos as int, len as int)),
        decreases len - pos,
    {
        let j = find_char_range(s, pos, len, '\n');
        let line = String::from_str(s.substring_char(pos, j));
        let ghost old_v = v.deep_view();
        let ghost rem = s@.subrange(pos as int, len as int);
        v.push(line);
        proof {
            assert forall|k: int| 0 <= k < j - pos implies rem[k] != '\n' by {
                assert(rem[k] == s@[k + pos]);
            }
            assert(j - pos < rem.len() ==> rem[j - pos] == s@[j as int]);
            lemma_find_char_at(rem, '\n', j - pos);
            assert(line@ =~= rem.subrange(0, j - pos));
            assert(v.deep_view() =~= old_v.push(line@));
            if j < len {
                assert(split_lines(rem) == seq![rem.subrange(0, j - pos)] + split_lines(
                    rem.subrange(j - pos + 1, rem.len() as int),
                ));
                assert(rem.subrange(j - pos + 1, rem.len() as int) =~= s@.subrange(
                    j + 1,
                    len as int,
                ));
                assert(split_lines(s@) =~= v.deep_view() + split_lines(
                    s@.subrange(j + 1, len as int),
                ));
            } else {
                assert(rem.subrange(0, j - pos) =~= rem);
                assert(split_lines(rem) == seq![rem]);
                assert(s@.subrange(len as int, len as int) =~= Seq::<char>::empty());
                assert(split_lines(s@) =~= v.deep_view() + split_lines(
                    s@.subrange(len as int, len as int),
                ));
            }
        }
        if j < len {
            pos = j + 1;
        } else {
            pos = len;
        }
    }
    proof {
        assert(s@.subrange(pos as int, len as int) =~= Seq::<char>::empty());
        assert(v.deep_view() + Seq::<Seq<char>>::empty() =~= v.deep_view());
    }
    v
}

/// The lines `v[from..to]` joined with single `'\n'` separators.
pub(crate) fn join_range(v: &Vec<String>, from: usize, to: usize) -> (r: String)
    requires
        from <= to,
        to <= v.len(),
    ensures
        r@ == join_lines(v.deep_view().subrange(from as int, to as int)),
{
    let mut r = String::new();
    let mut i: usize = from;
    proof {
        assert(v.deep_view().subrange(from as int, from as int) =~= Seq::<Seq<char>>::empty());
    }
    while i < to
        invariant
            from <= i <= to,
            to <= v.len(),
            r@ == join_lines(v.deep_view().subrange(from as int, i as int)),
        decreases to - i,
    {
        let ghost joined = v.deep_view().subrange(from as int, i as int);
        if i > from {
            r.append("\n");
            proof {
                reveal_strlit("\n");
                assert("\n"@ =~= seq!['\n']);
            }
        }
        r.append(v[i].as_str());
        proof {
            assert(v.deep_view().subrange(from as int, i + 1) =~= joined.push(v.deep_view()[
                i as int]));
            lemma_join_lines_push(joined, v.deep_view()[i as int]);
            assert(v.deep_view()[i as int] == v[i as int]@);
        }
        i = i + 1;
    }
    r
}

} // verus!
