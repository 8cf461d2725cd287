//! The subject grammar:
//! `<type>[ "(" <scope> ")" ][ "!" ]": " <description>`, matched
//! against the whole subject, anchored at its start.

use vstd::prelude::*;
use crate::text::find_char;
use crate::text::find_char_range;
use crate::text::is_space;
use crate::text::is_space_char;
use crate::text::lemma_find_char_at;

verus! {

/// Characters allowed in the commit type: anything but whitespace,
/// `(`, `:` and the breaking-change marker `!`.
pub open spec fn is_type_char(c: char) -> bool {
    !is_space(c) && c != '(' && c != ':' && c != '!'
}

/// Exec mirror of [`is_type_char`].
pub(crate) fn type_char(c: char) -> (b: bool)
    ensures
        b == is_type_char(c),
{
    !is_space_char(c) && c != '(' && c != ':' && c != '!'
}

/// Length of the leading run of type characters of `s`.
pub open spec fn type_end(s: Seq<char>) -> int
    decreases s.len(),
{
    if s.len() > 0 && is_type_char(s[0]) {
        1 + type_end(s.drop_first())
    } else {
        0
    }
}

/// An index up to which everything is a type character, and which is
/// the end or points at a non-type character, is exactly [`type_end`].
pub proof fn lemma_type_end_at(s: Seq<char>, i: int)
    requires
        0 <= i <= s.len(),
        forall|k: int| 0 <= k < i ==> is_type_char(s[k]),
        i < s.len() ==> !is_type_char(s[i]),
    ensures
        type_end(s) == i,
    decreases s.len(),
{
    if s.len() == 0 || !is_type_char(s[0]) {
        assert(i == 0);
    } else {
        assert(i >= 1);
        assert forall|k: int| 0 <= k < i - 1 implies is_type_char(s.drop_first()[k]) by {
            assert(s.drop_first()[k] == s[k + 1]);
        }
        assert(i - 1 < s.drop_first().len() ==> s.drop_first()[i - 1] == s[i]);
        lemma_type_end_at(s.drop_first(), i - 1);
    }
}

/// Position right after the optional breaking-change marker at `i`.
pub open spec fn marker_end(s: Seq<char>, i: int) -> int {
    if i < s.len() && s[i] == '!' {
        i + 1
    } else {
        i
    }
}

/// From position `i` on, the subject ends with an optional `!`, the
/// separator `": "`, and a non-empty description.
pub open spec fn tail_matches(s: Seq<char>, i: int) -> bool {
    let j = marker_end(s, i);
    j + 2 < s.len() && s[j] == ':' && s[j + 1] == ' '
}

/// Index of the `)` closing the scope opened at `t`, or `s.len()` when
/// it never closes.
pub open spec fn scope_close(s: Seq<char>, t: int) -> int {
    t + 1 + find_char(s.skip(t + 1), ')')
}

/// Decomposition of a subject into type, optional scope and
/// description, or `None` when the subject does not match the
/// grammar.
pub open spec fn subject_parts(s: Seq<char>) -> Option<(Seq<char>, Option<Seq<char>>, Seq<char>)> {
    let t = type_end(s);
    if t == 0 {
        None
    } else if t < s.len() && s[t] == '(' {
        let close = scope_close(s, t);
        if close < s.len() && tail_matches(s, close + 1) {
            Some(
                (
                    s.subrange(0, t),
                    Some(s.subrange(t + 1, close)),
                    s.subrange(marker_end(s, close + 1) + 2, s.len() as int),
                ),
            )
        } else {
            None
        }
    } else {
        if tail_matches(s, t) {
            Some((s.subrange(0, t), None, s.subrange(marker_end(s, t) + 2, s.len() as int)))
        } else {
            None
        }
    }
}

/// Checks for the optional marker, the `": "` separator and a
/// non-empty description from position `i` on; returns where the
/// description starts.
fn tail_check(s: &str, len: usize, i: usize) -> (r: Option<usize>)
    requires
        len == s@.len(),
        i <= len,
    ensures
        r is Some <==> tail_matches(s@, i as int),
        r matches Some(d) ==> d == marker_end(s@, i as int) + 2 && d <= len,
{
    let j = if i < len && s.get_char(i) == '!' {
        i + 1
    } else {
        i
    };
    if j < len && s.get_char(j) == ':' {
        if j + 1 < len && s.get_char(j + 1) == ' ' {
            if j + 2 < len {
                return Some(j + 2);
            }
        }
    }
    None
}

/// Decomposes a subject into `Some((type, scope, description))`, or
/// returns `None` when the subject does not match the grammar (no
/// colon, no space after the colon, empty type, empty description, or
/// an unclosed scope).
pub fn parse_subject(subject: &str) -> (r: Option<(String, Option<String>, String)>)
    ensures
        r.deep_view() == subject_parts(subject@),
{
    let len = subject.unicode_len();
    let mut t: usize = 0;
    while t < len && type_char(subject.get_char(t))
        invariant
            t <= len,
            len == subject@.len(),
            forall|k: int| 0 <= k < t ==> is_type_char(subject@[k]),
        decreases len - t,
    {
        t = t + 1;
    }
    proof {
        lemma_type_end_at(subject@, t as int);
    }
    if t == 0 {
        return None;
    }
    if t < len && subject.get_char(t) == '(' {
        let close = find_char_range(subject, t + 1, len, ')');
        proof {
            let sk = subject@.skip(t + 1);
            assert forall|k: int| 0 <= k < close - (t + 1) implies sk[k] != ')' by {
                assert(sk[k] == subject@[k + t + 1]);
            }
            assert(close - (t + 1) < sk.len() ==> sk[close - (t + 1)] == subject@[close as int]);
            lemma_find_char_at(sk, ')', close - (t + 1));
        }
        if close < len {
            match tail_check(subject, len, close + 1) {
                Some(d) => {
                    let ty = String::from_str(subject.substring_char(0, t));
                    let scope = String::from_str(subject.substring_char(t + 1, close));
                    let desc = String::from_str(subject.substring_char(d, len));
                    Some((ty, Some(scope), desc))
                },
                None => None,
            }
        } else {
            None
        }
    } else {
        match tail_check(subject, len, t) {
            Some(d) => {
                let ty = String::from_str(subject.substring_char(0, t));
                let desc = String::from_str(subject.substring_char(d, len));
                Some((ty, None, desc))
            },
            None => None,
        }
    }
}

} // verus!
