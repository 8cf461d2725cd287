//! Footers: the trailer grammar `<token>: <value>` / `<token> #<value>`
//! and the maximal trailing block of trailer lines.

use vstd::prelude::*;
use crate::text::find_char;
use crate::text::find_char_range;
use crate::text::is_space;
use crate::text::is_space_char;
use crate::text::lemma_find_char_at;

verus! {

/// A trailer token: non-empty, with no whitespace and no colon.
pub open spec fn is_plain_token(t: Seq<char>) -> bool {
    t.len() > 0 && forall|k: int| 0 <= k < t.len() ==> !is_space(t[k]) && t[k] != ':'
}

/// The one token that may contain a space.
pub open spec fn breaking_token() -> Seq<char> {
    "BREAKING CHANGE"@
}

/// `l` matches `<token>: <value>`: the text before the first colon is
/// a token (or the breaking-change token), and the colon is followed
/// by exactly one space before the value.
pub open spec fn colon_trailer(l: Seq<char>) -> bool {
    let c = find_char(l, ':');
    0 < c && c + 1 < l.len() && l[c + 1] == ' ' && (is_plain_token(l.subrange(0, c)) || l.subrange(
        0,
        c,
    ) == breaking_token())
}

/// `l` matches `<token> #<value>`: the text before the first space is
/// a token, and the space is followed by `#`.
pub open spec fn hash_trailer(l: Seq<char>) -> bool {
    let s = find_char(l, ' ');
    0 < s && s + 1 < l.len() && l[s + 1] == '#' && is_plain_token(l.subrange(0, s))
}

/// `l` is a footer line.
pub open spec fn is_trailer_line(l: Seq<char>) -> bool {
    colon_trailer(l) || hash_trailer(l)
}

/// The token/value pair of a footer line (the colon form wins when
/// both forms match).
pub open spec fn trailer_pair(l: Seq<char>) -> (Seq<char>, Seq<char>) {
    if colon_trailer(l) {
        let c = find_char(l, ':');
        (l.subrange(0, c), l.subrange(c + 2, l.len() as int))
    } else {
        let s = find_char(l, ' ');
        (l.subrange(0, s), l.subrange(s + 2, l.len() as int))
    }
}

/// The token/value pairs of a block of footer lines, in order.
pub open spec fn trailer_pairs(ls: Seq<Seq<char>>) -> Seq<(Seq<char>, Seq<char>)>
    decreases ls.len(),
{
    if ls.len() == 0 {
        Seq::empty()
    } else {
        seq![trailer_pair(ls[0])] + trailer_pairs(ls.drop_first())
    }
}

/// A block of footer lines yields exactly one pair per line.
pub proof fn lemma_trailer_pairs_len(ls: Seq<Seq<char>>)
    ensures
        trailer_pairs(ls).len() == ls.len(),
    decreases ls.len(),
{
    if ls.len() > 0 {
        lemma_trailer_pairs_len(ls.drop_first());
    }
}

/// Extending a block by one line appends its pair.
pub proof fn lemma_trailer_pairs_push(ls: Seq<Seq<char>>, x: Seq<char>)
    ensures
        trailer_pairs(ls.push(x)) == trailer_pairs(ls).push(trailer_pair(x)),
    decreases ls.len(),
{
    if ls.len() == 0 {
        assert(ls.push(x)[0] == x);
        assert(ls.push(x).drop_first() =~= Seq::<Seq<char>>::empty());
        assert(trailer_pairs(ls.push(x).drop_first()) == Seq::<(Seq<char>, Seq<char>)>::empty());
        assert(trailer_pairs(ls.push(x)) == seq![trailer_pair(x)] + Seq::<(
            Seq<char>,
            Seq<char>,
        )>::empty());
        assert(trailer_pairs(ls.push(x)) =~= trailer_pairs(ls).push(trailer_pair(x)));
    } else {
        assert(ls.push(x).drop_first() =~= ls.drop_first().push(x));
        lemma_trailer_pairs_push(ls.drop_first(), x);
        assert(ls.push(x)[0] == ls[0]);
        assert(trailer_pairs(ls.push(x)) == seq![trailer_pair(ls[0])] + trailer_pairs(
            ls.drop_first(),
        ).push(trailer_pair(x)));
        assert(trailer_pairs(ls.push(x)) =~= trailer_pairs(ls).push(trailer_pair(x)));
    }
}

/// Index where the maximal trailing block of footer lines begins, or
/// `ls.len()` when the last line is no footer.
pub open spec fn footer_start(ls: Seq<Seq<char>>) -> int
    decreases ls.len(),
{
    if ls.len() == 0 {
        0
    } else if is_trailer_line(ls[ls.len() - 1]) {
        footer_start(ls.drop_last())
    } else {
        ls.len() as int
    }
}

/// [`footer_start`] is in bounds.
pub proof fn lemma_footer_start_bounds(ls: Seq<Seq<char>>)
    ensures
        0 <= footer_start(ls) <= ls.len(),
    decreases ls.len(),
{
    if ls.len() > 0 && is_trailer_line(ls[ls.len() - 1]) {
        lemma_footer_start_bounds(ls.drop_last());
    }
}

/// An index from which everything on is a footer line, and which is
/// the start or is preceded by a non-footer line, is exactly
/// [`footer_start`].
pub proof fn lemma_footer_start_at(ls: Seq<Seq<char>>, b: int)
    requires
        0 <= b <= ls.len(),
        forall|k: int| b <= k < ls.len() ==> is_trailer_line(ls[k]),
        b > 0 ==> !is_trailer_line(ls[b - 1]),
    ensures
        footer_start(ls) == b,
    decreases ls.len(),
{
    if b == ls.len() {
        if ls.len() > 0 && is_trailer_line(ls[ls.len() - 1]) {
            assert(!is_trailer_line(ls[b - 1]));
        }
    } else {
        assert(is_trailer_line(ls[ls.len() - 1]));
        assert forall|k: int| b <= k < ls.drop_last().len() implies is_trailer_line(
            ls.drop_last()[k],
        ) by {
            assert(ls.drop_last()[k] == ls[k]);
        }
        assert(b > 0 ==> ls.drop_last()[b - 1] == ls[b - 1]);
        lemma_footer_start_at(ls.drop_last(), b);
    }
}

/// Whether `l[from..to]` is a plain token, checked character by
/// character.
fn check_plain_token(l: &str, from: usize, to: usize) -> (b: bool)
    requires
        from <= to,
        to <= l@.len(),
    ensures
        b == is_plain_token(l@.subrange(from as int, to as int)),
{
    let ghost t = l@.subrange(from as int, to as int);
    if from == to {
        return false;
    }
    let mut i: usize = from;
    while i < to
        invariant
            from <= i <= to,
            to <= l@.len(),
            forall|k: int| from <= k < i ==> !is_space(l@[k]) && l@[k] != ':',
        decreases to - i,
    {
        let c = l.get_char(i);
        if is_space_char(c) || c == ':' {
            proof {
                assert(l@.subrange(from as int, to as int)[i - from] == l@[i as int]);
            }
            return false;
        }
        i = i + 1;
    }
    proof {
        assert forall|k: int| 0 <= k < t.len() implies !is_space(t[k]) && t[k] != ':' by {
            assert(t[k] == l@[k + from]);
        }
    }
    true
}

/// Whether `l[from..to]` equals the breaking-change token.
fn check_breaking_token(l: &str, from: usize, to: usize) -> (b: bool)
    requires
        from <= to,
        to <= l@.len(),
    ensures
        b == (l@.subrange(from as int, to as int) == breaking_token()),
{
    let lit = "BREAKING CHANGE";
    let lit_len = lit.unicode_len();
    let ghost t = l@.subrange(from as int, to as int);
    if to - from != lit_len {
        proof {
            assert(t.len() != breaking_token().len());
        }
        return false;
    }
    let mut i: usize = 0;
    while i < lit_len
        invariant
            i <= lit_len,
            from + lit_len <= to <= l@.len(),
            to - from == lit_len,
            lit@ == breaking_token(),
            lit_len == lit@.len(),
            forall|k: int| 0 <= k < i ==> l@[from + k] == lit@[k],
        decreases lit_len - i,
    {
        if l.get_char(from + i) != lit.get_char(i) {
            proof {
                assert(l@.subrange(from as int, to as int)[i as int] == l@[from + i]);
            }
            return false;
        }
        i = i + 1;
    }
    proof {
        assert(t =~= lit@);
    }
    true
}

/// Parses one line as a footer: `Some((token, value))` exactly when
/// the line matches the trailer grammar, and `None` otherwise.
pub fn parse_trailer(l: &str) -> (r: Option<(String, String)>)
    ensures
        r is Some <==> is_trailer_line(l@),
        r matches Some(p) ==> (p.0@, p.1@) == trailer_pair(l@),
{
    let len = l.unicode_len();
    let c = find_char_range(l, 0, len, ':');
    proof {
        lemma_find_char_at(l@, ':', c as int);
    }
    if 0 < c && c < len && c + 1 < len && l.get_char(c + 1) == ' ' {
        if check_plain_token(l, 0, c) || check_breaking_token(l, 0, c) {
            proof {
                assert(colon_trailer(l@));
            }
            let token = String::from_str(l.substring_char(0, c));
            let value = String::from_str(l.substring_char(c + 2, len));
            return Some((token, value));
        }
    }
    proof {
        assert(!colon_trailer(l@));
    }
    let s = find_char_range(l, 0, len, ' ');
    proof {
        lemma_find_char_at(l@, ' ', s as int);
    }
    if 0 < s && s < len && s + 1 < len && l.get_char(s + 1) == '#' {
        if check_plain_token(l, 0, s) {
            proof {
                assert(hash_trailer(l@));
            }
            let token = String::from_str(l.substring_char(0, s));
            let value = String::from_str(l.substring_char(s + 2, len));
            return Some((token, value));
        }
    }
    proof {
        assert(!hash_trailer(l@));
    }
    None
}

} // verus!
