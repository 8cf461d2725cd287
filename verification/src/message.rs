//! The parsed commit message: splitting raw text into subject, body
//! and footers, composing the subject grammar on top, and the
//! [`Message`] type.

use vstd::prelude::*;
use crate::lines::find_blank_line;
use crate::lines::is_blank;
use crate::lines::is_blank_str;
use crate::lines::join_lines;
use crate::lines::join_range;
use crate::lines::lemma_drop_leading_blank_at;
use crate::lines::lemma_drop_trailing_blank_at;
use crate::lines::lemma_find_blank_line_at;
use crate::lines::split_lines;
use crate::lines::split_lines_vec;
use crate::lines::trim_blank_lines;
use crate::subject::parse_subject;
use crate::subject::subject_parts;
use crate::text::trim;
use crate::text::trim_range;
use crate::trailer::footer_start;
use crate::trailer::is_trailer_line;
use crate::trailer::lemma_footer_start_at;
use crate::trailer::lemma_trailer_pairs_push;
use crate::trailer::parse_trailer;
use crate::trailer::trailer_pairs;

verus! {

/// Abstract value of a raw message split into its three sections.
#[verifier::ext_equal]
pub ghost struct SplitModel {
    /// The trimmed first paragraph.
    pub subject: Seq<char>,
    /// The paragraphs between subject and footers, or `None` when
    /// nothing is left after trimming blank lines.
    pub body: Option<Seq<char>>,
    /// The token/value pairs of the trailing footer block, in order,
    /// or `None` when the block is empty.
    pub footers: Option<Seq<(Seq<char>, Seq<char>)>>,
}

/// How a raw message splits into subject, body and footers.
///
/// The subject is the text up to the first blank line, trimmed. The
/// rest is searched backwards for the maximal block of footer lines;
/// what stands between subject and footers, stripped of leading and
/// trailing blank lines, is the body. Without a blank line after the
/// subject there is neither body nor footers.
pub open spec fn split_message(raw: Seq<char>) -> SplitModel {
    let ls = split_lines(raw);
    let fb = find_blank_line(ls);
    let subject = trim(join_lines(ls.subrange(0, fb)));
    if fb == ls.len() {
        SplitModel { subject, body: None, footers: None }
    } else {
        let rem = ls.subrange(fb + 1, ls.len() as int);
        let fs = footer_start(rem);
        let bl = trim_blank_lines(rem.subrange(0, fs));
        SplitModel {
            subject,
            body: if bl.len() == 0 {
                None
            } else {
                Some(join_lines(bl))
            },
            footers: if fs == rem.len() {
                None
            } else {
                Some(trailer_pairs(rem.subrange(fs, rem.len() as int)))
            },
        }
    }
}

/// Splits raw text into `(subject, body, footers)` as
/// [`split_message`] describes. Never fails: every input, the empty
/// text included, has a subject (possibly empty) and optional body
/// and footers.
pub fn parse_commit_message(raw: &str) -> (r: (String, Option<String>, Option<
    Vec<(String, String)>,
>))
    ensures
        r.0@ == split_message(raw@).subject,
        r.1.deep_view() == split_message(raw@).body,
        r.2.deep_view() == split_message(raw@).footers,
{
    let lines = split_lines_vec(raw);
    let n = lines.len();
    let mut fb: usize = 0;
    while fb < n && !is_blank_str(lines[fb].as_str())
        invariant
            fb <= n,
            n == lines.len(),
            forall|k: int| 0 <= k < fb ==> !is_blank(lines.deep_view()[k]),
        decreases n - fb,
    {
        proof {
            assert(lines.deep_view()[fb as int] == lines[fb as int]@);
        }
        fb = fb + 1;
    }
    proof {
        assert(fb < n ==> lines.deep_view()[fb as int] == lines[fb as int]@);
        lemma_find_blank_line_at(lines.deep_view(), fb as int);
    }
    let joined = join_range(&lines, 0, fb);
    let subject = trim_range(joined.as_str(), 0, joined.unicode_len());
    proof {
        assert(joined@.subrange(0, joined@.len() as int) =~= joined@);
    }
    if fb == n {
        return (subject, None, None);
    }
    let mut rem: Vec<String> = Vec::new();
    let mut i: usize = fb + 1;
    proof {
        assert(rem.deep_view() =~= lines.deep_view().subrange(fb + 1, fb + 1));
    }
    while i < n
        invariant
            fb + 1 <= i <= n,
            n == lines.len(),
            rem.deep_view() == lines.deep_view().subrange(fb + 1, i as int),
        decreases n - i,
    {
        let ghost pre = rem.deep_view();
        rem.push(lines[i].clone());
        proof {
            assert(lines.deep_view()[i as int] == lines[i as int]@);
            assert(rem.deep_view() =~= pre.push(lines[i as int]@));
            assert(pre.push(lines[i as int]@) =~= lines.deep_view().subrange(fb + 1, i + 1));
        }
        i = i + 1;
    }
    proof {
        assert(rem.deep_view() == lines.deep_view().subrange(fb + 1, n as int));
    }
    let rn = rem.len();
    let mut b: usize = rn;
    while b > 0 && parse_trailer(rem[b - 1].as_str()).is_some()
        invariant
            b <= rn,
            rn == rem.len(),
            forall|k: int| b <= k < rn ==> is_trailer_line(rem.deep_view()[k]),
        decreases b,
    {
        proof {
            assert(rem.deep_view()[b - 1] == rem[b - 1]@);
        }
        b = b - 1;
    }
    proof {
        assert(b > 0 ==> rem.deep_view()[b - 1] == rem[b - 1]@);
        lemma_footer_start_at(rem.deep_view(), b as int);
    }
    let mut lo: usize = 0;
    while lo < b && is_blank_str(rem[lo].as_str())
        invariant
            lo <= b,
            b <= rem.len(),
            forall|k: int| 0 <= k < lo ==> is_blank(rem.deep_view()[k]),
        decreases b - lo,
    {
        proof {
            assert(rem.deep_view()[lo as int] == rem[lo as int]@);
        }
        lo = lo + 1;
    }
    let mut hi: usize = b;
    while hi > lo && is_blank_str(rem[hi - 1].as_str())
        invariant
            lo <= hi <= b,
            b <= rem.len(),
            forall|k: int| hi <= k < b ==> is_blank(rem.deep_view()[k]),
        decreases hi,
    {
        proof {
            assert(rem.deep_view()[hi - 1] == rem[hi - 1]@);
        }
        hi = hi - 1;
    }
    proof {
        assert(lo < b ==> rem.deep_view()[lo as int] == rem[lo as int]@);
        assert(hi > lo ==> rem.deep_view()[hi - 1] == rem[hi - 1]@);
        let t = rem.deep_view().subrange(0, b as int);
        assert forall|k: int| 0 <= k < lo implies is_blank(t[k]) by {
            assert(t[k] == rem.deep_view()[k]);
        }
        assert(lo < b ==> t[lo as int] == rem.deep_view()[lo as int]);
        lemma_drop_leading_blank_at(t, lo as int);
        let u = t.subrange(lo as int, b as int);
        assert forall|k: int| hi - lo <= k < u.len() implies is_blank(u[k]) by {
            assert(u[k] == rem.deep_view()[k + lo]);
        }
        assert(hi - lo > 0 ==> u[hi - lo - 1] == rem.deep_view()[hi - 1]);
        lemma_drop_trailing_blank_at(u, hi - lo);
        assert(u.subrange(0, hi - lo) =~= rem.deep_view().subrange(lo as int, hi as int));
        assert(trim_blank_lines(t) == rem.deep_view().subrange(lo as int, hi as int));
    }
    let body = if lo == hi {
        None
    } else {
        Some(join_range(&rem, lo, hi))
    };
    let footers = if b == rn {
        None
    } else {
        let mut f: Vec<(String, String)> = Vec::new();
        let mut j: usize = b;
        proof {
            assert(f.deep_view() =~= trailer_pairs(rem.deep_view().subrange(b as int, b as int)));
        }
        while j < rn
            invariant
                b <= j <= rn,
                rn == rem.len(),
                forall|k: int| b <= k < rn ==> is_trailer_line(rem.deep_view()[k]),
                f.deep_view() == trailer_pairs(rem.deep_view().subrange(b as int, j as int)),
            decreases rn - j,
        {
            proof {
                assert(rem.deep_view()[j as int] == rem[j as int]@);
            }
            let p = parse_trailer(rem[j].as_str()).unwrap();
            f.push(p);
            proof {
                let block = rem.deep_view().subrange(b as int, j as int);
                assert(rem.deep_view().subrange(b as int, j + 1) =~= block.push(
                    rem.deep_view()[j as int],
                ));
                lemma_trailer_pairs_push(block, rem.deep_view()[j as int]);
                assert(f.deep_view() =~= trailer_pairs(rem.deep_view().subrange(b as int, j + 1)));
            }
            j = j + 1;
        }
        Some(f)
    };
    (subject, body, footers)
}

/// Abstract value of a parsed commit message.
#[verifier::ext_equal]
pub ghost struct MessageModel {
    /// The raw input, unchanged.
    pub raw: Seq<char>,
    /// The trimmed first paragraph; present for every input.
    pub subject: Option<Seq<char>>,
    /// The commit type, when the subject matches the grammar.
    pub type_: Option<Seq<char>>,
    /// The scope, when the subject matches the grammar with a scope.
    pub scope: Option<Seq<char>>,
    /// The description, when the subject matches the grammar.
    pub description: Option<Seq<char>>,
    /// The body section, when present.
    pub body: Option<Seq<char>>,
    /// The footer pairs, when present.
    pub footers: Option<Seq<(Seq<char>, Seq<char>)>>,
}

/// The message every raw text parses to: [`split_message`] for the
/// three sections, [`subject_parts`] for the structured subject.
/// Subjects that do not match the grammar leave type, scope and
/// description absent; the subject itself is always present.
pub open spec fn message_model(raw: Seq<char>) -> MessageModel {
    let sp = split_message(raw);
    let parts = subject_parts(sp.subject);
    MessageModel {
        raw: raw,
        subject: Some(sp.subject),
        type_: match parts {
            Some(p) => Some(p.0),
            None => None,
        },
        scope: match parts {
            Some(p) => p.1,
            None => None,
        },
        description: match parts {
            Some(p) => Some(p.2),
            None => None,
        },
        body: sp.body,
        footers: sp.footers,
    }
}

/// A parsed commit message.
///
/// ```text
/// <type>[(<scope>)][!]: <description>
///
/// [body]
///
/// [footer(s)]
/// ```
///
/// A breaking-change marker `!` before the colon is accepted by the
/// grammar but not stored as a field of its own; rules that care can
/// find it in `raw`.
#[derive(Clone, Debug, PartialEq, Eq)]
pub struct Message {
    /// Body part of the commit message.
    pub body: Option<String>,
    /// Description part of the commit message.
    pub description: Option<String>,
    /// Footer token/value pairs, in order of appearance; a token that
    /// appears more than once keeps each of its lines as its own
    /// entry, so no footer is lost.
    pub footers: Option<Vec<(String, String)>>,
    /// Raw commit message, including the body and footers.
    pub raw: String,
    /// Type part of the commit message.
    pub type_: Option<String>,
    /// Scope part of the commit message.
    pub scope: Option<String>,
    /// Subject part of the commit message.
    pub subject: Option<String>,
}

impl View for Message {
    type V = MessageModel;

    open spec fn view(&self) -> MessageModel {
        MessageModel {
            raw: self.raw@,
            subject: self.subject.deep_view(),
            type_: self.type_.deep_view(),
            scope: self.scope.deep_view(),
            description: self.description.deep_view(),
            body: self.body.deep_view(),
            footers: self.footers.deep_view(),
        }
    }
}

impl Message {
    /// Parses `raw` into a new `Message`. Never fails: every raw
    /// text, the empty text included, produces the message
    /// [`message_model`] describes, with absence encoded by `None`
    /// rather than by errors.
    pub fn new(raw: String) -> (m: Message)
        ensures
            m@ == message_model(raw@),
    {
        let (subject, body, footers) = parse_commit_message(raw.as_str());
        let m = match parse_subject(subject.as_str()) {
            Some((type_, scope, description)) => Message {
                body,
                description: Some(description),
                footers,
                raw,
                type_: Some(type_),
                scope,
                subject: Some(subject),
            },
            None => Message {
                raw,
                description: None,
                type_: None,
                scope: None,
                body,
                footers,
                subject: Some(subject),
            },
        };
        proof {
            assert(m@ =~~= message_model(m.raw@));
        }
        m
    }
}

/// Re-parsing the `raw` field of any produced message yields an
/// identical message: parsing is a pure function of the raw text
/// alone and carries it through unchanged.
pub proof fn lemma_reparse_identical(t: Seq<char>)
    ensures
        message_model(message_model(t).raw) == message_model(t),
{
}

/// The subject is always present, and it is exactly the trimmed
/// first paragraph of the raw text: the lines before the first blank
/// line, joined back with newlines and trimmed. When no line is
/// blank — in particular whenever the subject is left unstructured
/// because the whole message is one paragraph — it is the whole raw
/// text, trimmed.
pub proof fn lemma_subject_round_trip(t: Seq<char>)
    ensures
        message_model(t).subject == Some(
            trim(
                join_lines(
                    split_lines(t).subrange(0, crate::lines::find_blank_line(split_lines(t))),
                ),
            ),
        ),
        find_blank_line(split_lines(t)) == split_lines(t).len() ==> message_model(t).subject
            == Some(trim(t)),
{
    let ls = split_lines(t);
    let fb = find_blank_line(ls);
    if fb == ls.len() {
        assert(ls.subrange(0, fb) =~= ls);
        crate::lines::lemma_join_split_lines(t);
        if join_lines(ls) == t {
        } else {
            crate::text::lemma_trim_drop_last_space(t);
            assert(t.subrange(0, t.len() - 1) =~= t.drop_last());
        }
    }
}

/// Without a blank line after the subject there is neither body nor
/// footers.
pub proof fn lemma_single_paragraph(t: Seq<char>)
    requires
        find_blank_line(split_lines(t)) == split_lines(t).len(),
    ensures
        message_model(t).body is None,
        message_model(t).footers is None,
{
}

/// Absence is encoded by `None`, never by an empty value: a present
/// body is non-empty text, and present footers hold at least one
/// pair.
pub proof fn lemma_present_means_nonempty(t: Seq<char>)
    ensures
        message_model(t).body matches Some(b) ==> b.len() > 0,
        message_model(t).footers matches Some(f) ==> f.len() > 0,
{
    let ls = split_lines(t);
    let fb = find_blank_line(ls);
    if fb != ls.len() {
        let rem = ls.subrange(fb + 1, ls.len() as int);
        let fs = footer_start(rem);
        crate::trailer::lemma_footer_start_bounds(rem);
        let before = rem.subrange(0, fs);
        let bl = trim_blank_lines(before);
        if bl.len() > 0 {
            crate::lines::lemma_drop_leading_blank_first(before);
            crate::lines::lemma_drop_trailing_blank_keeps_first(
                crate::lines::drop_leading_blank(before),
            );
            assert(!is_blank(bl[0]));
            crate::lines::lemma_join_lines_first(bl);
        }
        if fs != rem.len() {
            crate::trailer::lemma_trailer_pairs_len(rem.subrange(fs, rem.len() as int));
        }
    }
}

/// `type`, `scope` and `description` are all present together or all
/// absent together — a scope may be missing from a structured
/// subject, but never stand without a type — and the subject itself
/// is present for every input.
pub proof fn lemma_structured_all_or_nothing(t: Seq<char>)
    ensures
        message_model(t).subject is Some,
        message_model(t).type_ is Some <==> message_model(t).description is Some,
        message_model(t).scope is Some ==> message_model(t).type_ is Some,
{
}

} // verus!
