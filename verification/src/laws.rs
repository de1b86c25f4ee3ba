//! General properties of the engine, stated and proved against the same
//! spec functions that the public contracts use.

use vstd::prelude::*;

use crate::parser::Bounds;
use crate::parser::NodeType;
use crate::parser::SpecNode;
use crate::parser::at_least;
use crate::parser::cull;
use crate::parser::empty_node;
use crate::parser::spec_atom;
use crate::parser::spec_expr;
use crate::parser::spec_make_group;
use crate::parser::spec_parse;
use crate::parser::spec_seq;
use crate::parser::spec_star;
use crate::parser::spec_union;
use crate::parser::word_node;
use crate::regex::EvalRes;
use crate::regex::SpecMatch;
use crate::regex::SpecMatchRec;
use crate::regex::lcp;
use crate::regex::recs_to_matches;
use crate::regex::rem1;
use crate::regex::spec_eval;
use crate::regex::spec_eval_group;
use crate::regex::spec_eval_star;
use crate::regex::spec_eval_word;
use crate::regex::spec_matches_from;
use crate::scanner::CharRange;
use crate::scanner::spec_includes;

verus! {

// ---------------------------------------------------------------------------
// Character ranges.
// ---------------------------------------------------------------------------

/// A non-negated range accepts exactly the codepoints between its bounds,
/// and negation strictly inverts that acceptance, for every codepoint.
pub proof fn charrange_membership(min: u32, max: u32, c: char)
    ensures
        spec_includes(CharRange { min, max, negate: false }, c) <==> (min <= c as u32 && c as u32
            <= max),
        spec_includes(CharRange { min, max, negate: true }, c) <==> !spec_includes(
            CharRange { min, max, negate: false },
            c,
        ),
{
}

// ---------------------------------------------------------------------------
// Quantifier bounds.
// ---------------------------------------------------------------------------

/// A repetition with minimum 0 whose body fails where it stands still
/// succeeds, consuming nothing.
pub proof fn star_min_zero_is_no_op(child: SpecNode, reps: Bounds, text: Seq<char>, pos: int)
    requires
        reps.min == 0,
        !spec_eval(child, text, pos).ok,
    ensures
        spec_eval_star(child, reps, text, pos, 0).ok,
        spec_eval_star(child, reps, text, pos, 0).end == pos,
{
}

/// A repetition with minimum 1 (`+`) fails where its body fails at once.
pub proof fn plus_needs_one(child: SpecNode, reps: Bounds, text: Seq<char>, pos: int)
    requires
        reps.min >= 1,
        !spec_eval(child, text, pos).ok,
    ensures
        !spec_eval_star(child, reps, text, pos, 0).ok,
{
}

/// A `{0, 1}` repetition (`?`) always succeeds: it consumes its body once
/// where the body matches, and nothing otherwise.
pub proof fn question_zero_or_one(child: SpecNode, text: Seq<char>, pos: int)
    ensures
        ({
            let r = spec_eval(child, text, pos);
            let q = spec_eval_star(child, Bounds { min: 0, max: 1 }, text, pos, 0);
            q.ok && q.end == (if r.ok {
                r.end
            } else {
                pos
            })
        }),
{
}

// ---------------------------------------------------------------------------
// Idempotence.
// ---------------------------------------------------------------------------

/// Matching is a pure function of the pattern and the text: two runs of
/// `match_all` over the same pattern and string yield equal results.
pub proof fn match_all_idempotent(
    p: Seq<char>,
    s: Seq<char>,
    r1: Seq<SpecMatch>,
    r2: Seq<SpecMatch>,
)
    requires
        r1 == recs_to_matches(s, spec_matches_from(spec_parse(p), s, 0)),
        r2 == recs_to_matches(s, spec_matches_from(spec_parse(p), s, 0)),
    ensures
        r1 == r2,
{
}

// ---------------------------------------------------------------------------
// Literal patterns.
// ---------------------------------------------------------------------------

/// A codepoint with no role in the pattern syntax: it scans to an
/// ordinary `Character` token.
pub open spec fn is_plain_char(c: char) -> bool {
    c != '|' && c != '*' && c != '(' && c != ')' && c != '[' && c != ']' && c != '^' && c != '?'
        && c != '+' && c != '.' && c != '\\'
}

/// A pattern made of plain literal codepoints only.
pub open spec fn all_plain(p: Seq<char>) -> bool {
    forall|i: int| 0 <= i < p.len() ==> is_plain_char(p[i])
}

/// The left-to-right, non-overlapping occurrences of `p` in `text` from
/// `start` on, each as a match record spanning exactly `p` and carrying
/// no captures.
pub open spec fn occurrences_from(p: Seq<char>, text: Seq<char>, start: int) -> Seq<SpecMatchRec>
    decreases rem1(text, start),
{
    if 0 <= start <= text.len() {
        if start + p.len() <= text.len() && text.subrange(start, start + p.len()) == p {
            seq![SpecMatchRec { start, end: start + p.len(), caps: seq![] }] + occurrences_from(
                p,
                text,
                at_least(start + p.len(), start + 1),
            )
        } else {
            occurrences_from(p, text, start + 1)
        }
    } else {
        seq![]
    }
}

/// The common prefix never outruns the pattern.
proof fn lemma_lcp_le(p: Seq<char>, text: Seq<char>, pos: int)
    ensures
        lcp(p, text, pos) <= p.len(),
    decreases p.len(),
{
    if p.len() > 0 && 0 <= pos < text.len() && text[pos] == p[0] {
        lemma_lcp_le(p.drop_first(), text, pos + 1);
    }
}

/// The whole pattern is a common prefix exactly where it occurs at `pos`.
proof fn lemma_lcp_full(p: Seq<char>, text: Seq<char>, pos: int)
    requires
        0 <= pos <= text.len(),
    ensures
        lcp(p, text, pos) == p.len() <==> (pos + p.len() <= text.len() && text.subrange(
            pos,
            pos + p.len(),
        ) =~= p),
    decreases p.len(),
{
    lemma_lcp_le(p, text, pos);
    if p.len() == 0 {
        assert(text.subrange(pos, pos) =~= p);
    } else if 0 <= pos < text.len() && text[pos] == p[0] {
        lemma_lcp_full(p.drop_first(), text, pos + 1);
        if lcp(p, text, pos) == p.len() {
            assert(lcp(p.drop_first(), text, pos + 1) == p.drop_first().len());
            assert(pos + p.len() <= text.len());
            assert(text.subrange(pos + 1, pos + p.len()) =~= p.drop_first());
            assert forall|j: int| 0 <= j < p.len() implies text.subrange(pos, pos + p.len())[j]
                == p[j] by {
                if j > 0 {
                    assert(text.subrange(pos + 1, pos + p.len())[j - 1] == p.drop_first()[j - 1]);
                }
            }
            assert(text.subrange(pos, pos + p.len()) =~= p);
        }
        if pos + p.len() <= text.len() && text.subrange(pos, pos + p.len()) =~= p {
            assert(text.subrange(pos + 1, pos + p.len()) =~= p.drop_first());
            assert(lcp(p.drop_first(), text, pos + 1) == p.drop_first().len());
        }
    } else {
        // a mismatch (or the end of the text) at the very first codepoint
        assert(lcp(p, text, pos) == 0);
        if pos + p.len() <= text.len() && text.subrange(pos, pos + p.len()) =~= p {
            assert(text[pos] == text.subrange(pos, pos + p.len())[0]);
            assert(false);
        }
    }
}

/// Parsing a run of plain codepoints extends the pending word with all of
/// them and stops at the end of the pattern.
proof fn lemma_seq_literal(cs: Seq<char>, i: int, w: Seq<char>)
    requires
        all_plain(cs),
        0 <= i <= cs.len(),
    ensures
        spec_seq(cs, i, word_node(w)).0 =~= seq![word_node(w + cs.skip(i))],
        spec_seq(cs, i, word_node(w)).1 == cs.len(),
    decreases cs.len() - i,
{
    if i == cs.len() {
        assert(w + cs.skip(i) =~= w);
        assert(spec_seq(cs, i, word_node(w)).0 =~= seq![word_node(w + cs.skip(i))]);
    } else {
        assert(is_plain_char(cs[i]));
        let (atom_n, p1) = spec_atom(cs, i);
        assert(atom_n == word_node(seq![cs[i]]) && p1 == i + 1);
        let (star_n, p2) = spec_star(cs, at_least(p1, i + 1), atom_n);
        assert(star_n == atom_n && p2 == i + 1) by {
            if i + 1 < cs.len() {
                assert(is_plain_char(cs[i + 1]));
            }
        }
        let merged = SpecNode { image: word_node(w).image.push(star_n.image[0]), ..word_node(w) };
        assert(merged == word_node(w.push(cs[i])));
        lemma_seq_literal(cs, i + 1, w.push(cs[i]));
        assert(w.push(cs[i]) + cs.skip(i + 1) =~= w + cs.skip(i));
        assert(word_node(w.push(cs[i]) + cs.skip(i + 1)) == word_node(w + cs.skip(i)));
        assert(spec_seq(cs, i, word_node(w)).0 =~= seq![word_node(w + cs.skip(i))]);
    }
}

/// The parse of a non-empty plain pattern: one `Word` holding the whole
/// pattern, inside the root group.
proof fn lemma_parse_literal(p: Seq<char>)
    requires
        all_plain(p),
        p.len() > 0,
    ensures
        spec_parse(p) == spec_make_group(seq![word_node(p)], NodeType::Group),
{
    assert(is_plain_char(p[0]));
    let (atom_n, p1) = spec_atom(p, 0);
    assert(atom_n == word_node(seq![p[0]]));
    let (star_n, p2) = spec_star(p, at_least(p1, 1), atom_n);
    assert(star_n == atom_n && p2 == 1) by {
        if 1 < p.len() {
            assert(is_plain_char(p[1]));
        }
    }
    lemma_seq_literal(p, 1, seq![p[0]]);
    assert(seq![p[0]] + p.skip(1) =~= p);
    let (sq, q1) = spec_seq(p, 0, empty_node());
    assert(cull(seq![word_node(p)]) =~= seq![word_node(p)]) by {
        assert(seq![word_node(p)].drop_first() =~= Seq::<SpecNode>::empty());
        assert(cull(Seq::<SpecNode>::empty()) =~= Seq::<SpecNode>::empty());
    }
    assert(sq =~= seq![word_node(p)] && q1 == p.len());
    let (un, q2) = spec_union(p, at_least(q1, 0), sq[0]);
    assert(un == word_node(p) && q2 == p.len());
    let (rest, q3) = spec_expr(p, at_least(q2, 1));
    assert(rest =~= Seq::<SpecNode>::empty());
    assert(spec_expr(p, 0).0 =~= seq![word_node(p)]);
}

/// Evaluating the parsed literal pattern: success exactly where the
/// pattern occurs at `pos`, spanning it, with no captures.
proof fn lemma_literal_eval(p: Seq<char>, text: Seq<char>, pos: int)
    requires
        all_plain(p),
        0 <= pos <= text.len(),
    ensures
        ({
            let r = spec_eval(spec_parse(p), text, pos);
            &&& r.ok <==> (pos + p.len() <= text.len() && text.subrange(pos, pos + p.len()) == p)
            &&& r.ok ==> r.end == pos + p.len()
            &&& r.caps =~= Seq::<(int, int)>::empty()
        }),
{
    lemma_lcp_full(p, text, pos);
    if p.len() == 0 {
        let t = spec_parse(p);
        assert(spec_expr(p, 0).0 =~= Seq::<SpecNode>::empty());
        assert(cull(Seq::<SpecNode>::empty()) =~= Seq::<SpecNode>::empty());
        assert(t.children =~= Seq::<SpecNode>::empty());
        let r = spec_eval(t, text, pos);
        assert(r.ok && r.end == pos && r.caps =~= Seq::<(int, int)>::empty());
        assert(text.subrange(pos, pos) =~= p);
    } else {
        lemma_parse_literal(p);
        let t = spec_parse(p);
        assert(cull(seq![word_node(p)]) =~= seq![word_node(p)]) by {
            assert(seq![word_node(p)].drop_first() =~= Seq::<SpecNode>::empty());
            assert(cull(Seq::<SpecNode>::empty()) =~= Seq::<SpecNode>::empty());
        }
        assert(t.children == seq![word_node(p)]);
        let r0 = spec_eval(word_node(p), text, pos);
        assert(r0 == spec_eval_word(p, text, pos));
        let g = spec_eval_group(t.children, text, pos, 0);
        if r0.ok {
            assert(spec_eval_group(t.children, text, r0.end, 1) == (EvalRes {
                ok: true,
                end: r0.end,
                caps: Seq::<(int, int)>::empty(),
            }));
            assert(g.caps =~= Seq::<(int, int)>::empty());
        } else {
            assert(g.caps =~= Seq::<(int, int)>::empty());
        }
        let r = spec_eval(t, text, pos);
        assert(r == g);
        assert(r.caps =~= Seq::<(int, int)>::empty());
    }
}

/// The scan over a plain pattern finds exactly its occurrences.
proof fn lemma_literal_matches_from(p: Seq<char>, text: Seq<char>, start: int)
    requires
        all_plain(p),
        0 <= start,
    ensures
        spec_matches_from(spec_parse(p), text, start) == occurrences_from(p, text, start),
    decreases rem1(text, start),
{
    if 0 <= start <= text.len() {
        lemma_literal_eval(p, text, start);
        let r = spec_eval(spec_parse(p), text, start);
        if r.ok {
            let next = if start < r.end {
                r.end
            } else {
                r.end + 1
            };
            lemma_literal_matches_from(p, text, at_least(next, start + 1));
            assert(SpecMatchRec { start, end: r.end, caps: r.caps } == SpecMatchRec {
                start,
                end: start + p.len(),
                caps: seq![],
            });
            assert(at_least(next, start + 1) == at_least(start + p.len(), start + 1));
        } else {
            lemma_literal_matches_from(p, text, start + 1);
        }
    }
}

/// Each occurrence spans exactly the pattern and carries no captures.
proof fn lemma_occurrence_spans(p: Seq<char>, text: Seq<char>, start: int)
    ensures
        forall|j: int|
            0 <= j < occurrences_from(p, text, start).len() ==> {
                let rec = #[trigger] occurrences_from(p, text, start)[j];
                rec.end - rec.start == p.len() && rec.caps.len() == 0
            },
    decreases rem1(text, start),
{
    let full = occurrences_from(p, text, start);
    if 0 <= start <= text.len() {
        if start + p.len() <= text.len() && text.subrange(start, start + p.len()) == p {
            let tail = occurrences_from(p, text, at_least(start + p.len(), start + 1));
            lemma_occurrence_spans(p, text, at_least(start + p.len(), start + 1));
            assert forall|j: int| 0 <= j < full.len() implies {
                let rec = #[trigger] full[j];
                rec.end - rec.start == p.len() && rec.caps.len() == 0
            } by {
                if j > 0 {
                    assert(full[j] == tail[j - 1]);
                }
            }
        } else {
            let tail = occurrences_from(p, text, start + 1);
            lemma_occurrence_spans(p, text, start + 1);
            assert forall|j: int| 0 <= j < full.len() implies {
                let rec = #[trigger] full[j];
                rec.end - rec.start == p.len() && rec.caps.len() == 0
            } by {
                assert(full[j] == tail[j]);
            }
        }
    }
}

/// A pattern of plain literal codepoints, matched with `match_all`
/// against any string, yields exactly the left-to-right non-overlapping
/// occurrences of the pattern, each spanning exactly the pattern's length
/// and carrying no capture groups.
pub proof fn literal_pattern_matches(p: Seq<char>, text: Seq<char>)
    requires
        all_plain(p),
    ensures
        spec_matches_from(spec_parse(p), text, 0) == occurrences_from(p, text, 0),
        forall|j: int|
            0 <= j < occurrences_from(p, text, 0).len() ==> {
                let rec = #[trigger] occurrences_from(p, text, 0)[j];
                rec.end - rec.start == p.len() && rec.caps.len() == 0
            },
{
    lemma_literal_matches_from(p, text, 0);
    lemma_occurrence_spans(p, text, 0);
}

} // verus!
