//! Tree-walking interpretation: matching a compiled expression tree
//! against input text.
//!
//! The spec function [`spec_eval`] defines what evaluating a node at an
//! offset yields: whether it matches, the offset it reaches, and the
//! capture spans it records on the way.  [`spec_matches_from`] defines the
//! scan that `match_all` performs over candidate start offsets.  The
//! executable matcher is proved equal to these definitions.

use vstd::prelude::*;

use crate::parser::Bounds;
use crate::parser::NodeType;
use crate::parser::Parser;
use crate::parser::SpecNode;
use crate::parser::TreeNode;
use crate::parser::at_least;
use crate::parser::push_char;
use crate::parser::rem;
use crate::parser::spec_parse;
use crate::parser::tree_view;
use crate::parser::trees_view;
use crate::scanner::CharRange;
use crate::scanner::collect_chars;
use crate::scanner::spec_includes;

verus! {

/// A captured span of matched text, with the text itself materialised.
pub struct MatchGroup {
    pub start: usize,
    pub end: usize,
    pub string: String,
}

/// The mathematical image of a [`MatchGroup`].
#[verifier::ext_equal]
pub ghost struct SpecCapture {
    pub start: int,
    pub end: int,
    pub chars: Seq<char>,
}

impl View for MatchGroup {
    type V = SpecCapture;

    open spec fn view(&self) -> SpecCapture {
        SpecCapture { start: self.start as int, end: self.end as int, chars: self.string@ }
    }
}

/// One whole-pattern match: its span and its capture groups — the full
/// match first, then the captures in the order their groups were entered
/// during the walk.
pub struct MatchData {
    pub start: usize,
    pub end: usize,
    pub groups: std::collections::VecDeque<MatchGroup>,
}

/// The mathematical image of a [`MatchData`].
#[verifier::ext_equal]
pub ghost struct SpecMatch {
    pub start: int,
    pub end: int,
    pub groups: Seq<SpecCapture>,
}

impl View for MatchData {
    type V = SpecMatch;

    open spec fn view(&self) -> SpecMatch {
        SpecMatch {
            start: self.start as int,
            end: self.end as int,
            groups: self.groups@.map_values(|g: MatchGroup| g@),
        }
    }
}

impl MatchData {
    fn new(start: usize, end: usize) -> (m: Self)
        ensures
            m.start == start,
            m.end == end,
            m.groups@ =~= Seq::<MatchGroup>::empty(),
    {
        MatchData { start, end, groups: std::collections::VecDeque::new() }
    }
}

// ---------------------------------------------------------------------------
// The evaluation semantics.
// ---------------------------------------------------------------------------

/// What evaluating a node yields: success, the offset reached, and the
/// capture spans recorded along the way (including inside attempts that
/// later failed, as the walk records them eagerly).  Captures stand in
/// the order their groups were entered: a capturing group's own span
/// comes before the captures of the groups nested inside it.
#[verifier::ext_equal]
pub ghost struct EvalRes {
    pub ok: bool,
    pub end: int,
    pub caps: Seq<(int, int)>,
}

/// The length of the longest common prefix of `image` and the text from
/// `pos` on.
pub open spec fn lcp(image: Seq<char>, text: Seq<char>, pos: int) -> nat
    decreases image.len(),
{
    if image.len() > 0 && 0 <= pos < text.len() && text[pos] == image[0] {
        (1 + lcp(image.drop_first(), text, pos + 1)) as nat
    } else {
        0
    }
}

/// A literal run matches iff it is a prefix of the text at `pos`; the
/// offset reached is the first mismatch, for diagnostic use.
pub open spec fn spec_eval_word(image: Seq<char>, text: Seq<char>, pos: int) -> EvalRes {
    let l = lcp(image, text, pos);
    EvalRes { ok: l == image.len(), end: pos + l, caps: seq![] }
}

/// A charset consumes one codepoint accepted by any of its ranges.
pub open spec fn spec_eval_charset(ranges: Seq<CharRange>, text: Seq<char>, pos: int) -> EvalRes {
    if 0 <= pos < text.len() && (exists|j: int|
        0 <= j < ranges.len() && spec_includes(ranges[j], text[pos])) {
        EvalRes { ok: true, end: pos + 1, caps: seq![] }
    } else {
        EvalRes { ok: false, end: pos, caps: seq![] }
    }
}

/// The evaluation of a node at `pos`.
pub open spec fn spec_eval(t: SpecNode, text: Seq<char>, pos: int) -> EvalRes
    decreases t, rem(text, pos), 0nat,
{
    match t.n_type {
        NodeType::Word => spec_eval_word(t.image, text, pos),
        NodeType::Charset => spec_eval_charset(t.ranges, text, pos),
        NodeType::Union => spec_eval_union(t.children, text, pos, 0, false, pos),
        NodeType::Star => if t.children.len() > 0 {
            spec_eval_star(t.children[0], t.repeats, text, pos, 0)
        } else {
            EvalRes { ok: false, end: pos, caps: seq![] }
        },
        NodeType::Group => spec_eval_group(t.children, text, pos, 0),
        NodeType::MatchGroup => {
            let g = spec_eval_group(t.children, text, pos, 0);
            EvalRes {
                ok: g.ok,
                end: g.end,
                caps: (if g.ok {
                    seq![(pos, g.end)]
                } else {
                    seq![]
                }) + g.caps,
            }
        },
        _ => EvalRes { ok: false, end: pos, caps: seq![] },
    }
}

/// Alternation: every child is tried from the same offset; success is
/// their disjunction and the offset reached is the largest end among the
/// succeeding children (longest-alternative-wins, no backtracking).
pub open spec fn spec_eval_union(
    children: Seq<SpecNode>,
    text: Seq<char>,
    pos: int,
    k: int,
    sofar: bool,
    best: int,
) -> EvalRes
    decreases children, (if k < children.len() { children.len() - k } else { 0 }) as nat, 1nat,
{
    if 0 <= k < children.len() {
        let r = spec_eval(children[k], text, pos);
        let rest = spec_eval_union(
            children,
            text,
            pos,
            k + 1,
            sofar || r.ok,
            if r.ok && r.end > best {
                r.end
            } else {
                best
            },
        );
        EvalRes { ok: rest.ok, end: rest.end, caps: r.caps + rest.caps }
    } else {
        EvalRes { ok: sofar, end: best, caps: seq![] }
    }
}

/// Sequencing: children are evaluated in order, each from the offset the
/// one before reached; the first failure ends the group.
pub open spec fn spec_eval_group(children: Seq<SpecNode>, text: Seq<char>, pos: int, k: int) -> EvalRes
    decreases children, (if k < children.len() { children.len() - k } else { 0 }) as nat, 1nat,
{
    if 0 <= k < children.len() {
        let r = spec_eval(children[k], text, pos);
        if !r.ok {
            EvalRes { ok: false, end: r.end, caps: r.caps }
        } else {
            let rest = spec_eval_group(children, text, r.end, k + 1);
            EvalRes { ok: rest.ok, end: rest.end, caps: r.caps + rest.caps }
        }
    } else {
        EvalRes { ok: true, end: pos, caps: seq![] }
    }
}

/// Greedy bounded repetition: the child is re-evaluated from each reached
/// offset until it fails or the bound `reps.max` (0 meaning unbounded) is
/// reached; success needs at least `reps.min` repetitions.  A body that
/// succeeds without consuming input is cut short: repeating it can reach
/// any minimum, so the repetition succeeds where it stands.
pub open spec fn spec_eval_star(
    child: SpecNode,
    reps: Bounds,
    text: Seq<char>,
    pos: int,
    count: nat,
) -> EvalRes
    decreases child, rem(text, pos), 1nat,
{
    let r = spec_eval(child, text, pos);
    if !r.ok {
        EvalRes { ok: count >= reps.min, end: pos, caps: r.caps }
    } else if count + 1 == reps.max {
        EvalRes { ok: count + 1 >= reps.min, end: r.end, caps: r.caps }
    } else if 0 <= pos && pos < r.end && r.end <= text.len() {
        let rest = spec_eval_star(child, reps, text, r.end, (count + 1) as nat);
        EvalRes { ok: rest.ok, end: rest.end, caps: r.caps + rest.caps }
    } else {
        EvalRes { ok: true, end: r.end, caps: r.caps }
    }
}

// ---------------------------------------------------------------------------
// The whole-pattern scan.
// ---------------------------------------------------------------------------

/// One whole-pattern match: the matched span and the capture spans
/// recorded during the walk that produced it.
#[verifier::ext_equal]
pub ghost struct SpecMatchRec {
    pub start: int,
    pub end: int,
    pub caps: Seq<(int, int)>,
}

/// The capture spans as capture groups: each span with the text it covers.
pub open spec fn groups_of(text: Seq<char>, caps: Seq<(int, int)>) -> Seq<SpecCapture> {
    caps.map_values(
        |c: (int, int)| SpecCapture { start: c.0, end: c.1, chars: text.subrange(c.0, c.1) },
    )
}

/// A match record as the image of the `MatchData` built for it: the full
/// match span stands first in the group list.
pub open spec fn rec_to_match(text: Seq<char>, rec: SpecMatchRec) -> SpecMatch {
    SpecMatch {
        start: rec.start,
        end: rec.end,
        groups: groups_of(text, seq![(rec.start, rec.end)] + rec.caps),
    }
}

/// The scan measure: candidate offsets left up to and including the end
/// of the text.
pub open spec fn rem1(text: Seq<char>, start: int) -> nat {
    if 0 <= start <= text.len() + 1 {
        (text.len() + 1 - start) as nat
    } else {
        0
    }
}

/// The matches found scanning candidate start offsets from `start` to the
/// end of the text (the offset equal to the text length included, for
/// trailing zero-length matches).  A successful attempt resumes at its
/// end offset — one past it for a zero-length match — and a failed
/// attempt one codepoint further on.
pub open spec fn spec_matches_from(t: SpecNode, text: Seq<char>, start: int) -> Seq<SpecMatchRec>
    decreases rem1(text, start),
{
    if 0 <= start <= text.len() {
        let r = spec_eval(t, text, start);
        if r.ok {
            let next = if start < r.end {
                r.end
            } else {
                r.end + 1
            };
            seq![SpecMatchRec { start, end: r.end, caps: r.caps }] + spec_matches_from(
                t,
                text,
                at_least(next, start + 1),
            )
        } else {
            spec_matches_from(t, text, start + 1)
        }
    } else {
        seq![]
    }
}

/// The first match found scanning start offsets strictly inside the text.
pub open spec fn spec_first_from(t: SpecNode, text: Seq<char>, start: int) -> Option<SpecMatchRec>
    decreases rem1(text, start),
{
    if 0 <= start < text.len() {
        let r = spec_eval(t, text, start);
        if r.ok {
            Some(SpecMatchRec { start, end: r.end, caps: r.caps })
        } else {
            spec_first_from(t, text, start + 1)
        }
    } else {
        None
    }
}

/// The images of a list of produced matches.
pub open spec fn match_datas_view(s: Seq<MatchData>) -> Seq<SpecMatch> {
    s.map_values(|m: MatchData| m@)
}

/// The images of a list of match records.
pub open spec fn recs_to_matches(text: Seq<char>, recs: Seq<SpecMatchRec>) -> Seq<SpecMatch> {
    recs.map_values(|r: SpecMatchRec| rec_to_match(text, r))
}

} // verus!

verus! {

/// The images of a group list.
pub open spec fn groups_view(s: Seq<MatchGroup>) -> Seq<SpecCapture> {
    s.map_values(|g: MatchGroup| g@)
}

/// The length of the longest common prefix, pinned down pointwise: `k`
/// matching codepoints followed by a mismatch or the end of either side.
proof fn lemma_lcp_chars(image: Seq<char>, text: Seq<char>, i: int, k: int)
    requires
        0 <= i,
        0 <= k <= image.len(),
        i + k <= text.len(),
        forall|j: int| 0 <= j < k ==> text[i + j] == image[j],
        k < image.len() ==> (i + k >= text.len() || text[i + k] != image[k]),
    ensures
        lcp(image, text, i) == k,
    decreases k,
{
    if k > 0 {
        assert(text[i] == image[0]);
        lemma_lcp_chars(image.drop_first(), text, i + 1, k - 1);
    }
}

/// The matching environment: one input string, its codepoints, and the
/// matches found so far.
pub struct RegExEnv {
    chars: Vec<char>,
    pub string: String,
    pub matches: Vec<MatchData>,
}

impl RegExEnv {
    /// The codepoints of the text being matched.
    pub closed spec fn text(&self) -> Seq<char> {
        self.chars@
    }

    /// The codepoint vector mirrors the string.
    pub closed spec fn wf(&self) -> bool {
        self.chars@ == self.string@
    }

    fn new(s: String) -> (m: Self)
        ensures
            m.wf(),
            m.text() == s@,
            m.string@ == s@,
            m.matches@ =~= Seq::<MatchData>::empty(),
    {
        let chars = collect_chars(s.as_str());
        RegExEnv { chars, string: s, matches: Vec::new() }
    }

    /// The text between two codepoint offsets, materialised as a `String`.
    #[verifier::loop_isolation(false)]
    fn substring(&self, a: usize, b: usize) -> (s: String)
        requires
            a <= b <= self.text().len(),
        ensures
            s@ == self.text().subrange(a as int, b as int),
    {
        let mut s = String::new();
        let mut k = a;
        while k < b
            invariant
                a <= k <= b <= self.chars@.len(),
                s@ == self.chars@.subrange(a as int, k as int),
            decreases b - k,
        {
            push_char(&mut s, self.chars[k]);
            k = k + 1;
            proof {
                assert(s@ =~= self.chars@.subrange(a as int, k as int));
            }
        }
        proof {
            assert(s@ =~= self.chars@.subrange(a as int, b as int));
        }
        s
    }

    /// Evaluates one node of the tree at offset `i`, recording captures
    /// into `m`.  The pair returned is success and the offset reached.
    fn interpret_node(&self, node: &TreeNode, i: usize, m: &mut MatchData) -> (res: (bool, usize))
        requires
            i <= self.text().len(),
        ensures
            ({
                let r = spec_eval(tree_view(*node), self.text(), i as int);
                &&& res.0 == r.ok
                &&& res.1 as int == r.end
                &&& i <= res.1 <= self.text().len()
                &&& final(m).start == old(m).start
                &&& final(m).end == old(m).end
                &&& groups_view(final(m).groups@) == groups_view(old(m).groups@) + groups_of(
                    self.text(),
                    r.caps,
                )
            }),
        decreases *node, 2int,
    {
        let ghost r = spec_eval(tree_view(*node), self.text(), i as int);
        match node.n_type {
            NodeType::Word => {
                let res = self.interpret_word(node, i, m);
                proof {
                    assert(groups_view(final(m).groups@) =~= groups_view(old(m).groups@)
                        + groups_of(self.text(), r.caps));
                }
                res
            },
            NodeType::Union => {
                let res = self.interpret_union(node, i, m);
                proof {
                    crate::parser::lemma_tree_view_children(node.children@);
                }
                res
            },
            NodeType::Star => self.interpret_star(node, i, m),
            NodeType::Group => {
                let res = self.interpret_group(node, i, m);
                proof {
                    crate::parser::lemma_tree_view_children(node.children@);
                }
                res
            },
            NodeType::MatchGroup => self.interpret_match_group(node, i, m),
            NodeType::Charset => {
                let res = self.interpret_charset(node, i, m);
                proof {
                    assert(groups_view(final(m).groups@) =~= groups_view(old(m).groups@)
                        + groups_of(self.text(), r.caps));
                }
                res
            },
            _ => {
                proof {
                    assert(groups_view(m.groups@) =~= groups_view(m.groups@) + groups_of(
                        self.text(),
                        r.caps,
                    ));
                }
                (false, i)
            },
        }
    }

    /// A `Word` node: its image compared codepoint by codepoint.
    #[verifier::loop_isolation(false)]
    fn interpret_word(&self, node: &TreeNode, i: usize, m: &mut MatchData) -> (res: (bool, usize))
        requires
            node.n_type == NodeType::Word,
            i <= self.text().len(),
        ensures
            ({
                let r = spec_eval(tree_view(*node), self.text(), i as int);
                &&& res.0 == r.ok
                &&& res.1 as int == r.end
                &&& i <= res.1 <= self.text().len()
                &&& *final(m) == *old(m)
            }),
        decreases *node, 0int,
    {
        let ghost text = self.text();
        let ghost image = node.image@;
        let mut w_i = i;
        let mut k: usize = 0;
        while k < node.image.len()
            invariant
                node.n_type == NodeType::Word,
                image == node.image@,
                text == self.chars@,
                0 <= k <= image.len(),
                w_i == i + k,
                w_i <= text.len(),
                i <= self.text().len(),
                forall|j: int| 0 <= j < k ==> text[i + j] == image[j],
            decreases image.len() - k,
        {
            if w_i >= self.chars.len() {
                proof {
                    lemma_lcp_chars(image, text, i as int, k as int);
                }
                return (false, w_i);
            }
            if self.chars[w_i] != node.image[k] {
                proof {
                    lemma_lcp_chars(image, text, i as int, k as int);
                }
                return (false, w_i);
            }
            w_i = w_i + 1;
            k = k + 1;
        }
        proof {
            lemma_lcp_chars(image, text, i as int, k as int);
        }
        (true, w_i)
    }

    /// A `Charset` node: one codepoint against the union of its ranges.
    #[verifier::loop_isolation(false)]
    fn interpret_charset(&self, node: &TreeNode, i: usize, m: &mut MatchData) -> (res: (
        bool,
        usize,
    ))
        requires
            node.n_type == NodeType::Charset,
            i <= self.text().len(),
        ensures
            ({
                let r = spec_eval(tree_view(*node), self.text(), i as int);
                &&& res.0 == r.ok
                &&& res.1 as int == r.end
                &&& i <= res.1 <= self.text().len()
                &&& *final(m) == *old(m)
            }),
        decreases *node, 0int,
    {
        if i >= self.chars.len() {
            return (false, i);
        }
        let c = self.chars[i];
        let mut k: usize = 0;
        while k < node.ranges.len()
            invariant
                0 <= k <= node.ranges@.len(),
                c == self.chars@[i as int],
                i < self.chars@.len(),
                forall|j: int| 0 <= j < k ==> !spec_includes(node.ranges@[j], c),
            decreases node.ranges@.len() - k,
        {
            if node.ranges[k].includes_char(c) {
                return (true, i + 1);
            }
            k = k + 1;
        }
        (false, i)
    }

    /// A `Union` node: every child is tried from the same offset; the
    /// largest end among the succeeding children wins.
    #[verifier::loop_isolation(false)]
    fn interpret_union(&self, node: &TreeNode, i: usize, m: &mut MatchData) -> (res: (bool, usize))
        requires
            i <= self.text().len(),
        ensures
            ({
                let r = spec_eval_union(
                    trees_view(node.children@),
                    self.text(),
                    i as int,
                    0,
                    false,
                    i as int,
                );
                &&& res.0 == r.ok
                &&& res.1 as int == r.end
                &&& i <= res.1 <= self.text().len()
                &&& final(m).start == old(m).start
                &&& final(m).end == old(m).end
                &&& groups_view(final(m).groups@) == groups_view(old(m).groups@) + groups_of(
                    self.text(),
                    r.caps,
                )
            }),
        decreases *node, 1int,
    {
        let ghost text = self.text();
        let ghost cv = trees_view(node.children@);
        let ghost full = spec_eval_union(cv, text, i as int, 0, false, i as int);
        let ghost mut caps_acc: Seq<(int, int)> = seq![];
        let mut success = false;
        let mut best_i = i;
        let mut k: usize = 0;
        proof {
            assert(full.caps =~= caps_acc + full.caps);
            assert(groups_view(m.groups@) =~= groups_view(old(m).groups@) + groups_of(
                text,
                caps_acc,
            ));
        }
        while k < node.children.len()
            invariant
                i <= self.text().len(),
                text == self.text(),
                cv == trees_view(node.children@),
                full == spec_eval_union(cv, text, i as int, 0, false, i as int),
                0 <= k <= node.children@.len(),
                i <= best_i <= text.len(),
                ({
                    let part = spec_eval_union(
                        cv,
                        text,
                        i as int,
                        k as int,
                        success,
                        best_i as int,
                    );
                    full.ok == part.ok && full.end == part.end && full.caps == caps_acc
                        + part.caps
                }),
                m.start == old(m).start,
                m.end == old(m).end,
                groups_view(m.groups@) == groups_view(old(m).groups@) + groups_of(text, caps_acc),
            decreases node.children@.len() - k,
        {
            let (n_s, n_i) = self.interpret_node(&node.children[k], i, m);
            let ghost r = spec_eval(cv[k as int], text, i as int);
            proof {
                assert(tree_view(node.children@[k as int]) == cv[k as int]);
                caps_acc = caps_acc + r.caps;
                assert(groups_view(m.groups@) =~= groups_view(old(m).groups@) + groups_of(
                    text,
                    caps_acc,
                ));
                assert(full.caps =~= caps_acc + spec_eval_union(
                    cv,
                    text,
                    i as int,
                    k + 1,
                    success || r.ok,
                    if r.ok && r.end > best_i as int {
                        r.end
                    } else {
                        best_i as int
                    },
                ).caps);
            }
            success = success || n_s;
            if n_s && n_i > best_i {
                best_i = n_i;
            }
            k = k + 1;
        }
        (success, best_i)
    }

    /// A `Star` node: greedy bounded repetition of its single child.
    #[verifier::loop_isolation(false)]
    fn interpret_star(&self, node: &TreeNode, i: usize, m: &mut MatchData) -> (res: (bool, usize))
        requires
            node.n_type == NodeType::Star,
            i <= self.text().len(),
        ensures
            ({
                let r = spec_eval(tree_view(*node), self.text(), i as int);
                &&& res.0 == r.ok
                &&& res.1 as int == r.end
                &&& i <= res.1 <= self.text().len()
                &&& final(m).start == old(m).start
                &&& final(m).end == old(m).end
                &&& groups_view(final(m).groups@) == groups_view(old(m).groups@) + groups_of(
                    self.text(),
                    r.caps,
                )
            }),
        decreases *node, 1int,
    {
        let ghost text = self.text();
        let ghost full = spec_eval(tree_view(*node), text, i as int);
        if node.children.len() == 0 {
            proof {
                crate::parser::lemma_tree_view_children(node.children@);
                assert(groups_view(m.groups@) =~= groups_view(m.groups@) + groups_of(
                    text,
                    full.caps,
                ));
            }
            return (false, i);
        }
        let n = &node.children[0];
        let ghost cv = tree_view(node.children@[0]);
        let ghost reps = node.repeats;
        proof {
            crate::parser::lemma_tree_view_children(node.children@);
            assert(tree_view(*node).children[0] == cv);
            assert(full == spec_eval_star(cv, reps, text, i as int, 0));
        }
        let ghost mut caps_acc: Seq<(int, int)> = seq![];
        let mut best_i = i;
        let mut count: u128 = 0;
        proof {
            assert(full.caps =~= caps_acc + full.caps);
            assert(groups_view(m.groups@) =~= groups_view(old(m).groups@) + groups_of(
                text,
                caps_acc,
            ));
        }
        loop
            invariant
                node.n_type == NodeType::Star,
                node.children@.len() > 0,
                cv == tree_view(node.children@[0]),
                reps == node.repeats,
                text == self.text(),
                full == spec_eval(tree_view(*node), text, i as int),
                i <= best_i <= text.len(),
                count <= best_i - i,
                ({
                    let part = spec_eval_star(cv, reps, text, best_i as int, count as nat);
                    full.ok == part.ok && full.end == part.end && full.caps == caps_acc
                        + part.caps
                }),
                m.start == old(m).start,
                m.end == old(m).end,
                groups_view(m.groups@) == groups_view(old(m).groups@) + groups_of(text, caps_acc),
            decreases text.len() - best_i,
        {
            let (n_s, n_i) = self.interpret_node(n, best_i, m);
            let ghost r = spec_eval(cv, text, best_i as int);
            proof {
                caps_acc = caps_acc + r.caps;
                assert(groups_view(m.groups@) =~= groups_view(old(m).groups@) + groups_of(
                    text,
                    caps_acc,
                ));
            }
            if !n_s {
                proof {
                    assert(full.caps =~= caps_acc + Seq::<(int, int)>::empty());
                }
                return (count >= node.repeats.min as u128, best_i);
            }
            count = count + 1;
            if count == node.repeats.max as u128 {
                proof {
                    assert(full.caps =~= caps_acc + Seq::<(int, int)>::empty());
                }
                return (count >= node.repeats.min as u128, n_i);
            }
            if n_i == best_i {
                proof {
                    assert(full.caps =~= caps_acc + Seq::<(int, int)>::empty());
                }
                return (true, n_i);
            }
            best_i = n_i;
            proof {
                assert(full.caps =~= caps_acc + spec_eval_star(
                    cv,
                    reps,
                    text,
                    best_i as int,
                    count as nat,
                ).caps);
            }
        }
    }

    /// A `Group`-shaped child list: children in order, each from the
    /// offset the one before reached.
    #[verifier::loop_isolation(false)]
    fn interpret_group(&self, node: &TreeNode, i: usize, m: &mut MatchData) -> (res: (bool, usize))
        requires
            i <= self.text().len(),
        ensures
            ({
                let r = spec_eval_group(trees_view(node.children@), self.text(), i as int, 0);
                &&& res.0 == r.ok
                &&& res.1 as int == r.end
                &&& i <= res.1 <= self.text().len()
                &&& final(m).start == old(m).start
                &&& final(m).end == old(m).end
                &&& groups_view(final(m).groups@) == groups_view(old(m).groups@) + groups_of(
                    self.text(),
                    r.caps,
                )
            }),
        decreases *node, 0int,
    {
        let ghost text = self.text();
        let ghost cv = trees_view(node.children@);
        let ghost full = spec_eval_group(cv, text, i as int, 0);
        let ghost mut caps_acc: Seq<(int, int)> = seq![];
        let mut last_i = i;
        let mut k: usize = 0;
        proof {
            assert(full.caps =~= caps_acc + full.caps);
            assert(groups_view(m.groups@) =~= groups_view(old(m).groups@) + groups_of(
                text,
                caps_acc,
            ));
        }
        while k < node.children.len()
            invariant
                i <= self.text().len(),
                text == self.text(),
                cv == trees_view(node.children@),
                full == spec_eval_group(cv, text, i as int, 0),
                0 <= k <= node.children@.len(),
                i <= last_i <= text.len(),
                ({
                    let part = spec_eval_group(cv, text, last_i as int, k as int);
                    full.ok == part.ok && full.end == part.end && full.caps == caps_acc
                        + part.caps
                }),
                m.start == old(m).start,
                m.end == old(m).end,
                groups_view(m.groups@) == groups_view(old(m).groups@) + groups_of(text, caps_acc),
            decreases node.children@.len() - k,
        {
            let (n_s, n_i) = self.interpret_node(&node.children[k], last_i, m);
            let ghost r = spec_eval(cv[k as int], text, last_i as int);
            proof {
                assert(tree_view(node.children@[k as int]) == cv[k as int]);
                caps_acc = caps_acc + r.caps;
                assert(groups_view(m.groups@) =~= groups_view(old(m).groups@) + groups_of(
                    text,
                    caps_acc,
                ));
            }
            if !n_s {
                proof {
                    assert(full.caps =~= caps_acc + Seq::<(int, int)>::empty());
                }
                return (false, n_i);
            }
            last_i = n_i;
            proof {
                assert(full.caps =~= caps_acc + spec_eval_group(
                    cv,
                    text,
                    last_i as int,
                    k + 1,
                ).caps);
            }
            k = k + 1;
        }
        proof {
            assert(full.caps =~= caps_acc + Seq::<(int, int)>::empty());
        }
        (true, last_i)
    }

    /// A `MatchGroup` node: a group that, on success, records the span it
    /// consumed as a capture, placed before the captures of the groups
    /// nested inside it (the order the groups were entered).
    fn interpret_match_group(&self, node: &TreeNode, i: usize, m: &mut MatchData) -> (res: (
        bool,
        usize,
    ))
        requires
            node.n_type == NodeType::MatchGroup,
            i <= self.text().len(),
        ensures
            ({
                let r = spec_eval(tree_view(*node), self.text(), i as int);
                &&& res.0 == r.ok
                &&& res.1 as int == r.end
                &&& i <= res.1 <= self.text().len()
                &&& final(m).start == old(m).start
                &&& final(m).end == old(m).end
                &&& groups_view(final(m).groups@) == groups_view(old(m).groups@) + groups_of(
                    self.text(),
                    r.caps,
                )
            }),
        decreases *node, 1int,
    {
        let ghost text = self.text();
        let ghost full = spec_eval(tree_view(*node), text, i as int);
        let ghost g = spec_eval_group(trees_view(node.children@), text, i as int, 0);
        proof {
            crate::parser::lemma_tree_view_children(node.children@);
        }
        let entry_at = m.groups.len();
        let (g_s, g_i) = self.interpret_group(node, i, m);
        if g_s {
            let captured = MatchGroup { start: i, end: g_i, string: self.substring(i, g_i) };
            let ghost gbefore = m.groups@;
            let ghost cap_view = captured@;
            proof {
                assert(entry_at as int == groups_view(old(m).groups@).len());
                assert(gbefore.len() == groups_view(gbefore).len());
                assert(entry_at <= gbefore.len());
            }
            m.groups.insert(entry_at, captured);
            proof {
                assert(cap_view == SpecCapture {
                    start: i as int,
                    end: g_i as int,
                    chars: text.subrange(i as int, g_i as int),
                });
                assert(groups_of(text, full.caps) =~= seq![cap_view] + groups_of(text, g.caps));
                assert(groups_view(m.groups@) =~= groups_view(gbefore).insert(
                    entry_at as int,
                    cap_view,
                ));
                assert(groups_view(m.groups@) =~= groups_view(old(m).groups@) + groups_of(
                    text,
                    full.caps,
                ));
            }
        } else {
            proof {
                assert(full.caps =~= g.caps);
            }
        }
        (g_s, g_i)
    }
}

} // verus!

verus! {

impl RegExEnv {
    /// One whole-pattern attempt at `start`: on success the finished
    /// `MatchData` is appended to `matches`.  The offset returned is the
    /// next candidate start: the match end (one past it for a zero-length
    /// match), or one codepoint on from a failed attempt.
    #[verifier::loop_isolation(false)]
    fn interpret(&mut self, tree: &TreeNode, start: usize) -> (res: (bool, usize))
        requires
            old(self).wf(),
            start <= old(self).text().len(),
            old(self).text().len() < usize::MAX,
        ensures
            final(self).wf(),
            final(self).text() == old(self).text(),
            final(self).string@ == old(self).string@,
            ({
                let r = spec_eval(tree_view(*tree), old(self).text(), start as int);
                &&& res.0 == r.ok
                &&& (if r.ok {
                    &&& res.1 as int == (if (start as int) < r.end {
                        r.end
                    } else {
                        r.end + 1
                    })
                    &&& match_datas_view(final(self).matches@) == match_datas_view(
                        old(self).matches@,
                    ).push(
                        rec_to_match(
                            old(self).text(),
                            SpecMatchRec { start: start as int, end: r.end, caps: r.caps },
                        ),
                    )
                } else {
                    &&& final(self).matches@ == old(self).matches@
                    &&& res.1 == start + 1
                })
                &&& start < res.1 <= old(self).text().len() + 1
            }),
    {
        let ghost text = self.text();
        let mut new_match = MatchData::new(start, 0);
        let (success, end) = self.interpret_node(tree, start, &mut new_match);
        let ghost r = spec_eval(tree_view(*tree), text, start as int);
        if success {
            new_match.end = end;
            let full_group = MatchGroup { start, end, string: self.substring(start, end) };
            let ghost fg_view = full_group@;
            new_match.groups.push_front(full_group);
            proof {
                let rec = SpecMatchRec { start: start as int, end: r.end, caps: r.caps };
                assert(new_match@.groups =~= seq![fg_view] + groups_of(text, r.caps));
                assert(groups_of(text, seq![(start as int, r.end)] + r.caps) =~= seq![fg_view]
                    + groups_of(text, r.caps));
                assert(new_match@ =~~= rec_to_match(text, rec));
            }
            let ghost matches0 = self.matches@;
            let ghost nm_view = new_match@;
            self.matches.push(new_match);
            proof {
                assert(match_datas_view(self.matches@) =~= match_datas_view(matches0).push(
                    nm_view,
                ));
            }
            if start < end {
                (success, end)
            } else {
                (success, end + 1)
            }
        } else {
            (success, start + 1)
        }
    }
}

/// A compiled regular expression: the pattern's text and its parse tree.
pub struct RegEx {
    pub expr: String,
    pub tree: TreeNode,
}

/// Why a pattern failed to compile: a malformed escape found by the
/// scanner, or a token sequence the grammar rejects.
#[derive(Clone, Copy, Debug, PartialEq, Eq, Structural)]
pub enum RegExError {
    LexicalError,
    SyntaxError,
}

impl RegEx {
    /// The codepoints of the pattern this expression was compiled from:
    /// the view of its `expr` field.
    pub open spec fn pattern(&self) -> Seq<char> {
        self.expr@
    }

    /// The stored tree is the parse of the stored pattern.
    pub open spec fn wf(&self) -> bool {
        tree_view(self.tree) == spec_parse(self.expr@)
    }

    /// Compiles `expr`.  A pattern the grammar rejects still yields a
    /// `RegEx`, whose tree carries an error marker that matches nothing
    /// meaningful; `compile` reports such failures instead.
    pub fn new(expr: &str) -> (r: Self)
        ensures
            r.wf(),
            r.expr@ == expr@,
    {
        let expr = expr.to_owned();
        let mut parser = Parser::new(&expr);
        let tree = parser.parse();
        RegEx { expr, tree }
    }

    /// The first match scanning start offsets strictly inside `s`, if any.
    #[verifier::loop_isolation(false)]
    pub fn match_first(&self, s: String) -> (res: Option<MatchData>)
        requires
            self.wf(),
            s@.len() < usize::MAX,
        ensures
            ({
                let sp = spec_first_from(spec_parse(self.pattern()), s@, 0);
                &&& (res is Some <==> sp is Some)
                &&& (res matches Some(md) ==> sp matches Some(rec) && md@ == rec_to_match(s@, rec))
            }),
    {
        let ghost text = s@;
        let ghost t = spec_parse(self.expr@);
        let mut m = RegExEnv::new(s);
        let mut start: usize = 0;
        while start < m.chars.len()
            invariant
                m.wf(),
                m.text() == text,
                m.matches@.len() == 0,
                spec_first_from(t, text, start as int) == spec_first_from(t, text, 0),
            decreases text.len() - start,
        {
            let ghost start0 = start;
            let (success, end) = m.interpret(&self.tree, start);
            start = end;
            if success {
                let ghost r = spec_eval(t, text, start0 as int);
                let ghost pre = m.matches@;
                let out = m.matches.pop();
                proof {
                    let rec = SpecMatchRec { start: start0 as int, end: r.end, caps: r.caps };
                    assert(spec_first_from(t, text, start0 as int) == Some(rec));
                    assert(match_datas_view(pre).len() == 1);
                    assert(match_datas_view(pre)[0] == rec_to_match(text, rec));
                    assert(out->0 == pre[0]);
                    assert(out->0@ == match_datas_view(pre)[0]);
                }
                return out;
            }
        }
        None
    }

    /// Every match found scanning start offsets left to right over `s`,
    /// the offset equal to the length of `s` included.
    #[verifier::loop_isolation(false)]
    pub fn match_all(&self, s: String) -> (res: Vec<MatchData>)
        requires
            self.wf(),
            s@.len() < usize::MAX,
        ensures
            match_datas_view(res@) == recs_to_matches(
                s@,
                spec_matches_from(spec_parse(self.pattern()), s@, 0),
            ),
    {
        let ghost text = s@;
        let ghost t = spec_parse(self.expr@);
        let mut m = RegExEnv::new(s);
        let mut start: usize = 0;
        proof {
            assert(match_datas_view(m.matches@) + recs_to_matches(
                text,
                spec_matches_from(t, text, 0),
            ) =~= recs_to_matches(text, spec_matches_from(t, text, 0)));
        }
        while start <= m.chars.len()
            invariant
                m.wf(),
                m.text() == text,
                0 <= start <= text.len() + 1,
                match_datas_view(m.matches@) + recs_to_matches(
                    text,
                    spec_matches_from(t, text, start as int),
                ) == recs_to_matches(text, spec_matches_from(t, text, 0)),
            decreases text.len() + 1 - start,
        {
            let ghost start0 = start;
            let ghost matches0 = m.matches@;
            let (_success, end) = m.interpret(&self.tree, start);
            start = end;
            proof {
                let r = spec_eval(t, text, start0 as int);
                if r.ok {
                    let rec = SpecMatchRec { start: start0 as int, end: r.end, caps: r.caps };
                    let next = if (start0 as int) < r.end {
                        r.end
                    } else {
                        r.end + 1
                    };
                    assert(at_least(next, start0 + 1) == start as int);
                    assert(spec_matches_from(t, text, start0 as int) == seq![rec]
                        + spec_matches_from(t, text, start as int));
                    assert(recs_to_matches(text, seq![rec] + spec_matches_from(t, text, start as int))
                        =~= seq![rec_to_match(text, rec)] + recs_to_matches(
                        text,
                        spec_matches_from(t, text, start as int),
                    ));
                    assert(match_datas_view(m.matches@) =~= match_datas_view(matches0).push(
                        rec_to_match(text, rec),
                    ));
                    assert(match_datas_view(m.matches@) + recs_to_matches(
                        text,
                        spec_matches_from(t, text, start as int),
                    ) =~= recs_to_matches(text, spec_matches_from(t, text, 0)));
                } else {
                    assert(spec_matches_from(t, text, start0 as int) == spec_matches_from(
                        t,
                        text,
                        start as int,
                    ));
                }
            }
        }
        proof {
            assert(recs_to_matches(text, spec_matches_from(t, text, start as int))
                =~= Seq::<SpecMatch>::empty());
            assert(match_datas_view(m.matches@) =~= recs_to_matches(
                text,
                spec_matches_from(t, text, 0),
            ));
        }
        m.matches
    }
}

// ---------------------------------------------------------------------------
// Compilation with explicit failure reporting.
// ---------------------------------------------------------------------------

/// Does the tree hold an `Error` marker anywhere?
pub open spec fn spec_has_error(t: SpecNode) -> bool
    decreases t, 0nat, 0nat,
{
    t.n_type == NodeType::Error || spec_any_error(t.children, 0)
}

/// Does any tree from index `k` on hold an `Error` marker?
pub open spec fn spec_any_error(children: Seq<SpecNode>, k: int) -> bool
    decreases children, (if k < children.len() { children.len() - k } else { 0 }) as nat, 1nat,
{
    if 0 <= k < children.len() {
        spec_has_error(children[k]) || spec_any_error(children, k + 1)
    } else {
        false
    }
}

/// Does scanning the pattern from position `p` hit a lexical error before
/// the end of the input?
pub open spec fn spec_has_lex_error(cs: Seq<char>, p: int) -> bool
    decreases rem(cs, p),
{
    if crate::parser::tok(cs, p).t_type == crate::scanner::TokenType::EOF {
        false
    } else if crate::parser::tok(cs, p).t_type == crate::scanner::TokenType::Error {
        true
    } else {
        spec_has_lex_error(cs, at_least(crate::parser::nxt(cs, p), p + 1))
    }
}

/// Whether the tree holds an `Error` marker node.
#[verifier::loop_isolation(false)]
fn has_error_node(t: &TreeNode) -> (b: bool)
    ensures
        b == spec_has_error(tree_view(*t)),
    decreases *t,
{
    if matches!(t.n_type, NodeType::Error) {
        return true;
    }
    let ghost cv = tree_view(*t).children;
    proof {
        crate::parser::lemma_tree_view_children(t.children@);
    }
    let mut k: usize = 0;
    while k < t.children.len()
        invariant
            0 <= k <= t.children@.len(),
            spec_any_error(cv, 0) == spec_any_error(cv, k as int),
        decreases t.children@.len() - k,
    {
        let sub = has_error_node(&t.children[k]);
        proof {
            assert(tree_view(t.children@[k as int]) == cv[k as int]);
        }
        if sub {
            return true;
        }
        k = k + 1;
    }
    false
}

/// Whether scanning the whole pattern hits a lexical error.
#[verifier::loop_isolation(false)]
fn pattern_has_lexical_error(pattern: &String) -> (b: bool)
    ensures
        b == spec_has_lex_error(pattern@, 0),
{
    let ghost cs = pattern@;
    let mut sc = crate::scanner::Scanner::new(pattern);
    loop
        invariant
            sc.wf(),
            sc.spec_chars() == cs,
            spec_has_lex_error(cs, sc.spec_index()) == spec_has_lex_error(cs, 0),
        decreases rem(cs, sc.spec_index()),
    {
        let ghost p = sc.spec_index();
        let tk = sc.scan_next();
        match tk.t_type {
            crate::scanner::TokenType::EOF => {
                return false;
            },
            crate::scanner::TokenType::Error => {
                return true;
            },
            _ => {
                proof {
                    crate::scanner::lemma_spec_scan_bounds(cs, p);
                    assert(at_least(crate::parser::nxt(cs, p), p + 1) == sc.spec_index());
                }
            },
        }
    }
}

/// Compiles a pattern, surfacing failures as an explicit result: a
/// lexical error where the scanner rejects an escape anywhere in the
/// pattern — even one the parser recovers from — and a syntax error
/// where the token sequence fits no production.  Matching a successfully
/// compiled pattern never fails with an error; it only reports "no
/// match".
pub fn compile(pattern: &str) -> (res: Result<RegEx, RegExError>)
    ensures
        ({
            let cs = pattern@;
            let lex = spec_has_lex_error(cs, 0);
            let bad_tree = spec_has_error(spec_parse(cs));
            match res {
                Ok(r) => !lex && !bad_tree && r.wf() && r.expr@ == cs,
                Err(e) => (lex || bad_tree) && e == (if lex {
                    RegExError::LexicalError
                } else {
                    RegExError::SyntaxError
                }),
            }
        }),
{
    let r = RegEx::new(pattern);
    if pattern_has_lexical_error(&r.expr) {
        Err(RegExError::LexicalError)
    } else if has_error_node(&r.tree) {
        Err(RegExError::SyntaxError)
    } else {
        Ok(r)
    }
}

} // verus!
