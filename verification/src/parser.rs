//! Recursive-descent parsing of the token stream into an expression tree.
//!
//! The grammar, with one token of lookahead:
//!
//! ```text
//! root    := expr EOF
//! expr    := seq union expr | e            (e on RParen/EOF)
//! seq     := atom star seq | e             (e on Union/RParen/EOF)
//! atom    := Character | Range | '(' expr ')' | '[' neg charset ']'
//! star    := '*' | '?' | '+' | e
//! union   := '|' expr | e
//! neg     := '^' charset | charset
//! charset := (Character | Range)+ | e
//! ```
//!
//! The spec functions [`spec_root`], [`spec_expr`] and their helpers define
//! the parse mathematically over the codepoint sequence; each executable
//! parse function is proved to return exactly the tree and cursor position
//! that its spec function names.  A token that fits no production yields an
//! `Error` marker node, never a panic.

use vstd::prelude::*;

use crate::scanner::CharRange;
use crate::scanner::Scanner;
use crate::scanner::SpecTok;
use crate::scanner::Token;
use crate::scanner::TokenType;
use crate::scanner::lemma_spec_scan_bounds;
use crate::scanner::spec_scan;

verus! {

/// The role of an expression-tree node.
#[derive(Clone, Copy, Debug, PartialEq, Eq, Structural)]
pub enum NodeType {
    Error,
    Empty,
    Word,
    Charset,
    Union,
    Star,
    Group,
    MatchGroup,
}

/// Repetition bounds for `Star` nodes; `max == 0` means unbounded.
#[derive(Clone, Copy, Debug, PartialEq, Eq, Structural)]
pub struct Bounds {
    pub min: u32,
    pub max: u32,
}

/// An expression-tree node.  Every variant uses `n_type` and `children`;
/// `image` is the literal run of a `Word`, `repeats` the bounds of a
/// `Star`, and `ranges` the intervals of a `Charset`.
pub struct TreeNode {
    pub n_type: NodeType,
    pub children: Vec<TreeNode>,
    pub image: Vec<char>,
    pub repeats: Bounds,
    pub ranges: Vec<CharRange>,
}

/// The mathematical image of a [`TreeNode`].
#[verifier::ext_equal]
pub ghost struct SpecNode {
    pub n_type: NodeType,
    pub children: Seq<SpecNode>,
    pub image: Seq<char>,
    pub repeats: Bounds,
    pub ranges: Seq<CharRange>,
}

/// The image of a tree: the same shape over sequences.
pub open spec fn tree_view(t: TreeNode) -> SpecNode
    decreases t, 0nat,
{
    SpecNode {
        n_type: t.n_type,
        children: trees_view_from(t.children@, 0),
        image: t.image@,
        repeats: t.repeats,
        ranges: t.ranges@,
    }
}

/// The images of the trees of `ts` from index `k` on, in order.
pub open spec fn trees_view_from(ts: Seq<TreeNode>, k: int) -> Seq<SpecNode>
    decreases ts, (if k < ts.len() { ts.len() - k } else { 0 }) as nat, 1nat,
{
    if 0 <= k < ts.len() {
        seq![tree_view(ts[k])] + trees_view_from(ts, k + 1)
    } else {
        Seq::empty()
    }
}

/// The images of a sequence of trees, in order.
pub open spec fn trees_view(ts: Seq<TreeNode>) -> Seq<SpecNode> {
    Seq::new(ts.len(), |i: int| tree_view(ts[i]))
}

pub proof fn lemma_trees_view_from(ts: Seq<TreeNode>, k: int)
    requires
        0 <= k <= ts.len(),
    ensures
        trees_view_from(ts, k) =~= trees_view(ts).skip(k),
    decreases ts.len() - k,
{
    if k < ts.len() {
        lemma_trees_view_from(ts, k + 1);
    }
}

/// The `children` of a tree's image are the images of its children.
pub proof fn lemma_tree_view_children(ts: Seq<TreeNode>)
    ensures
        trees_view_from(ts, 0) == trees_view(ts),
{
    lemma_trees_view_from(ts, 0);
    assert(trees_view(ts).skip(0) =~= trees_view(ts));
}

// ---------------------------------------------------------------------------
// Spec-level node construction, mirroring how the parser builds trees.
// ---------------------------------------------------------------------------

/// A fresh node: no children, no image, bounds `{0, 0}`, no ranges.
pub open spec fn spec_node_new(n_type: NodeType) -> SpecNode {
    SpecNode {
        n_type,
        children: seq![],
        image: seq![],
        repeats: Bounds { min: 0, max: 0 },
        ranges: seq![],
    }
}

pub open spec fn error_node() -> SpecNode {
    spec_node_new(NodeType::Error)
}

pub open spec fn empty_node() -> SpecNode {
    spec_node_new(NodeType::Empty)
}

pub open spec fn word_node(image: Seq<char>) -> SpecNode {
    SpecNode {
        n_type: NodeType::Word,
        children: seq![],
        image,
        repeats: Bounds { min: 0, max: 0 },
        ranges: seq![],
    }
}

pub open spec fn charset_node(ranges: Seq<CharRange>) -> SpecNode {
    SpecNode {
        n_type: NodeType::Charset,
        children: seq![],
        image: seq![],
        repeats: Bounds { min: 0, max: 0 },
        ranges,
    }
}

/// `Empty` placeholders are culled wherever children are adopted.
pub open spec fn cull(s: Seq<SpecNode>) -> Seq<SpecNode>
    decreases s.len(),
{
    if s.len() == 0 {
        seq![]
    } else if s[0].n_type == NodeType::Empty {
        cull(s.drop_first())
    } else {
        seq![s[0]] + cull(s.drop_first())
    }
}

/// A group-like node adopting `children` (with `Empty` placeholders culled).
pub open spec fn spec_make_group(children: Seq<SpecNode>, group_type: NodeType) -> SpecNode {
    SpecNode {
        n_type: group_type,
        children: cull(children),
        image: seq![],
        repeats: Bounds { min: 0, max: 0 },
        ranges: seq![],
    }
}

/// A repetition node over `lhs` with the given bounds.
pub open spec fn star_node(lhs: SpecNode, repeats: Bounds) -> SpecNode {
    SpecNode {
        n_type: NodeType::Star,
        children: cull(seq![lhs]),
        image: seq![],
        repeats,
        ranges: seq![],
    }
}

pub open spec fn union_node(children: Seq<SpecNode>) -> SpecNode {
    SpecNode {
        n_type: NodeType::Union,
        children,
        image: seq![],
        repeats: Bounds { min: 0, max: 0 },
        ranges: seq![],
    }
}

// ---------------------------------------------------------------------------
// The grammar as spec functions.
//
// Each function takes the codepoint sequence and the position at which the
// current lookahead token starts, and yields its parse result together
// with the position of the lookahead after it.  The `at_least` clamps only
// serve the termination measure: the positions a sub-parse returns never
// actually fall below them, which each executable function proves.
// ---------------------------------------------------------------------------

/// The lookahead token starting at position `p`.
pub open spec fn tok(cs: Seq<char>, p: int) -> SpecTok {
    spec_scan(cs, p).0
}

/// The position after the token starting at `p`.
pub open spec fn nxt(cs: Seq<char>, p: int) -> int {
    spec_scan(cs, p).1
}

/// The codepoints left from position `p` on: the termination measure.
pub open spec fn rem(cs: Seq<char>, p: int) -> nat {
    if 0 <= p <= cs.len() {
        (cs.len() - p) as nat
    } else {
        0
    }
}

pub open spec fn at_least(q: int, lo: int) -> int {
    if q >= lo {
        q
    } else {
        lo
    }
}

/// `root := expr EOF`; any token outside every first set is an error.
pub open spec fn spec_root(cs: Seq<char>, p: int) -> SpecNode
    decreases rem(cs, p), 6int,
{
    match tok(cs, p).t_type {
        TokenType::Character | TokenType::Range | TokenType::LBracket | TokenType::LParen
            | TokenType::Union | TokenType::RParen | TokenType::EOF => {
            spec_make_group(spec_expr(cs, p).0, NodeType::Group)
        },
        _ => error_node(),
    }
}

/// `expr := seq union expr | e`.
pub open spec fn spec_expr(cs: Seq<char>, p: int) -> (Seq<SpecNode>, int)
    decreases rem(cs, p), 5int,
{
    match tok(cs, p).t_type {
        TokenType::Character | TokenType::Range | TokenType::LBracket | TokenType::LParen
            | TokenType::Union => {
            let (sq, p1) = spec_seq(cs, p, empty_node());
            let lhs = if sq.len() == 1 {
                sq[0]
            } else {
                spec_make_group(sq, NodeType::Group)
            };
            let (un, p2) = spec_union(cs, at_least(p1, p), lhs);
            let (rest, p3) = spec_expr(cs, at_least(p2, p + 1));
            (seq![un] + rest, p3)
        },
        TokenType::RParen | TokenType::EOF => (seq![], p),
        _ => (seq![error_node()], p),
    }
}

/// `seq := atom star seq | e`; consecutive literal atoms merge into one
/// `Word`, so literal runs stay flat.
pub open spec fn spec_seq(cs: Seq<char>, p: int, prev: SpecNode) -> (Seq<SpecNode>, int)
    decreases rem(cs, p), 4int,
{
    match tok(cs, p).t_type {
        TokenType::Character | TokenType::Range | TokenType::LBracket | TokenType::LParen => {
            let (atom_n, p1) = spec_atom(cs, p);
            let (star_n, p2) = spec_star(cs, at_least(p1, p + 1), atom_n);
            if prev.n_type == NodeType::Word && star_n.n_type == NodeType::Word {
                let merged = SpecNode { image: prev.image.push(star_n.image[0]), ..prev };
                spec_seq(cs, at_least(p2, p + 1), merged)
            } else {
                let (rest, p3) = spec_seq(cs, at_least(p2, p + 1), star_n);
                let lead = if prev.n_type == NodeType::Empty {
                    seq![]
                } else {
                    seq![prev]
                };
                (lead + cull(rest), p3)
            }
        },
        TokenType::Union | TokenType::RParen | TokenType::EOF => (seq![prev], p),
        _ => (seq![error_node()], p),
    }
}

/// `atom := Character | Range | '(' expr ')' | '[' neg charset ']'`.
/// A parenthesised expression always becomes a capturing `MatchGroup`.
pub open spec fn spec_atom(cs: Seq<char>, p: int) -> (SpecNode, int)
    decreases rem(cs, p), 3int,
{
    match tok(cs, p).t_type {
        TokenType::Character => (word_node(seq![tok(cs, p).image]), nxt(cs, p)),
        TokenType::Range => (charset_node(tok(cs, p).ranges.reverse()), nxt(cs, p)),
        TokenType::LParen => {
            let (nodes, p2) = spec_expr(cs, at_least(nxt(cs, p), p + 1));
            (spec_make_group(nodes, NodeType::MatchGroup), nxt(cs, p2))
        },
        TokenType::LBracket => {
            let (nd, p2) = spec_neg(cs, at_least(nxt(cs, p), p + 1));
            (nd, nxt(cs, p2))
        },
        _ => (error_node(), p),
    }
}

/// `star := '*' | '?' | '+' | e`: `*` is `{0, unbounded}`, `?` is
/// `{0, 1}`, `+` is `{1, unbounded}`; with no quantifier the atom passes
/// through unchanged.
pub open spec fn spec_star(cs: Seq<char>, p: int, lhs: SpecNode) -> (SpecNode, int)
    decreases rem(cs, p), 3int,
{
    match tok(cs, p).t_type {
        TokenType::Star => (star_node(lhs, Bounds { min: 0, max: 0 }), nxt(cs, p)),
        TokenType::Question => (star_node(lhs, Bounds { min: 0, max: 1 }), nxt(cs, p)),
        TokenType::Plus => (star_node(lhs, Bounds { min: 1, max: 0 }), nxt(cs, p)),
        TokenType::Character | TokenType::Range | TokenType::LBracket | TokenType::LParen
            | TokenType::Union | TokenType::RParen | TokenType::EOF => (lhs, p),
        _ => (error_node(), p),
    }
}

/// `union := '|' expr | e`; an empty side becomes a zero-length `Word`,
/// so `a|` and `|b` keep their empty alternative.
pub open spec fn spec_union(cs: Seq<char>, p: int, lhs: SpecNode) -> (SpecNode, int)
    decreases rem(cs, p), 4int,
{
    match tok(cs, p).t_type {
        TokenType::Union => {
            let first = if lhs.n_type == NodeType::Empty {
                word_node(seq![])
            } else {
                lhs
            };
            let (nodes, p2) = spec_expr(cs, at_least(nxt(cs, p), p + 1));
            let children = if nodes.len() == 0 {
                seq![first, word_node(seq![])]
            } else {
                seq![first] + cull(nodes)
            };
            (union_node(children), p2)
        },
        TokenType::Character | TokenType::Range | TokenType::LBracket | TokenType::LParen
            | TokenType::RParen | TokenType::EOF => (lhs, p),
        _ => (error_node(), p),
    }
}

/// `neg := '^' charset | charset`: a leading caret bakes `negate` into
/// every range the charset constructs.
pub open spec fn spec_neg(cs: Seq<char>, p: int) -> (SpecNode, int)
    decreases rem(cs, p), 2int,
{
    match tok(cs, p).t_type {
        TokenType::Caret => spec_charset(cs, at_least(nxt(cs, p), p + 1), true),
        TokenType::Character | TokenType::Range => spec_charset(cs, p, false),
        _ => (error_node(), p),
    }
}

/// `charset := (Character | Range)+ | e`.
pub open spec fn spec_charset(cs: Seq<char>, p: int, negated: bool) -> (SpecNode, int)
    decreases rem(cs, p), 1int,
{
    match tok(cs, p).t_type {
        TokenType::Character | TokenType::Range => {
            spec_charset_items(cs, p, negated, seq![], TokenType::Error, false, false)
        },
        TokenType::RBracket => (charset_node(seq![]), p),
        _ => (error_node(), p),
    }
}

/// The items of a charset.  Discrete characters become one-codepoint
/// ranges; `a-b` between two discrete characters joins them into one range
/// (rejected when reversed); a `-` beside a `Range` token is an error;
/// `Range` tokens contribute their interval lists verbatim.
///
/// `acc` holds the ranges built so far, `last_type` the kind of the item
/// before the current one, `try_join` that a join may complete on the next
/// character, and `try_bad` that a `-` after a `Range` token awaits its
/// rejection.
pub open spec fn spec_charset_items(
    cs: Seq<char>,
    p: int,
    negated: bool,
    acc: Seq<CharRange>,
    last_type: TokenType,
    try_join: bool,
    try_bad: bool,
) -> (SpecNode, int)
    decreases rem(cs, p), 0int,
{
    match tok(cs, p).t_type {
        TokenType::Character => {
            if try_bad {
                (error_node(), p)
            } else {
                let c = tok(cs, p).image;
                let p2 = nxt(cs, p);
                if try_join {
                    if acc.len() >= 2 {
                        let prev = acc[acc.len() - 2];
                        if prev.min > c as u32 {
                            (error_node(), p2)
                        } else {
                            let joined = CharRange {
                                min: prev.min,
                                max: c as u32,
                                negate: prev.negate,
                            };
                            spec_charset_items(
                                cs,
                                at_least(p2, p + 1),
                                negated,
                                acc.take(acc.len() - 2).push(joined),
                                TokenType::Error,
                                false,
                                false,
                            )
                        }
                    } else {
                        (error_node(), p2)
                    }
                } else {
                    spec_charset_items(
                        cs,
                        at_least(p2, p + 1),
                        negated,
                        acc.push(CharRange { min: c as u32, max: c as u32, negate: negated }),
                        TokenType::Character,
                        c == '-' && last_type == TokenType::Character,
                        c == '-' && last_type == TokenType::Range,
                    )
                }
            }
        },
        TokenType::Range => {
            if try_bad {
                (error_node(), p)
            } else if try_join {
                (error_node(), p)
            } else {
                spec_charset_items(
                    cs,
                    at_least(nxt(cs, p), p + 1),
                    negated,
                    acc + tok(cs, p).ranges.reverse(),
                    TokenType::Range,
                    false,
                    false,
                )
            }
        },
        _ => (charset_node(acc), p),
    }
}

/// The parse of a whole pattern.
pub open spec fn spec_parse(cs: Seq<char>) -> SpecNode {
    spec_root(cs, 0)
}

} // verus!

verus! {

/// The node `s` with its child list replaced.
pub open spec fn with_children(s: SpecNode, children: Seq<SpecNode>) -> SpecNode {
    SpecNode { children, ..s }
}

/// What adopting one child adds to a child list: nothing for an `Empty`
/// placeholder, the child itself otherwise.
pub open spec fn cull_one(n: SpecNode) -> Seq<SpecNode> {
    if n.n_type == NodeType::Empty {
        seq![]
    } else {
        seq![n]
    }
}

/// Relies on `String::push` of std: appends exactly one character.
#[verifier::external_body]
pub(crate) fn push_char(s: &mut String, c: char)
    ensures
        final(s)@ == old(s)@.push(c),
{
    s.push(c);
}

impl TreeNode {
    fn new(n_type: NodeType) -> (t: Self)
        ensures
            tree_view(t) == spec_node_new(n_type),
    {
        let t = TreeNode {
            n_type,
            children: Vec::new(),
            image: Vec::new(),
            repeats: Bounds { min: 0, max: 0 },
            ranges: Vec::new(),
        };
        proof {
            assert(tree_view(t) =~= spec_node_new(n_type));
        }
        t
    }

    fn add_child(&mut self, child: TreeNode)
        ensures
            tree_view(*final(self)) == with_children(
                tree_view(*old(self)),
                tree_view(*old(self)).children + cull_one(tree_view(child)),
            ),
    {
        let ghost target = with_children(
            tree_view(*old(self)),
            tree_view(*old(self)).children + cull_one(tree_view(child)),
        );
        if !matches!(child.n_type, NodeType::Empty) {
            proof {
                assert(cull_one(tree_view(child)) =~= seq![tree_view(child)]);
            }
            self.children.push(child);
            proof {
                lemma_tree_view_children(self.children@);
                lemma_tree_view_children(old(self).children@);
                assert(trees_view(self.children@) =~= trees_view(old(self).children@).push(
                    tree_view(child),
                ));
                assert(tree_view(*self).children =~= target.children);
                assert(tree_view(*self) =~~= target);
            }
        } else {
            proof {
                assert(child.n_type == NodeType::Empty);
                assert(cull_one(tree_view(child)) =~= Seq::<SpecNode>::empty());
                assert(tree_view(*self).n_type == target.n_type);
                assert(tree_view(*self).children =~= target.children);
                assert(tree_view(*self) =~= target);
            }
        }
    }

    fn add_children(&mut self, children: Vec<TreeNode>)
        ensures
            tree_view(*final(self)) == with_children(
                tree_view(*old(self)),
                tree_view(*old(self)).children + cull(trees_view(children@)),
            ),
    {
        let ghost target = with_children(
            tree_view(*old(self)),
            tree_view(*old(self)).children + cull(trees_view(children@)),
        );
        let mut rest = children;
        while rest.len() > 0
            invariant
                with_children(
                    tree_view(*self),
                    tree_view(*self).children + cull(trees_view(rest@)),
                ) == target,
            decreases rest@.len(),
        {
            let ghost rest0 = rest@;
            let ghost self0 = tree_view(*self);
            let c = rest.remove(0);
            proof {
                assert(trees_view(rest@) =~= trees_view(rest0).drop_first());
                assert(cull(trees_view(rest0)) =~= cull_one(tree_view(c)) + cull(
                    trees_view(rest@),
                ));
            }
            self.add_child(c);
            proof {
                assert(tree_view(*self) == with_children(
                    self0,
                    self0.children + cull_one(tree_view(c)),
                ));
                assert(tree_view(*self).children =~= self0.children + cull_one(tree_view(c)));
                assert(tree_view(*self).children + cull(trees_view(rest@)) =~= self0.children
                    + cull(trees_view(rest0)));
                assert(with_children(
                    tree_view(*self),
                    tree_view(*self).children + cull(trees_view(rest@)),
                ) =~~= with_children(self0, self0.children + cull(trees_view(rest0))));
                assert(with_children(self0, self0.children + cull(trees_view(rest0))) == target);
            }
        }
        proof {
            assert(cull(trees_view(rest@)) =~= Seq::<SpecNode>::empty());
            assert(tree_view(*self) =~~= with_children(
                tree_view(*self),
                tree_view(*self).children + cull(trees_view(rest@)),
            ));
        }
    }

    fn make_group(children: Vec<TreeNode>, group_type: NodeType) -> (t: TreeNode)
        ensures
            tree_view(t) == spec_make_group(trees_view(children@), group_type),
    {
        let mut group = TreeNode::new(group_type);
        group.add_children(children);
        proof {
            assert(tree_view(group) =~~= spec_make_group(trees_view(children@), group_type));
        }
        group
    }

    /// The literal run of a `Word` node, materialised as a `String`.
    pub fn image_to_str(&self) -> (s: String)
        ensures
            s@ == self.image@,
    {
        let mut s = String::new();
        let mut i: usize = 0;
        while i < self.image.len()
            invariant
                0 <= i <= self.image@.len(),
                s@ == self.image@.take(i as int),
            decreases self.image@.len() - i,
        {
            push_char(&mut s, self.image[i]);
            i = i + 1;
            proof {
                assert(s@ =~= self.image@.take(i as int));
            }
        }
        proof {
            assert(self.image@.take(self.image@.len() as int) =~= self.image@);
        }
        s
    }
}

} // verus!

verus! {

// ---------------------------------------------------------------------------
// Shape facts about charset parses, used where the parser merges words.
// ---------------------------------------------------------------------------

/// A charset item list parses to a `Charset` or an `Error` node.
proof fn lemma_charset_items_shape(
    cs: Seq<char>,
    p: int,
    negated: bool,
    acc: Seq<CharRange>,
    last_type: TokenType,
    try_join: bool,
    try_bad: bool,
)
    ensures
        ({
            let nd = spec_charset_items(cs, p, negated, acc, last_type, try_join, try_bad).0;
            nd.n_type == NodeType::Charset || nd.n_type == NodeType::Error
        }),
    decreases rem(cs, p), 1int,
{
    let t = tok(cs, p).t_type;
    if t == TokenType::Character {
        if !try_bad {
            let c = tok(cs, p).image;
            let p2 = nxt(cs, p);
            if try_join {
                if acc.len() >= 2 {
                    let prev = acc[acc.len() - 2];
                    if !(prev.min > c as u32) {
                        let joined = CharRange { min: prev.min, max: c as u32, negate: prev.negate };
                        lemma_charset_items_shape(
                            cs,
                            at_least(p2, p + 1),
                            negated,
                            acc.take(acc.len() - 2).push(joined),
                            TokenType::Error,
                            false,
                            false,
                        );
                    }
                }
            } else {
                lemma_charset_items_shape(
                    cs,
                    at_least(p2, p + 1),
                    negated,
                    acc.push(CharRange { min: c as u32, max: c as u32, negate: negated }),
                    TokenType::Character,
                    c == '-' && last_type == TokenType::Character,
                    c == '-' && last_type == TokenType::Range,
                );
            }
        }
    } else if t == TokenType::Range {
        if !try_bad && !try_join {
            lemma_charset_items_shape(
                cs,
                at_least(nxt(cs, p), p + 1),
                negated,
                acc + tok(cs, p).ranges.reverse(),
                TokenType::Range,
                false,
                false,
            );
        }
    }
}

/// An atom that parses to a `Word` node is a single literal codepoint.
proof fn lemma_atom_word_shape(cs: Seq<char>, p: int)
    ensures
        spec_atom(cs, p).0.n_type == NodeType::Word ==> spec_atom(cs, p).0.image.len() == 1,
{
    if tok(cs, p).t_type == TokenType::LBracket {
        let p1 = at_least(nxt(cs, p), p + 1);
        if tok(cs, p1).t_type == TokenType::Caret {
            lemma_charset_shape(cs, at_least(nxt(cs, p1), p1 + 1), true);
        } else {
            lemma_charset_shape(cs, p1, false);
        }
    }
}

/// A charset parses to a `Charset` or an `Error` node.
proof fn lemma_charset_shape(cs: Seq<char>, p: int, negated: bool)
    ensures
        ({
            let nd = spec_charset(cs, p, negated).0;
            nd.n_type == NodeType::Charset || nd.n_type == NodeType::Error
        }),
{
    let t = tok(cs, p).t_type;
    if t == TokenType::Character || t == TokenType::Range {
        lemma_charset_items_shape(cs, p, negated, seq![], TokenType::Error, false, false);
    }
}

// ---------------------------------------------------------------------------
// The executable parser.
// ---------------------------------------------------------------------------

/// The parser: a scanner plus one token of lookahead.  The ghost cursor
/// `pos` names the position its lookahead token starts at.
pub struct Parser {
    scanner: Scanner,
    next_token: Token,
    pos: Ghost<int>,
}

impl Parser {
    /// The codepoints of the pattern being parsed.
    pub closed spec fn chars(&self) -> Seq<char> {
        self.scanner.spec_chars()
    }

    /// The position the lookahead token starts at.
    pub closed spec fn spec_pos(&self) -> int {
        self.pos@
    }

    /// The lookahead token was scanned at `pos`, and the scanner stands
    /// just past it.
    pub closed spec fn wf(&self) -> bool {
        &&& self.scanner.wf()
        &&& 0 <= self.pos@ <= self.chars().len()
        &&& self.next_token@ == tok(self.chars(), self.pos@)
        &&& self.scanner.spec_index() == nxt(self.chars(), self.pos@)
    }

    /// A parser that has not started: its scanner still stands at the
    /// first codepoint.  Each parser parses one pattern, once.
    pub closed spec fn fresh(&self) -> bool {
        self.scanner.wf() && self.scanner.spec_index() == 0
    }

    pub fn new(input: &String) -> (p: Self)
        ensures
            p.fresh(),
            p.chars() == input@,
    {
        Parser {
            scanner: Scanner::new(input),
            next_token: Token::new(TokenType::Error, '\0'),
            pos: Ghost(0),
        }
    }

    /// Parses the whole pattern into its expression tree.
    pub fn parse(&mut self) -> (t: TreeNode)
        requires
            old(self).fresh(),
        ensures
            tree_view(t) == spec_parse(old(self).chars()),
    {
        self.next_token = self.scanner.scan_next();
        self.pos = Ghost(0);
        self.parse_root()
    }

    /// Advances to the next token.  The grammar's error handling happens
    /// at the match arms of each production, so eating is unconditional.
    fn eat(&mut self)
        requires
            old(self).wf(),
        ensures
            final(self).wf(),
            final(self).chars() == old(self).chars(),
            final(self).spec_pos() == nxt(old(self).chars(), old(self).spec_pos()),
            final(self).spec_pos() >= old(self).spec_pos(),
            old(self).spec_pos() < old(self).chars().len()
                ==> final(self).spec_pos() > old(self).spec_pos(),
    {
        proof {
            if self.pos@ < self.chars().len() {
                lemma_spec_scan_bounds(self.chars(), self.pos@);
            }
        }
        let ghost newp = self.scanner.spec_index();
        self.next_token = self.scanner.scan_next();
        self.pos = Ghost(newp);
    }

    fn parse_root(&mut self) -> (t: TreeNode)
        requires
            old(self).wf(),
        ensures
            final(self).wf(),
            final(self).chars() == old(self).chars(),
            tree_view(t) == spec_root(old(self).chars(), old(self).spec_pos()),
        decreases rem(self.chars(), self.spec_pos()), 6int,
    {
        let ghost cs = self.chars();
        let ghost p = self.spec_pos();
        match self.next_token.t_type {
            TokenType::Character | TokenType::Range | TokenType::LBracket | TokenType::LParen
                | TokenType::Union | TokenType::RParen | TokenType::EOF => {
                let mut root_node = TreeNode::new(NodeType::Group);
                let children = self.parse_expr();
                root_node.add_children(children);
                self.eat();
                proof {
                    assert(tree_view(root_node) =~~= spec_root(cs, p));
                }
                root_node
            },
            _ => TreeNode::new(NodeType::Error),
        }
    }

    fn parse_expr(&mut self) -> (v: Vec<TreeNode>)
        requires
            old(self).wf(),
        ensures
            final(self).wf(),
            final(self).chars() == old(self).chars(),
            trees_view(v@) == spec_expr(old(self).chars(), old(self).spec_pos()).0,
            final(self).spec_pos() == spec_expr(old(self).chars(), old(self).spec_pos()).1,
            final(self).spec_pos() >= old(self).spec_pos(),
        decreases rem(self.chars(), self.spec_pos()), 5int,
    {
        let ghost cs = self.chars();
        let ghost p = self.spec_pos();
        match self.next_token.t_type {
            TokenType::Character | TokenType::Range | TokenType::LBracket | TokenType::LParen
                | TokenType::Union => {
                proof {
                    assert(0 <= p < cs.len());
                }
                let mut sequence = self.parse_seq(TreeNode::new(NodeType::Empty));
                let ghost p1 = self.spec_pos();
                proof {
                    assert(at_least(p1, p) == p1);
                }
                let union_arg: TreeNode;
                if sequence.len() == 1 {
                    let first = sequence.pop().unwrap();
                    proof {
                        assert(tree_view(first) == spec_seq(cs, p, empty_node()).0[0]);
                    }
                    union_arg = first;
                } else {
                    union_arg = TreeNode::make_group(sequence, NodeType::Group);
                }
                let ghost ua = tree_view(union_arg);
                let un = self.parse_union(union_arg);
                let ghost p2 = self.spec_pos();
                proof {
                    if tok(cs, p).t_type == TokenType::Union {
                        assert(p1 == p);
                        assert(p2 >= p + 1);
                    } else {
                        assert(p1 >= p + 1);
                        assert(p2 >= p + 1);
                    }
                    assert(at_least(p2, p + 1) == p2);
                }
                let mut child_vec: Vec<TreeNode> = Vec::new();
                child_vec.push(un);
                let mut rest = self.parse_expr();
                child_vec.append(&mut rest);
                proof {
                    assert(trees_view(child_vec@) =~= spec_expr(cs, p).0);
                }
                child_vec
            },
            TokenType::RParen | TokenType::EOF => {
                let v: Vec<TreeNode> = Vec::new();
                proof {
                    assert(trees_view(v@) =~= spec_expr(cs, p).0);
                }
                v
            },
            _ => {
                let mut v: Vec<TreeNode> = Vec::new();
                v.push(TreeNode::new(NodeType::Error));
                proof {
                    assert(trees_view(v@) =~= spec_expr(cs, p).0);
                }
                v
            },
        }
    }

    fn parse_seq(&mut self, prev: TreeNode) -> (v: Vec<TreeNode>)
        requires
            old(self).wf(),
        ensures
            final(self).wf(),
            final(self).chars() == old(self).chars(),
            trees_view(v@) == spec_seq(old(self).chars(), old(self).spec_pos(), tree_view(prev)).0,
            final(self).spec_pos() == spec_seq(
                old(self).chars(),
                old(self).spec_pos(),
                tree_view(prev),
            ).1,
            final(self).spec_pos() >= old(self).spec_pos(),
            ({
                let t = tok(old(self).chars(), old(self).spec_pos()).t_type;
                t == TokenType::Character || t == TokenType::Range || t == TokenType::LBracket
                    || t == TokenType::LParen
            }) ==> final(self).spec_pos() > old(self).spec_pos(),
        decreases rem(self.chars(), self.spec_pos()), 4int,
    {
        let ghost cs = self.chars();
        let ghost p = self.spec_pos();
        let ghost prev_v = tree_view(prev);
        match self.next_token.t_type {
            TokenType::Character | TokenType::Range | TokenType::LBracket | TokenType::LParen => {
                proof {
                    assert(0 <= p < cs.len());
                }
                let atom_node = self.parse_atom();
                let ghost pa = self.spec_pos();
                proof {
                    assert(at_least(pa, p + 1) == pa);
                }
                let star_node = self.parse_star(atom_node);
                let ghost p2 = self.spec_pos();
                let ghost star_v = tree_view(star_node);
                proof {
                    assert(p2 >= p + 1);
                    assert(at_least(p2, p + 1) == p2);
                }
                if matches!(prev.n_type, NodeType::Word) && matches!(
                    star_node.n_type,
                    NodeType::Word,
                ) {
                    proof {
                        lemma_atom_word_shape(cs, p);
                        assert(star_v.image.len() == 1);
                    }
                    let c0 = star_node.image[0];
                    let mut merged = prev;
                    merged.image.push(c0);
                    proof {
                        assert(tree_view(merged) =~~= (SpecNode {
                            image: prev_v.image.push(star_v.image[0]),
                            ..prev_v
                        }));
                    }
                    self.parse_seq(merged)
                } else {
                    let mut child_vec: Vec<TreeNode> = Vec::new();
                    if !matches!(prev.n_type, NodeType::Empty) {
                        child_vec.push(prev);
                    }
                    let ghost lead = trees_view(child_vec@);
                    let mut rest = self.parse_seq(star_node);
                    let ghost rest0 = trees_view(rest@);
                    proof {
                        assert(lead =~= (if prev_v.n_type == NodeType::Empty {
                            seq![]
                        } else {
                            seq![prev_v]
                        }));
                    }
                    while rest.len() > 0
                        invariant
                            trees_view(child_vec@) + cull(trees_view(rest@)) == lead + cull(rest0),
                        decreases rest@.len(),
                    {
                        let ghost r0 = trees_view(rest@);
                        let ghost cv0 = trees_view(child_vec@);
                        let nn = rest.remove(0);
                        proof {
                            assert(trees_view(rest@) =~= r0.drop_first());
                            assert(cull(r0) =~= cull_one(tree_view(nn)) + cull(trees_view(rest@)));
                        }
                        if !matches!(nn.n_type, NodeType::Empty) {
                            child_vec.push(nn);
                            proof {
                                assert(trees_view(child_vec@) =~= cv0.push(
                                    cull_one(tree_view(nn))[0],
                                ));
                                assert(trees_view(child_vec@) + cull(trees_view(rest@)) =~= lead
                                    + cull(rest0));
                            }
                        } else {
                            proof {
                                assert(trees_view(child_vec@) + cull(trees_view(rest@)) =~= lead
                                    + cull(rest0));
                            }
                        }
                    }
                    proof {
                        assert(cull(trees_view(rest@)) =~= Seq::<SpecNode>::empty());
                        assert(trees_view(child_vec@) =~= lead + cull(rest0));
                        assert(trees_view(child_vec@) =~= spec_seq(cs, p, prev_v).0);
                    }
                    child_vec
                }
            },
            TokenType::Union | TokenType::RParen | TokenType::EOF => {
                let mut v: Vec<TreeNode> = Vec::new();
                v.push(prev);
                proof {
                    assert(trees_view(v@) =~= seq![prev_v]);
                }
                v
            },
            _ => {
                let mut v: Vec<TreeNode> = Vec::new();
                v.push(TreeNode::new(NodeType::Error));
                proof {
                    assert(trees_view(v@) =~= seq![error_node()]);
                }
                v
            },
        }
    }

    fn parse_atom(&mut self) -> (t: TreeNode)
        requires
            old(self).wf(),
        ensures
            final(self).wf(),
            final(self).chars() == old(self).chars(),
            tree_view(t) == spec_atom(old(self).chars(), old(self).spec_pos()).0,
            final(self).spec_pos() == spec_atom(old(self).chars(), old(self).spec_pos()).1,
            final(self).spec_pos() >= old(self).spec_pos(),
            ({
                let tt = tok(old(self).chars(), old(self).spec_pos()).t_type;
                tt == TokenType::Character || tt == TokenType::Range || tt == TokenType::LBracket
                    || tt == TokenType::LParen
            }) ==> final(self).spec_pos() > old(self).spec_pos(),
        decreases rem(self.chars(), self.spec_pos()), 3int,
    {
        let ghost cs = self.chars();
        let ghost p = self.spec_pos();
        match self.next_token.t_type {
            TokenType::Character => {
                let image = self.next_token.image;
                let mut word = TreeNode::new(NodeType::Word);
                word.image.push(image);
                self.eat();
                proof {
                    assert(tree_view(word) =~~= word_node(seq![tok(cs, p).image]));
                }
                word
            },
            TokenType::Range => {
                let mut ranges: Vec<CharRange> = Vec::new();
                let m = self.next_token.range.len();
                let mut k = m;
                while k > 0
                    invariant
                        self == old(self),
                        k <= m,
                        m == self.next_token.range@.len(),
                        ranges@.len() + k == m,
                        forall|j: int|
                            0 <= j < ranges@.len() ==> ranges@[j] == self.next_token.range@[m - 1
                                - j],
                    decreases k,
                {
                    k = k - 1;
                    let r = self.next_token.range[k];
                    ranges.push(r);
                }
                let mut cn = TreeNode::new(NodeType::Charset);
                cn.ranges = ranges;
                self.eat();
                proof {
                    assert(cn.ranges@ =~= tok(cs, p).ranges.reverse());
                    assert(tree_view(cn) =~~= charset_node(tok(cs, p).ranges.reverse()));
                }
                cn
            },
            TokenType::LParen => {
                proof {
                    assert(0 <= p < cs.len());
                }
                self.eat();
                proof {
                    assert(at_least(nxt(cs, p), p + 1) == self.spec_pos());
                }
                let expr_node = self.parse_expr();
                self.eat();
                let g = TreeNode::make_group(expr_node, NodeType::MatchGroup);
                proof {
                    assert(tree_view(g) =~~= spec_atom(cs, p).0);
                }
                g
            },
            TokenType::LBracket => {
                proof {
                    assert(0 <= p < cs.len());
                }
                self.eat();
                proof {
                    assert(at_least(nxt(cs, p), p + 1) == self.spec_pos());
                }
                let neg_node = self.parse_neg();
                self.eat();
                neg_node
            },
            _ => TreeNode::new(NodeType::Error),
        }
    }

    fn parse_star(&mut self, lhs: TreeNode) -> (t: TreeNode)
        requires
            old(self).wf(),
        ensures
            final(self).wf(),
            final(self).chars() == old(self).chars(),
            tree_view(t) == spec_star(old(self).chars(), old(self).spec_pos(), tree_view(lhs)).0,
            final(self).spec_pos() == spec_star(
                old(self).chars(),
                old(self).spec_pos(),
                tree_view(lhs),
            ).1,
            final(self).spec_pos() >= old(self).spec_pos(),
        decreases rem(self.chars(), self.spec_pos()), 3int,
    {
        let ghost cs = self.chars();
        let ghost p = self.spec_pos();
        let ghost lv = tree_view(lhs);
        match self.next_token.t_type {
            TokenType::Star => {
                let mut sn = TreeNode::new(NodeType::Star);
                sn.add_child(lhs);
                self.eat();
                proof {
                    assert(seq![lv].drop_first() =~= Seq::<SpecNode>::empty());
                    assert(cull(Seq::<SpecNode>::empty()) =~= Seq::<SpecNode>::empty());
                    assert(cull(seq![lv]) =~= cull_one(lv));
                    assert(tree_view(sn) =~~= star_node(lv, Bounds { min: 0, max: 0 }));
                }
                sn
            },
            TokenType::Question => {
                let mut sn = TreeNode::new(NodeType::Star);
                sn.add_child(lhs);
                sn.repeats = Bounds { min: 0, max: 1 };
                self.eat();
                proof {
                    assert(seq![lv].drop_first() =~= Seq::<SpecNode>::empty());
                    assert(cull(Seq::<SpecNode>::empty()) =~= Seq::<SpecNode>::empty());
                    assert(cull(seq![lv]) =~= cull_one(lv));
                    assert(tree_view(sn) =~~= star_node(lv, Bounds { min: 0, max: 1 }));
                }
                sn
            },
            TokenType::Plus => {
                let mut sn = TreeNode::new(NodeType::Star);
                sn.add_child(lhs);
                sn.repeats = Bounds { min: 1, max: 0 };
                self.eat();
                proof {
                    assert(seq![lv].drop_first() =~= Seq::<SpecNode>::empty());
                    assert(cull(Seq::<SpecNode>::empty()) =~= Seq::<SpecNode>::empty());
                    assert(cull(seq![lv]) =~= cull_one(lv));
                    assert(tree_view(sn) =~~= star_node(lv, Bounds { min: 1, max: 0 }));
                }
                sn
            },
            TokenType::Character | TokenType::Range | TokenType::LBracket | TokenType::LParen
                | TokenType::Union | TokenType::RParen | TokenType::EOF => lhs,
            _ => TreeNode::new(NodeType::Error),
        }
    }

    fn parse_union(&mut self, lhs: TreeNode) -> (t: TreeNode)
        requires
            old(self).wf(),
        ensures
            final(self).wf(),
            final(self).chars() == old(self).chars(),
            tree_view(t) == spec_union(old(self).chars(), old(self).spec_pos(), tree_view(lhs)).0,
            final(self).spec_pos() == spec_union(
                old(self).chars(),
                old(self).spec_pos(),
                tree_view(lhs),
            ).1,
            final(self).spec_pos() >= old(self).spec_pos(),
            tok(old(self).chars(), old(self).spec_pos()).t_type == TokenType::Union
                ==> final(self).spec_pos() > old(self).spec_pos(),
        decreases rem(self.chars(), self.spec_pos()), 4int,
    {
        let ghost cs = self.chars();
        let ghost p = self.spec_pos();
        let ghost lv = tree_view(lhs);
        match self.next_token.t_type {
            TokenType::Union => {
                proof {
                    assert(0 <= p < cs.len());
                }
                let mut un = TreeNode::new(NodeType::Union);
                if matches!(lhs.n_type, NodeType::Empty) {
                    un.add_child(TreeNode::new(NodeType::Word));
                } else {
                    un.add_child(lhs);
                }
                let ghost first = if lv.n_type == NodeType::Empty {
                    word_node(seq![])
                } else {
                    lv
                };
                proof {
                    assert(tree_view(un).children =~= seq![first]);
                }
                self.eat();
                proof {
                    assert(at_least(nxt(cs, p), p + 1) == self.spec_pos());
                }
                let expr_node = self.parse_expr();
                if expr_node.len() == 0 {
                    un.add_child(TreeNode::new(NodeType::Word));
                    proof {
                        assert(spec_node_new(NodeType::Word) == word_node(seq![]));
                        assert(tree_view(un).children =~= seq![first, word_node(seq![])]);
                        assert(tree_view(un) =~~= spec_union(cs, p, lv).0);
                    }
                } else {
                    un.add_children(expr_node);
                    proof {
                        assert(tree_view(un) =~~= spec_union(cs, p, lv).0);
                    }
                }
                un
            },
            TokenType::Character | TokenType::Range | TokenType::LBracket | TokenType::LParen
                | TokenType::RParen | TokenType::EOF => lhs,
            _ => TreeNode::new(NodeType::Error),
        }
    }

    fn parse_neg(&mut self) -> (t: TreeNode)
        requires
            old(self).wf(),
        ensures
            final(self).wf(),
            final(self).chars() == old(self).chars(),
            tree_view(t) == spec_neg(old(self).chars(), old(self).spec_pos()).0,
            final(self).spec_pos() == spec_neg(old(self).chars(), old(self).spec_pos()).1,
            final(self).spec_pos() >= old(self).spec_pos(),
        decreases rem(self.chars(), self.spec_pos()), 2int,
    {
        let ghost cs = self.chars();
        let ghost p = self.spec_pos();
        match self.next_token.t_type {
            TokenType::Caret => {
                proof {
                    assert(0 <= p < cs.len());
                }
                self.eat();
                proof {
                    assert(at_least(nxt(cs, p), p + 1) == self.spec_pos());
                }
                self.parse_charset(true)
            },
            TokenType::Character | TokenType::Range => self.parse_charset(false),
            _ => TreeNode::new(NodeType::Error),
        }
    }

    fn parse_charset(&mut self, negated: bool) -> (t: TreeNode)
        requires
            old(self).wf(),
        ensures
            final(self).wf(),
            final(self).chars() == old(self).chars(),
            tree_view(t) == spec_charset(old(self).chars(), old(self).spec_pos(), negated).0,
            final(self).spec_pos() == spec_charset(
                old(self).chars(),
                old(self).spec_pos(),
                negated,
            ).1,
            final(self).spec_pos() >= old(self).spec_pos(),
        decreases rem(self.chars(), self.spec_pos()), 1int,
    {
        let ghost cs = self.chars();
        let ghost p = self.spec_pos();
        match self.next_token.t_type {
            TokenType::Character | TokenType::Range => {
                self.parse_charset_items(negated, Vec::new(), TokenType::Error, false, false)
            },
            TokenType::RBracket => {
                let t = TreeNode::new(NodeType::Charset);
                proof {
                    assert(tree_view(t) =~~= charset_node(seq![]));
                }
                t
            },
            _ => TreeNode::new(NodeType::Error),
        }
    }

    fn parse_charset_items(
        &mut self,
        negated: bool,
        acc: Vec<CharRange>,
        last_type: TokenType,
        try_join: bool,
        try_bad: bool,
    ) -> (t: TreeNode)
        requires
            old(self).wf(),
        ensures
            final(self).wf(),
            final(self).chars() == old(self).chars(),
            tree_view(t) == spec_charset_items(
                old(self).chars(),
                old(self).spec_pos(),
                negated,
                acc@,
                last_type,
                try_join,
                try_bad,
            ).0,
            final(self).spec_pos() == spec_charset_items(
                old(self).chars(),
                old(self).spec_pos(),
                negated,
                acc@,
                last_type,
                try_join,
                try_bad,
            ).1,
            final(self).spec_pos() >= old(self).spec_pos(),
        decreases rem(self.chars(), self.spec_pos()), 0int,
    {
        let ghost cs = self.chars();
        let ghost p = self.spec_pos();
        let ghost acc0 = acc@;
        match self.next_token.t_type {
            TokenType::Character => {
                if try_bad {
                    return TreeNode::new(NodeType::Error);
                }
                proof {
                    assert(0 <= p < cs.len());
                }
                let c = self.next_token.image;
                self.eat();
                if try_join {
                    let mut acc = acc;
                    if acc.len() < 2 {
                        return TreeNode::new(NodeType::Error);
                    }
                    let _dash = acc.pop().unwrap();
                    let mut prev_range = acc.pop().unwrap();
                    prev_range.max = c as u32;
                    if prev_range.min > prev_range.max {
                        return TreeNode::new(NodeType::Error);
                    }
                    acc.push(prev_range);
                    proof {
                        assert(acc@ =~= acc0.take(acc0.len() - 2).push(
                            CharRange {
                                min: acc0[acc0.len() - 2].min,
                                max: c as u32,
                                negate: acc0[acc0.len() - 2].negate,
                            },
                        ));
                    }
                    self.parse_charset_items(negated, acc, TokenType::Error, false, false)
                } else {
                    let mut acc = acc;
                    acc.push(CharRange::new(c as u32, c as u32, negated));
                    let tj = c == '-' && matches!(last_type, TokenType::Character);
                    let tb = c == '-' && matches!(last_type, TokenType::Range);
                    proof {
                        assert(acc@ =~= acc0.push(
                            CharRange { min: c as u32, max: c as u32, negate: negated },
                        ));
                    }
                    self.parse_charset_items(negated, acc, TokenType::Character, tj, tb)
                }
            },
            TokenType::Range => {
                if try_bad {
                    return TreeNode::new(NodeType::Error);
                }
                if try_join {
                    return TreeNode::new(NodeType::Error);
                }
                proof {
                    assert(0 <= p < cs.len());
                }
                let mut acc = acc;
                let m = self.next_token.range.len();
                let mut k = m;
                while k > 0
                    invariant
                        self == old(self),
                        k <= m,
                        m == self.next_token.range@.len(),
                        acc@.len() == acc0.len() + m - k,
                        acc@.take(acc0.len() as int) == acc0,
                        forall|j: int|
                            acc0.len() <= j < acc@.len() ==> acc@[j] == self.next_token.range@[
                                m - 1 - (j - acc0.len())
                            ],
                    decreases k,
                {
                    k = k - 1;
                    let r = self.next_token.range[k];
                    proof {
                        let ghost accb = acc@;
                        assert(accb.push(r).take(acc0.len() as int) =~= accb.take(
                            acc0.len() as int,
                        ));
                    }
                    acc.push(r);
                }
                proof {
                    assert(acc@ =~= acc0 + tok(cs, p).ranges.reverse());
                }
                self.eat();
                self.parse_charset_items(negated, acc, TokenType::Range, false, false)
            },
            _ => {
                let mut cn = TreeNode::new(NodeType::Charset);
                cn.ranges = acc;
                proof {
                    assert(tree_view(cn) =~~= charset_node(acc0));
                }
                cn
            },
        }
    }
}

} // verus!
