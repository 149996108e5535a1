//! Parse trees and the order in which their nodes and edges are laid out.

use vstd::prelude::*;
use crate::grammar::{starts_atom, starts_expression, starts_operand, Nonterminal};
use crate::token::{Operations, TokenValue};

verus! {

/// The label of the node that stands for the empty alternative.
pub open spec fn epsilon_label() -> Seq<char> {
    "ε"@
}

/// A parse tree: a consumed token, the mark of an empty alternative, or a
/// nonterminal with the symbols of the production that was used for it.
pub enum ParseTree {
    Leaf(TokenValue),
    Epsilon,
    Node(Nonterminal, Seq<ParseTree>),
}

/// Whether `kids` are, from left to right, the symbols of one of the
/// productions of `symbol`, with a single `Epsilon` for the empty one:
///
/// ```text
/// S  -> "lambda" V ":" S'      A  -> "not" N | N
/// V  -> Variable V' | ε        N  -> Q N'
/// V' -> "," V | ε              N' -> "==" N | ε
/// S' -> S | E                  Q  -> T Q'
/// E  -> O E'                   Q' -> "+" Q | "-" Q | ε
/// E' -> "or" E | ε             T  -> F T'
/// O  -> A O'                   T' -> "*" T | "//" T | "%" T | ε
/// O' -> "and" O | ε            F  -> "+" C | "-" C | C
/// C  -> Variable | Number | "True" | "False" | "(" S' ")"
/// ```
pub open spec fn is_production(symbol: Nonterminal, kids: Seq<ParseTree>) -> bool {
    let n = kids.len();
    let empty = kids == seq![ParseTree::Epsilon];
    let first = kids[0];
    let second = kids[1];
    if symbol.is_chain() {
        n == 2 && first.stands_for(symbol.operand()) && second.stands_for(symbol.rest())
    } else if symbol.is_rest() {
        empty || (n == 2 && first is Leaf && symbol.goes_on_with(first->Leaf_0)
            && second.stands_for(symbol.operand()))
    } else {
        match symbol {
            Nonterminal::S => n == 4 && first == leaf(TokenValue::Lambda) && second.stands_for(
                Nonterminal::V,
            ) && kids[2] == leaf(TokenValue::Colon) && kids[3].stands_for(Nonterminal::Sp),
            Nonterminal::V => empty || (n == 2 && first is Leaf && first->Leaf_0 is Variable
                && second.stands_for(Nonterminal::Vp)),
            Nonterminal::Vp => empty || (n == 2 && first == leaf(TokenValue::Comma)
                && second.stands_for(Nonterminal::V)),
            Nonterminal::Sp => n == 1 && (first.stands_for(Nonterminal::S) || first.stands_for(
                Nonterminal::E,
            )),
            Nonterminal::A => (n == 2 && first == operator(Operations::Not) && second.stands_for(
                Nonterminal::N,
            )) || (n == 1 && first.stands_for(Nonterminal::N)),
            Nonterminal::F => (n == 2 && (first == operator(Operations::Add) || first == operator(
                Operations::Sub,
            )) && second.stands_for(Nonterminal::C)) || (n == 1 && first.stands_for(
                Nonterminal::C,
            )),
            _ => (n == 1 && first is Leaf && (first->Leaf_0 is Variable || first->Leaf_0 is Const))
                || (n == 3 && first == leaf(TokenValue::LParen) && second.stands_for(
                Nonterminal::Sp,
            ) && kids[2] == leaf(TokenValue::RParen)),
        }
    }
}

/// The leaf that holds `token`.
pub open spec fn leaf(token: TokenValue) -> ParseTree {
    ParseTree::Leaf(token)
}

/// The leaf that holds the operator `op`.
pub open spec fn operator(op: Operations) -> ParseTree {
    ParseTree::Leaf(TokenValue::Op(op))
}

/// Whether the token `ahead` selects the production `kids` of `symbol`,
/// where `kids` is one of its productions:
///
/// ```text
/// S   "lambda"                    A   "not" | what begins N
/// V   Variable | ":" for ε        N, Q, T  Variable, sign, constant, "("
/// V'  "," | ":" for ε             F   sign | Variable, constant, "("
/// S'  "lambda" | what begins E    C   Variable, constant | "("
/// E, O  what begins N, or "not"
/// E'  "or"          | for ε: ")" or the end of input
/// O'  "and"         | for ε: those and "or"
/// N'  "=="          | for ε: those and "and"
/// Q'  "+", "-"      | for ε: those and "=="
/// T'  "*", "//", "%" | for ε: those and "+", "-"
/// ```
pub open spec fn is_selected(symbol: Nonterminal, ahead: TokenValue, kids: Seq<ParseTree>) -> bool {
    let empty = kids == seq![ParseTree::Epsilon];
    let sign = ahead == TokenValue::Op(Operations::Add) || ahead == TokenValue::Op(
        Operations::Sub,
    );
    if symbol.is_chain() {
        symbol.begins_with(ahead)
    } else if symbol.is_rest() {
        if empty {
            symbol.ends_before(ahead)
        } else {
            symbol.goes_on_with(ahead)
        }
    } else {
        match symbol {
            Nonterminal::S => ahead is Lambda,
            Nonterminal::V => if empty {
                ahead is Colon
            } else {
                ahead is Variable
            },
            Nonterminal::Vp => if empty {
                ahead is Colon
            } else {
                ahead is Comma
            },
            Nonterminal::Sp => if kids[0].stands_for(Nonterminal::S) {
                ahead is Lambda
            } else {
                starts_expression(ahead)
            },
            Nonterminal::A => if kids.len() == 2 {
                ahead == TokenValue::Op(Operations::Not)
            } else {
                starts_operand(ahead)
            },
            Nonterminal::F => if kids.len() == 2 {
                sign
            } else {
                starts_atom(ahead)
            },
            _ => if kids.len() == 1 {
                ahead is Variable || ahead is Const
            } else {
                ahead is LParen
            },
        }
    }
}

impl ParseTree {
    /// Whether at every nonterminal in the tree the token that stood ahead
    /// selects the production that was used, where `next` is the token
    /// that follows the tree's last token. The token ahead of a node is the
    /// first token at or after it.
    pub open spec fn follows_lookahead(self, next: TokenValue) -> bool
        decreases self,
    {
        match self {
            ParseTree::Node(symbol, kids) => {
                let all = self.tokens().push(next);
                &&& is_selected(symbol, all[0], kids)
                &&& forall|i: int|
                    0 <= i < kids.len() ==> (#[trigger] kids[i]).follows_lookahead(
                        all[self.tokens_below((i + 1) as nat).len() as int],
                    )
            },
            _ => true,
        }
    }

    /// Whether the tree's root is a node of `symbol`.
    pub open spec fn stands_for(self, symbol: Nonterminal) -> bool {
        self is Node && self->Node_0 == symbol
    }

    /// Whether every nonterminal in the tree has the symbols of one of its
    /// productions as its children.
    pub open spec fn conforms(self) -> bool
        decreases self,
    {
        match self {
            ParseTree::Node(symbol, kids) => is_production(symbol, kids) && forall|i: int|
                0 <= i < kids.len() ==> (#[trigger] kids[i]).conforms(),
            _ => true,
        }
    }

    /// The node's label.
    pub open spec fn label(self) -> Seq<char> {
        match self {
            ParseTree::Leaf(token) => token.spelling(),
            ParseTree::Epsilon => epsilon_label(),
            ParseTree::Node(symbol, _) => symbol.name(),
        }
    }

    /// The node's children, from left to right.
    pub open spec fn children(self) -> Seq<ParseTree> {
        match self {
            ParseTree::Node(_, children) => children,
            _ => Seq::empty(),
        }
    }

    /// The labels of all nodes, each node before its children and the
    /// children from left to right.
    pub open spec fn labels(self) -> Seq<Seq<char>>
        decreases self, 1nat, 0nat,
    {
        seq![self.label()] + self.labels_below(self.children().len())
    }

    /// The labels of the nodes under the first `k` children.
    pub open spec fn labels_below(self, k: nat) -> Seq<Seq<char>>
        decreases self, 0nat, k,
    {
        if k == 0 || k > self.children().len() {
            Seq::empty()
        } else {
            self.labels_below((k - 1) as nat) + self.children()[k - 1].labels()
        }
    }

    /// The number of nodes.
    pub open spec fn size(self) -> nat {
        self.labels().len()
    }

    /// The edges of the tree whose nodes are numbered from `base` on in the
    /// order of `labels`: for each child in turn the edges below it, then
    /// the edge that leads to it.
    pub open spec fn edges(self, base: int) -> Seq<(int, int)>
        decreases self, 1nat, 0nat,
    {
        self.edges_below(self.children().len(), base)
    }

    /// The edges to and under the first `k` children of the node `base`.
    pub open spec fn edges_below(self, k: nat, base: int) -> Seq<(int, int)>
        decreases self, 0nat, k,
    {
        if k == 0 || k > self.children().len() {
            Seq::empty()
        } else {
            let child = base + 1 + self.labels_below((k - 1) as nat).len();
            self.edges_below((k - 1) as nat, base) + self.children()[k - 1].edges(child).push(
                (base, child),
            )
        }
    }

    /// The labels of the leaves that hold a token, from left to right.
    pub open spec fn terminals(self) -> Seq<Seq<char>>
        decreases self, 1nat, 0nat,
    {
        match self {
            ParseTree::Leaf(_) => seq![self.label()],
            ParseTree::Epsilon => Seq::empty(),
            ParseTree::Node(_, children) => self.terminals_below(children.len()),
        }
    }

    /// The labels of the leaves that hold a token under the first `k`
    /// children.
    pub open spec fn terminals_below(self, k: nat) -> Seq<Seq<char>>
        decreases self, 0nat, k,
    {
        if k == 0 || k > self.children().len() {
            Seq::empty()
        } else {
            self.terminals_below((k - 1) as nat) + self.children()[k - 1].terminals()
        }
    }

    /// Whether every nonterminal in the tree has a child, and every mark of
    /// an empty alternative is the only child of its parent.
    pub open spec fn marks_empty_alternatives(self) -> bool
        decreases self,
    {
        match self {
            ParseTree::Node(_, kids) => {
                &&& kids.len() > 0
                &&& forall|i: int| 0 <= i < kids.len() && kids[i] is Epsilon ==> kids.len() == 1
                &&& forall|i: int| 0 <= i < kids.len() ==> (#[trigger] kids[i])
                    .marks_empty_alternatives()
            },
            _ => true,
        }
    }

    /// The tokens at the leaves, from left to right.
    pub open spec fn tokens(self) -> Seq<TokenValue>
        decreases self, 1nat, 0nat,
    {
        match self {
            ParseTree::Leaf(token) => seq![token],
            ParseTree::Epsilon => Seq::empty(),
            ParseTree::Node(_, children) => self.tokens_below(children.len()),
        }
    }

    /// The tokens at the leaves under the first `k` children.
    pub open spec fn tokens_below(self, k: nat) -> Seq<TokenValue>
        decreases self, 0nat, k,
    {
        if k == 0 || k > self.children().len() {
            Seq::empty()
        } else {
            self.tokens_below((k - 1) as nat) + self.children()[k - 1].tokens()
        }
    }
}

/// A leaf is one node without edges that holds its token.
pub proof fn lemma_leaf(token: TokenValue, base: int)
    ensures
        ParseTree::Leaf(token).labels() == seq![token.spelling()],
        ParseTree::Leaf(token).edges(base) == Seq::<(int, int)>::empty(),
        ParseTree::Leaf(token).tokens() == seq![token],
{
    assert(ParseTree::Leaf(token).labels() =~= seq![token.spelling()]);
}

/// The mark of an empty alternative is one node without edges and tokens.
pub proof fn lemma_epsilon(base: int)
    ensures
        ParseTree::Epsilon.labels() == seq![epsilon_label()],
        ParseTree::Epsilon.edges(base) == Seq::<(int, int)>::empty(),
        ParseTree::Epsilon.tokens() == Seq::<TokenValue>::empty(),
{
    assert(ParseTree::Epsilon.labels() =~= seq![epsilon_label()]);
}

/// A nonterminal without children is one node without edges and tokens.
pub proof fn lemma_bare(symbol: Nonterminal, base: int)
    ensures
        ParseTree::Node(symbol, Seq::empty()).labels() == seq![symbol.name()],
        ParseTree::Node(symbol, Seq::empty()).edges(base) == Seq::<(int, int)>::empty(),
        ParseTree::Node(symbol, Seq::empty()).tokens() == Seq::<TokenValue>::empty(),
{
    assert(ParseTree::Node(symbol, Seq::empty()).labels() =~= seq![symbol.name()]);
}

/// What lies under the first `k` children depends on those children alone.
pub proof fn lemma_below_prefix(a: ParseTree, b: ParseTree, k: nat, base: int)
    requires
        k <= a.children().len(),
        k <= b.children().len(),
        forall|i: int| 0 <= i < k ==> a.children()[i] == b.children()[i],
    ensures
        a.labels_below(k) == b.labels_below(k),
        a.edges_below(k, base) == b.edges_below(k, base),
        a.tokens_below(k) == b.tokens_below(k),
    decreases k,
{
    if k > 0 {
        lemma_below_prefix(a, b, (k - 1) as nat, base);
    }
}

/// One more child at the right end: its nodes and tokens come after those
/// of the tree so far, and so do its edges, followed by the edge that leads
/// to it.
pub proof fn lemma_grow(symbol: Nonterminal, kids: Seq<ParseTree>, child: ParseTree, base: int)
    ensures
        ({
            let before = ParseTree::Node(symbol, kids);
            let grown = ParseTree::Node(symbol, kids.push(child));
            &&& grown.labels() == before.labels() + child.labels()
            &&& grown.edges(base) == before.edges(base) + child.edges(base + before.size()).push(
                (base, base + before.size()),
            )
            &&& grown.tokens() == before.tokens() + child.tokens()
        }),
{
    let before = ParseTree::Node(symbol, kids);
    let grown = ParseTree::Node(symbol, kids.push(child));
    let n = kids.len();
    lemma_below_prefix(before, grown, n, base);
    assert(grown.children()[n as int] == child);
    assert(grown.labels() =~= before.labels() + child.labels());
    assert(before.size() == 1 + before.labels_below(n).len());
}

/// A tree has one edge fewer than it has nodes.
pub proof fn lemma_edges_len(tree: ParseTree, base: int)
    ensures
        tree.edges(base).len() + 1 == tree.size(),
    decreases tree, 1nat, 0nat,
{
    lemma_edges_below_len(tree, tree.children().len(), base);
}

/// Under the first `k` children lie as many edges as nodes.
pub proof fn lemma_edges_below_len(tree: ParseTree, k: nat, base: int)
    ensures
        tree.edges_below(k, base).len() == tree.labels_below(k).len(),
    decreases tree, 0nat, k,
{
    if k == 0 || k > tree.children().len() {
    } else {
        lemma_edges_below_len(tree, (k - 1) as nat, base);
        let child = base + 1 + tree.labels_below((k - 1) as nat).len();
        lemma_edges_len(tree.children()[k - 1], child);
    }
}

/// The nodes and tokens of a nonterminal with one child.
pub proof fn lemma_node1(symbol: Nonterminal, a: ParseTree)
    ensures
        ParseTree::Node(symbol, seq![a]).labels() == seq![symbol.name()] + a.labels(),
        ParseTree::Node(symbol, seq![a]).tokens() == a.tokens(),
        ParseTree::Node(symbol, seq![a]).size() == 1 + a.size(),
{
    lemma_bare(symbol, 0);
    lemma_grow(symbol, Seq::empty(), a, 0);
    assert(Seq::<ParseTree>::empty().push(a) =~= seq![a]);
    assert(Seq::<TokenValue>::empty() + a.tokens() =~= a.tokens());
}

/// The nodes and tokens of a nonterminal with two children.
pub proof fn lemma_node2(symbol: Nonterminal, a: ParseTree, b: ParseTree)
    ensures
        ParseTree::Node(symbol, seq![a, b]).labels() == seq![symbol.name()] + a.labels()
            + b.labels(),
        ParseTree::Node(symbol, seq![a, b]).tokens() == a.tokens() + b.tokens(),
        ParseTree::Node(symbol, seq![a, b]).size() == 1 + a.size() + b.size(),
{
    lemma_node1(symbol, a);
    lemma_grow(symbol, seq![a], b, 0);
    assert(seq![a].push(b) =~= seq![a, b]);
}

/// The nodes and tokens of a nonterminal with three children.
pub proof fn lemma_node3(symbol: Nonterminal, a: ParseTree, b: ParseTree, c: ParseTree)
    ensures
        ParseTree::Node(symbol, seq![a, b, c]).labels() == seq![symbol.name()] + a.labels()
            + b.labels() + c.labels(),
        ParseTree::Node(symbol, seq![a, b, c]).tokens() == a.tokens() + b.tokens() + c.tokens(),
        ParseTree::Node(symbol, seq![a, b, c]).size() == 1 + a.size() + b.size() + c.size(),
{
    lemma_node2(symbol, a, b);
    lemma_grow(symbol, seq![a, b], c, 0);
    assert(seq![a, b].push(c) =~= seq![a, b, c]);
}

/// The nodes and tokens of a nonterminal with four children.
pub proof fn lemma_node4(
    symbol: Nonterminal,
    a: ParseTree,
    b: ParseTree,
    c: ParseTree,
    d: ParseTree,
)
    ensures
        ParseTree::Node(symbol, seq![a, b, c, d]).labels() == seq![symbol.name()] + a.labels()
            + b.labels() + c.labels() + d.labels(),
        ParseTree::Node(symbol, seq![a, b, c, d]).tokens() == a.tokens() + b.tokens()
            + c.tokens() + d.tokens(),
        ParseTree::Node(symbol, seq![a, b, c, d]).size() == 1 + a.size() + b.size() + c.size()
            + d.size(),
{
    lemma_node3(symbol, a, b, c);
    lemma_grow(symbol, seq![a, b, c], d, 0);
    assert(seq![a, b, c].push(d) =~= seq![a, b, c, d]);
}

/// The spellings of the tokens, in their order.
pub open spec fn spellings(tokens: Seq<TokenValue>) -> Seq<Seq<char>> {
    tokens.map_values(|token: TokenValue| token.spelling())
}

/// The leaves that hold a token are labelled with the spellings of the
/// tree's tokens, in the same order.
pub proof fn lemma_terminals_spell_tokens(tree: ParseTree)
    ensures
        tree.terminals() == spellings(tree.tokens()),
    decreases tree, 1nat, 0nat,
{
    match tree {
        ParseTree::Node(_, kids) => {
            lemma_terminals_below(tree, kids.len());
        },
        _ => {
            assert(tree.terminals() =~= spellings(tree.tokens()));
        },
    }
}

/// The same under the first `k` children.
pub proof fn lemma_terminals_below(tree: ParseTree, k: nat)
    ensures
        tree.terminals_below(k) == spellings(tree.tokens_below(k)),
    decreases tree, 0nat, k,
{
    if k == 0 || k > tree.children().len() {
        assert(tree.terminals_below(k) =~= spellings(tree.tokens_below(k)));
    } else {
        lemma_terminals_below(tree, (k - 1) as nat);
        lemma_terminals_spell_tokens(tree.children()[k - 1]);
        assert(tree.terminals_below(k) =~= spellings(tree.tokens_below(k)));
    }
}

/// In a tree that follows the grammar every nonterminal has a child, and
/// the mark of an empty alternative is an only child.
pub proof fn lemma_conforming_marks_empty(tree: ParseTree)
    requires
        tree.conforms(),
    ensures
        tree.marks_empty_alternatives(),
    decreases tree,
{
    match tree {
        ParseTree::Node(symbol, kids) => {
            assert forall|i: int| 0 <= i < kids.len() implies (#[trigger] kids[i])
                .marks_empty_alternatives() by {
                lemma_conforming_marks_empty(kids[i]);
            }
            assert(seq![ParseTree::Epsilon].len() == 1);
        },
        _ => {},
    }
}

/// Whether the edges join nodes numbered from `first` up to, but not
/// including, `end` into trees whose roots are `root` and, if there are
/// any, nodes before `first`: every edge leads from a node to a later one
/// that is numbered from `first` on, and no node has two edges that lead
/// to it.
pub open spec fn is_forest(edges: Seq<(int, int)>, root: int, first: int, end: int) -> bool {
    &&& forall|i: int|
        0 <= i < edges.len() ==> root <= (#[trigger] edges[i]).0 < edges[i].1 && first
            <= edges[i].1 < end
    &&& forall|i: int, j: int|
        0 <= i < j < edges.len() ==> (#[trigger] edges[i]).1 != (#[trigger] edges[j]).1
}

/// The edges of a tree whose nodes are numbered from `base` on make a tree
/// with the root `base`: there is one edge fewer than there are nodes,
/// every edge leads from a node of the tree to a later one, and no node has
/// two edges that lead to it, so that every node but the root has exactly
/// one parent.
pub proof fn lemma_edges_make_a_tree(tree: ParseTree, base: int)
    ensures
        tree.edges(base).len() + 1 == tree.size(),
        is_forest(tree.edges(base), base, base + 1, base + tree.size()),
    decreases tree, 1nat, 0nat,
{
    lemma_edges_len(tree, base);
    lemma_edges_below_make_trees(tree, tree.children().len(), base);
}

/// The same for the edges to and under the first `k` children.
pub proof fn lemma_edges_below_make_trees(tree: ParseTree, k: nat, base: int)
    ensures
        is_forest(
            tree.edges_below(k, base),
            base,
            base + 1,
            base + 1 + tree.labels_below(k).len(),
        ),
    decreases tree, 0nat, k,
{
    if k == 0 || k > tree.children().len() {
    } else {
        let before = tree.edges_below((k - 1) as nat, base);
        let child = base + 1 + tree.labels_below((k - 1) as nat).len();
        let kid = tree.children()[k - 1];
        let under = kid.edges(child);
        let all = tree.edges_below(k, base);
        lemma_edges_below_make_trees(tree, (k - 1) as nat, base);
        lemma_edges_make_a_tree(kid, child);
        assert(all =~= before + under.push((base, child)));
        assert forall|i: int| 0 <= i < all.len() implies (if i < before.len() {
            all[i] == before[i] && all[i].1 < child
        } else if i < before.len() + under.len() {
            all[i] == under[i - before.len()] && all[i].1 > child
        } else {
            all[i] == (base, child)
        }) by {}
    }
}

/// The tokens under the first `k` children come first among the tree's
/// tokens.
pub proof fn lemma_tokens_below_first(tree: ParseTree, k: nat)
    requires
        tree is Node,
        k <= tree.children().len(),
    ensures
        tree.tokens_below(k).len() <= tree.tokens().len(),
        tree.tokens_below(k) == tree.tokens().take(tree.tokens_below(k).len() as int),
    decreases tree.children().len() - k,
{
    if k < tree.children().len() {
        lemma_tokens_below_first(tree, k + 1);
        assert(tree.tokens_below(k) =~= tree.tokens().take(tree.tokens_below(k).len() as int));
    } else {
        assert(tree.tokens_below(k) =~= tree.tokens().take(tree.tokens_below(k).len() as int));
    }
}

} // verus!
