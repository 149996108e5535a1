//! Derivations: the one parse tree that the current token selects at every
//! step, and what holds of every such tree.

use vstd::prelude::*;
use crate::grammar::{
    starts_atom, starts_expression, starts_operand, Nonterminal, ParseFailure, NODES_PER_STEP,
};
use crate::lexer::{
    lemma_after_add, lemma_after_weight, lemma_scan_weight, lemma_yields_at,
    lemma_yields_concat, lemma_yields_step, LexicalError, ScanState,
};
use crate::token::{Operations, TokenValue};
use crate::tree::{
    is_production, is_selected, lemma_conforming_marks_empty, lemma_epsilon, lemma_leaf,
    lemma_node1, lemma_node2, lemma_node3, lemma_node4, lemma_terminals_spell_tokens,
    lemma_tokens_below_first, spellings, ParseTree,
};

verus! {

/// A node for the empty alternative of `symbol`.
pub open spec fn empty_node(symbol: Nonterminal) -> ParseTree {
    ParseTree::Node(symbol, seq![ParseTree::Epsilon])
}

/// One step of the scanner as a step of a derivation.
pub open spec fn shift(s: ScanState) -> Result<ScanState, ParseFailure> {
    match s.scan() {
        Ok(next) => Ok(next),
        Err(e) => Err(ParseFailure::Lexical(e)),
    }
}

/// The derivation of `symbol` from the state `s`, as a parser with one token
/// of lookahead finds it: at every step the current token selects the
/// production, a terminal consumes the current token, and the first token
/// that selects nothing, or that is not the terminal which the production
/// asks for, ends the derivation with that token as the failure. A
/// derivation that succeeds leaves the scanner
/// `s.after(tree.tokens().len())`: it has consumed the tokens at its leaves.
/// The result is `Ok(tree)` exactly for the one tree with
/// `is_derivation(symbol, s, tree)`, if there is one.
pub open spec fn expand(symbol: Nonterminal, s: ScanState) -> Result<ParseTree, ParseFailure>
    decreases s.weight(), symbol.rank(),
    via expand_decreases
{
    let token = s.token;
    let unexpected = Err::<ParseTree, ParseFailure>(ParseFailure::Syntax(token));
    if symbol.is_chain() {
        // X -> Y X'
        if !symbol.begins_with(token) {
            unexpected
        } else {
            match expand(symbol.operand(), s) {
                Err(e) => Err(e),
                Ok(first) => match expand(symbol.rest(), s.after(first.tokens().len())) {
                    Err(e) => Err(e),
                    Ok(rest) => Ok(ParseTree::Node(symbol, seq![first, rest])),
                },
            }
        }
    } else if symbol.is_rest() {
        // X' -> operator X | ε
        if symbol.goes_on_with(token) {
            match shift(s) {
                Err(e) => Err(e),
                Ok(s1) => match expand(symbol.operand(), s1) {
                    Err(e) => Err(e),
                    Ok(chain) => Ok(ParseTree::Node(symbol, seq![ParseTree::Leaf(token), chain])),
                },
            }
        } else if symbol.ends_before(token) {
            Ok(empty_node(symbol))
        } else {
            unexpected
        }
    } else {
        match symbol {
            // S -> "lambda" V ":" S'
            Nonterminal::S => if !(token is Lambda) {
                unexpected
            } else {
                match shift(s) {
                    Err(e) => Err(e),
                    Ok(s1) => match expand(Nonterminal::V, s1) {
                        Err(e) => Err(e),
                        Ok(vars) => {
                            let s2 = s1.after(vars.tokens().len());
                            if !(s2.token is Colon) {
                                Err(ParseFailure::Syntax(s2.token))
                            } else {
                                match shift(s2) {
                                    Err(e) => Err(e),
                                    Ok(s3) => match expand(Nonterminal::Sp, s3) {
                                        Err(e) => Err(e),
                                        Ok(body) => Ok(
                                            ParseTree::Node(
                                                symbol,
                                                seq![
                                                    ParseTree::Leaf(token),
                                                    vars,
                                                    ParseTree::Leaf(s2.token),
                                                    body,
                                                ],
                                            ),
                                        ),
                                    },
                                }
                            }
                        },
                    },
                }
            },
            // V -> Variable V' | ε
            Nonterminal::V => if token is Variable {
                match shift(s) {
                    Err(e) => Err(e),
                    Ok(s1) => match expand(Nonterminal::Vp, s1) {
                        Err(e) => Err(e),
                        Ok(more) => Ok(ParseTree::Node(symbol, seq![ParseTree::Leaf(token), more])),
                    },
                }
            } else if token is Colon {
                Ok(empty_node(symbol))
            } else {
                unexpected
            },
            // V' -> "," V | ε
            Nonterminal::Vp => if token is Comma {
                match shift(s) {
                    Err(e) => Err(e),
                    Ok(s1) => match expand(Nonterminal::V, s1) {
                        Err(e) => Err(e),
                        Ok(more) => Ok(ParseTree::Node(symbol, seq![ParseTree::Leaf(token), more])),
                    },
                }
            } else if token is Colon {
                Ok(empty_node(symbol))
            } else {
                unexpected
            },
            // S' -> S | E
            Nonterminal::Sp => if token is Lambda {
                match expand(Nonterminal::S, s) {
                    Err(e) => Err(e),
                    Ok(inner) => Ok(ParseTree::Node(symbol, seq![inner])),
                }
            } else if starts_expression(token) {
                match expand(Nonterminal::E, s) {
                    Err(e) => Err(e),
                    Ok(inner) => Ok(ParseTree::Node(symbol, seq![inner])),
                }
            } else {
                unexpected
            },
            // A -> "not" N | N
            Nonterminal::A => if token == TokenValue::Op(Operations::Not) {
                match shift(s) {
                    Err(e) => Err(e),
                    Ok(s1) => match expand(Nonterminal::N, s1) {
                        Err(e) => Err(e),
                        Ok(inner) => Ok(
                            ParseTree::Node(symbol, seq![ParseTree::Leaf(token), inner]),
                        ),
                    },
                }
            } else if starts_operand(token) {
                match expand(Nonterminal::N, s) {
                    Err(e) => Err(e),
                    Ok(inner) => Ok(ParseTree::Node(symbol, seq![inner])),
                }
            } else {
                unexpected
            },
            // F -> "+" C | "-" C | C
            Nonterminal::F => if token == TokenValue::Op(Operations::Add) || token
                == TokenValue::Op(Operations::Sub) {
                match shift(s) {
                    Err(e) => Err(e),
                    Ok(s1) => match expand(Nonterminal::C, s1) {
                        Err(e) => Err(e),
                        Ok(inner) => Ok(
                            ParseTree::Node(symbol, seq![ParseTree::Leaf(token), inner]),
                        ),
                    },
                }
            } else if starts_atom(token) {
                match expand(Nonterminal::C, s) {
                    Err(e) => Err(e),
                    Ok(inner) => Ok(ParseTree::Node(symbol, seq![inner])),
                }
            } else {
                unexpected
            },
            // C -> Variable | Number | "True" | "False" | "(" S' ")"
            _ => if token is Variable || token is Const {
                match shift(s) {
                    Err(e) => Err(e),
                    Ok(_) => Ok(ParseTree::Node(symbol, seq![ParseTree::Leaf(token)])),
                }
            } else if token is LParen {
                match shift(s) {
                    Err(e) => Err(e),
                    Ok(s1) => match expand(Nonterminal::Sp, s1) {
                        Err(e) => Err(e),
                        Ok(inner) => {
                            let s2 = s1.after(inner.tokens().len());
                            if !(s2.token is RParen) {
                                Err(ParseFailure::Syntax(s2.token))
                            } else {
                                match shift(s2) {
                                    Err(e) => Err(e),
                                    Ok(_) => Ok(
                                        ParseTree::Node(
                                            symbol,
                                            seq![
                                                ParseTree::Leaf(token),
                                                inner,
                                                ParseTree::Leaf(s2.token),
                                            ],
                                        ),
                                    ),
                                }
                            }
                        },
                    },
                }
            } else {
                unexpected
            },
        }
    }
}

#[via_fn]
proof fn expand_decreases(symbol: Nonterminal, s: ScanState) {
    assert forall|x: ScanState| #[trigger] x.scan() is Ok implies x.scan()->Ok_0.weight()
        <= x.weight() && (!(x.token is End) ==> x.scan()->Ok_0.weight() < x.weight()) by {
        lemma_scan_weight(x);
    }
    assert forall|x: ScanState, n: nat| #[trigger] x.after(n).weight() <= x.weight() by {
        lemma_after_weight(x, n);
    }
}

/// Whether `tree` is the derivation of `symbol` that the tokens from `s` on
/// select: it is a node of that symbol, every node in it has the symbols
/// of a production as its children, the tokens at its leaves are the
/// tokens that the scanner hands out from `s` on, and at every node the
/// token that stood ahead selects the production that was used.
pub open spec fn is_derivation(symbol: Nonterminal, s: ScanState, tree: ParseTree) -> bool {
    &&& tree.stands_for(symbol)
    &&& tree.conforms()
    &&& s.yields(tree.tokens())
    &&& tree.follows_lookahead(s.after(tree.tokens().len()).token)
}

/// What holds of the tree that a derivation of `symbol` from `s` gives: it
/// is the derivation that the tokens select, and its size is within what
/// the steps over its tokens pay for.
pub open spec fn sound(symbol: Nonterminal, s: ScanState, tree: ParseTree) -> bool {
    &&& is_derivation(symbol, s, tree)
    &&& tree.size() + NODES_PER_STEP * s.after(tree.tokens().len()).weight() <= NODES_PER_STEP
        * s.weight() + symbol.allowance()
}

/// A node at which the token ahead selects the production, over children
/// each of which follows the token ahead of it.
proof fn lemma_node_follows(symbol: Nonterminal, kids: Seq<ParseTree>, s: ScanState)
    requires
        s.yields(ParseTree::Node(symbol, kids).tokens()),
        is_selected(symbol, s.token, kids),
        forall|i: int|
            0 <= i < kids.len() ==> (#[trigger] kids[i]).follows_lookahead(
                s.after(ParseTree::Node(symbol, kids).tokens_below((i + 1) as nat).len()).token,
            ),
    ensures
        ParseTree::Node(symbol, kids).follows_lookahead(
            s.after(ParseTree::Node(symbol, kids).tokens().len()).token,
        ),
{
    let tree = ParseTree::Node(symbol, kids);
    let tokens = tree.tokens();
    let all = tokens.push(s.after(tokens.len()).token);
    lemma_yields_at(s, tokens, 0);
    assert(all[0] == s.token);
    assert forall|i: int| 0 <= i < kids.len() implies (#[trigger] kids[i]).follows_lookahead(
        all[tree.tokens_below((i + 1) as nat).len() as int],
    ) by {
        let m = tree.tokens_below((i + 1) as nat).len();
        lemma_tokens_below_first(tree, (i + 1) as nat);
        lemma_yields_at(s, tokens, m);
    }
}

/// A token that was consumed, as a tree of its own.
proof fn lemma_shifted(s: ScanState, rest: Seq<TokenValue>)
    requires
        !(s.token is End),
        s.scan() is Ok,
        s.scan()->Ok_0.yields(rest),
    ensures
        s.yields(ParseTree::Leaf(s.token).tokens() + rest),
        s.after(rest.len() + 1) == s.scan()->Ok_0.after(rest.len()),
        s.scan()->Ok_0.weight() < s.weight(),
        ParseTree::Leaf(s.token).size() == 1,
        ParseTree::Leaf(s.token).conforms(),
{
    lemma_leaf(s.token, 0);
    lemma_yields_step(s, rest);
    lemma_scan_weight(s);
}

/// The empty alternative is sound wherever it is a production.
proof fn lemma_sound_empty(symbol: Nonterminal, s: ScanState)
    requires
        symbol.is_rest() || symbol is V || symbol is Vp,
        is_selected(symbol, s.token, seq![ParseTree::Epsilon]),
    ensures
        sound(symbol, s, empty_node(symbol)),
{
    let tree = empty_node(symbol);
    lemma_epsilon(0);
    lemma_node1(symbol, ParseTree::Epsilon);
    assert(tree.tokens().len() == 0);
    assert(s.after(0) == s);
    assert(tree.size() == 2);
    assert(is_production(symbol, seq![ParseTree::Epsilon]));
    assert(ParseTree::Epsilon.conforms());
    assert(tree.conforms());
    lemma_node_follows(symbol, seq![ParseTree::Epsilon], s);
}

/// A production that is one nonterminal: `inner` derived from the same
/// state.
proof fn lemma_sound_unit(symbol: Nonterminal, other: Nonterminal, s: ScanState, inner: ParseTree)
    requires
        sound(other, s, inner),
        is_production(symbol, seq![inner]),
        1 + other.allowance() <= symbol.allowance(),
    ensures
        sound(symbol, s, ParseTree::Node(symbol, seq![inner])),
{
    lemma_node1(symbol, inner);
    let tree = ParseTree::Node(symbol, seq![inner]);
    assert(tree.conforms());
}

/// A production that is a terminal and a nonterminal: the current token is
/// consumed and `inner` derived from the next state.
proof fn lemma_sound_shift(symbol: Nonterminal, other: Nonterminal, s: ScanState, inner: ParseTree)
    requires
        !(s.token is End),
        s.scan() is Ok,
        sound(other, s.scan()->Ok_0, inner),
        is_production(symbol, seq![ParseTree::Leaf(s.token), inner]),
        is_selected(symbol, s.token, seq![ParseTree::Leaf(s.token), inner]),
        2 + other.allowance() <= symbol.allowance() + NODES_PER_STEP,
    ensures
        sound(symbol, s, ParseTree::Node(symbol, seq![ParseTree::Leaf(s.token), inner])),
{
    let leaf = ParseTree::Leaf(s.token);
    lemma_node2(symbol, leaf, inner);
    lemma_shifted(s, inner.tokens());
    let tree = ParseTree::Node(symbol, seq![leaf, inner]);
    assert(tree.conforms());
    assert(tree.tokens().len() == inner.tokens().len() + 1);
    assert(tree.tokens_below(2) == tree.tokens());
    lemma_node_follows(symbol, seq![leaf, inner], s);
}

/// A production that is two nonterminals: `first` derived from the same
/// state and `second` from the state that `first` leaves.
proof fn lemma_sound_pair(
    symbol: Nonterminal,
    a: Nonterminal,
    b: Nonterminal,
    s: ScanState,
    first: ParseTree,
    second: ParseTree,
)
    requires
        sound(a, s, first),
        sound(b, s.after(first.tokens().len()), second),
        is_production(symbol, seq![first, second]),
        1 + a.allowance() + b.allowance() <= symbol.allowance(),
    ensures
        sound(symbol, s, ParseTree::Node(symbol, seq![first, second])),
{
    lemma_node2(symbol, first, second);
    lemma_yields_concat(s, first.tokens(), second.tokens());
    let tree = ParseTree::Node(symbol, seq![first, second]);
    assert(tree.conforms());
}

/// A terminal as the last symbol of a production: the tokens so far and
/// then the current token of the state that they lead to.
proof fn lemma_yields_last(s: ScanState, tokens: Seq<TokenValue>)
    requires
        s.yields(tokens),
        !(s.after(tokens.len()).token is End),
        s.after(tokens.len()).scan() is Ok,
    ensures
        s.yields(tokens + seq![s.after(tokens.len()).token]),
        s.after(tokens.len() + 1) == s.after(tokens.len()).scan()->Ok_0,
        s.after(tokens.len() + 1).weight() < s.after(tokens.len()).weight(),
{
    let last = s.after(tokens.len());
    assert(last.scan()->Ok_0.yields(Seq::empty()));
    lemma_yields_step(last, Seq::empty());
    assert(seq![last.token] + Seq::<TokenValue>::empty() =~= seq![last.token]);
    lemma_yields_concat(s, tokens, seq![last.token]);
    lemma_scan_weight(last);
    assert(last.after(1) == last.scan()->Ok_0);
}

/// `S -> "lambda" V ":" S'`.
proof fn lemma_sound_lambda(s: ScanState, vars: ParseTree, body: ParseTree)
    requires
        s.token is Lambda,
        s.scan() is Ok,
        sound(Nonterminal::V, s.scan()->Ok_0, vars),
        s.scan()->Ok_0.after(vars.tokens().len()).token is Colon,
        s.scan()->Ok_0.after(vars.tokens().len()).scan() is Ok,
        sound(Nonterminal::Sp, s.scan()->Ok_0.after(vars.tokens().len()).scan()->Ok_0, body),
    ensures
        sound(
            Nonterminal::S,
            s,
            ParseTree::Node(
                Nonterminal::S,
                seq![
                    ParseTree::Leaf(TokenValue::Lambda),
                    vars,
                    ParseTree::Leaf(TokenValue::Colon),
                    body,
                ],
            ),
        ),
{
    let lambda = ParseTree::Leaf(TokenValue::Lambda);
    let colon = ParseTree::Leaf(TokenValue::Colon);
    let tree = ParseTree::Node(Nonterminal::S, seq![lambda, vars, colon, body]);
    let s1 = s.scan()->Ok_0;
    let s2 = s1.after(vars.tokens().len());
    let s3 = s2.scan()->Ok_0;
    lemma_leaf(TokenValue::Lambda, 0);
    lemma_leaf(TokenValue::Colon, 0);
    lemma_node4(Nonterminal::S, lambda, vars, colon, body);
    lemma_yields_last(s1, vars.tokens());
    lemma_yields_concat(s1, vars.tokens() + colon.tokens(), body.tokens());
    lemma_shifted(s, vars.tokens() + colon.tokens() + body.tokens());
    assert(tree.tokens() =~= lambda.tokens() + (vars.tokens() + colon.tokens() + body.tokens()));
    assert(lambda.conforms() && colon.conforms());
    assert(tree.conforms());
    let kids = seq![lambda, vars, colon, body];
    assert(tree.tokens_below(0) =~= Seq::empty());
    assert(tree.tokens_below(1) =~= lambda.tokens());
    assert(tree.tokens_below(2) =~= lambda.tokens() + vars.tokens());
    assert(tree.tokens_below(4) == tree.tokens());
    assert(s.after(tree.tokens_below(2).len()) == s2);
    lemma_node_follows(Nonterminal::S, kids, s);
}

/// `C -> "(" S' ")"`.
proof fn lemma_sound_parenthesis(s: ScanState, inner: ParseTree)
    requires
        s.token is LParen,
        s.scan() is Ok,
        sound(Nonterminal::Sp, s.scan()->Ok_0, inner),
        s.scan()->Ok_0.after(inner.tokens().len()).token is RParen,
        s.scan()->Ok_0.after(inner.tokens().len()).scan() is Ok,
    ensures
        sound(
            Nonterminal::C,
            s,
            ParseTree::Node(
                Nonterminal::C,
                seq![
                    ParseTree::Leaf(TokenValue::LParen),
                    inner,
                    ParseTree::Leaf(TokenValue::RParen),
                ],
            ),
        ),
{
    let open = ParseTree::Leaf(TokenValue::LParen);
    let close = ParseTree::Leaf(TokenValue::RParen);
    let tree = ParseTree::Node(Nonterminal::C, seq![open, inner, close]);
    let s1 = s.scan()->Ok_0;
    lemma_leaf(TokenValue::LParen, 0);
    lemma_leaf(TokenValue::RParen, 0);
    lemma_node3(Nonterminal::C, open, inner, close);
    lemma_yields_last(s1, inner.tokens());
    lemma_shifted(s, inner.tokens() + close.tokens());
    assert(tree.tokens() =~= open.tokens() + (inner.tokens() + close.tokens()));
    assert(open.conforms() && close.conforms());
    assert(tree.conforms());
    assert(tree.tokens_below(0) =~= Seq::empty());
    assert(tree.tokens_below(1) =~= open.tokens());
    assert(tree.tokens_below(2) =~= open.tokens() + inner.tokens());
    assert(s.after(tree.tokens_below(2).len()) == s1.after(inner.tokens().len()));
    lemma_node_follows(Nonterminal::C, seq![open, inner, close], s);
}

/// `C -> Variable | Number | "True" | "False"`.
proof fn lemma_sound_atom(s: ScanState)
    requires
        s.token is Variable || s.token is Const,
        s.scan() is Ok,
    ensures
        sound(Nonterminal::C, s, ParseTree::Node(Nonterminal::C, seq![ParseTree::Leaf(s.token)])),
{
    let leaf = ParseTree::Leaf(s.token);
    let tree = ParseTree::Node(Nonterminal::C, seq![leaf]);
    lemma_node1(Nonterminal::C, leaf);
    assert(s.scan()->Ok_0.yields(Seq::empty()));
    lemma_shifted(s, Seq::empty());
    assert(leaf.tokens() + Seq::<TokenValue>::empty() =~= leaf.tokens());
    assert(s.scan()->Ok_0.after(0) == s.scan()->Ok_0);
    assert(tree.conforms());
    lemma_node_follows(Nonterminal::C, seq![leaf], s);
}

/// Every derivation that succeeds gives a sound tree.
pub proof fn lemma_expand_sound(symbol: Nonterminal, s: ScanState)
    ensures
        expand(symbol, s) is Ok ==> sound(symbol, s, expand(symbol, s)->Ok_0),
    decreases s.weight(), symbol.rank(), 1nat,
{
    if expand(symbol, s) is Ok {
        if symbol.is_chain() {
            lemma_expand_sound_chain(symbol, s);
        } else if symbol.is_rest() {
            lemma_expand_sound_rest(symbol, s);
        } else if symbol is S {
            lemma_expand_sound_lambda(s);
        } else if symbol is V || symbol is Vp {
            lemma_expand_sound_variables(symbol, s);
        } else if symbol is C {
            lemma_expand_sound_operand(s);
        } else {
            lemma_expand_sound_prefix(symbol, s);
        }
    }
}

/// The same for `E`, `O`, `N`, `Q` and `T`.
proof fn lemma_expand_sound_chain(symbol: Nonterminal, s: ScanState)
    requires
        symbol.is_chain(),
        expand(symbol, s) is Ok,
    ensures
        sound(symbol, s, expand(symbol, s)->Ok_0),
    decreases s.weight(), symbol.rank(), 0nat,
{
    let first = expand(symbol.operand(), s)->Ok_0;
    lemma_expand_sound(symbol.operand(), s);
    let s1 = s.after(first.tokens().len());
    lemma_after_weight(s, first.tokens().len());
    let rest = expand(symbol.rest(), s1)->Ok_0;
    lemma_expand_sound(symbol.rest(), s1);
    lemma_sound_pair(symbol, symbol.operand(), symbol.rest(), s, first, rest);
}

/// The same for `E'`, `O'`, `N'`, `Q'` and `T'`.
proof fn lemma_expand_sound_rest(symbol: Nonterminal, s: ScanState)
    requires
        symbol.is_rest(),
        expand(symbol, s) is Ok,
    ensures
        sound(symbol, s, expand(symbol, s)->Ok_0),
    decreases s.weight(), symbol.rank(), 0nat,
{
    if symbol.goes_on_with(s.token) {
        let s1 = s.scan()->Ok_0;
        let chain = expand(symbol.operand(), s1)->Ok_0;
        lemma_scan_weight(s);
        lemma_expand_sound(symbol.operand(), s1);
        lemma_sound_shift(symbol, symbol.operand(), s, chain);
    } else {
        assert(seq![ParseTree::Epsilon].len() == 1);
        lemma_sound_empty(symbol, s);
    }
}

/// The same for `S`.
proof fn lemma_expand_sound_lambda(s: ScanState)
    requires
        expand(Nonterminal::S, s) is Ok,
    ensures
        sound(Nonterminal::S, s, expand(Nonterminal::S, s)->Ok_0),
    decreases s.weight(), Nonterminal::S.rank(), 0nat,
{
    let s1 = s.scan()->Ok_0;
    let vars = expand(Nonterminal::V, s1)->Ok_0;
    lemma_scan_weight(s);
    lemma_expand_sound(Nonterminal::V, s1);
    let s2 = s1.after(vars.tokens().len());
    lemma_after_weight(s1, vars.tokens().len());
    let s3 = s2.scan()->Ok_0;
    let body = expand(Nonterminal::Sp, s3)->Ok_0;
    lemma_scan_weight(s2);
    lemma_expand_sound(Nonterminal::Sp, s3);
    lemma_sound_lambda(s, vars, body);
}

/// The same for `V` and `V'`.
proof fn lemma_expand_sound_variables(symbol: Nonterminal, s: ScanState)
    requires
        symbol is V || symbol is Vp,
        expand(symbol, s) is Ok,
    ensures
        sound(symbol, s, expand(symbol, s)->Ok_0),
    decreases s.weight(), symbol.rank(), 0nat,
{
    if s.token is Colon {
        lemma_sound_empty(symbol, s);
    } else {
        let other = if symbol is V {
            Nonterminal::Vp
        } else {
            Nonterminal::V
        };
        let s1 = s.scan()->Ok_0;
        let more = expand(other, s1)->Ok_0;
        lemma_scan_weight(s);
        lemma_expand_sound(other, s1);
        lemma_sound_shift(symbol, other, s, more);
    }
}

/// The same for `S'`, `A` and `F`, which begin with a terminal or are one
/// nonterminal.
proof fn lemma_expand_sound_prefix(symbol: Nonterminal, s: ScanState)
    requires
        symbol is Sp || symbol is A || symbol is F,
        expand(symbol, s) is Ok,
    ensures
        sound(symbol, s, expand(symbol, s)->Ok_0),
    decreases s.weight(), symbol.rank(), 0nat,
{
    let token = s.token;
    let sign = token == TokenValue::Op(Operations::Add) || token == TokenValue::Op(
        Operations::Sub,
    );
    let inner_symbol = if symbol is A {
        Nonterminal::N
    } else if symbol is F {
        Nonterminal::C
    } else if token is Lambda {
        Nonterminal::S
    } else {
        Nonterminal::E
    };
    if (symbol is A && token == TokenValue::Op(Operations::Not)) || (symbol is F && sign) {
        let s1 = s.scan()->Ok_0;
        let inner = expand(inner_symbol, s1)->Ok_0;
        lemma_scan_weight(s);
        lemma_expand_sound(inner_symbol, s1);
        lemma_sound_shift(symbol, inner_symbol, s, inner);
    } else {
        let inner = expand(inner_symbol, s)->Ok_0;
        lemma_expand_sound(inner_symbol, s);
        lemma_sound_unit(symbol, inner_symbol, s, inner);
    }
}

/// The same for `C`.
proof fn lemma_expand_sound_operand(s: ScanState)
    requires
        expand(Nonterminal::C, s) is Ok,
    ensures
        sound(Nonterminal::C, s, expand(Nonterminal::C, s)->Ok_0),
    decreases s.weight(), Nonterminal::C.rank(), 0nat,
{
    let s1 = s.scan()->Ok_0;
    if s.token is LParen {
        let inner = expand(Nonterminal::Sp, s1)->Ok_0;
        lemma_scan_weight(s);
        lemma_expand_sound(Nonterminal::Sp, s1);
        lemma_sound_parenthesis(s, inner);
    } else {
        lemma_sound_atom(s);
    }
}

/// Every tree that a derivation gives is the derivation that the tokens
/// select.
pub proof fn lemma_expand_gives_the_derivation(symbol: Nonterminal, s: ScanState)
    requires
        expand(symbol, s) is Ok,
    ensures
        is_derivation(symbol, s, expand(symbol, s)->Ok_0),
{
    lemma_expand_sound(symbol, s);
}

/// What holds of the child at place `i` of a tree that is laid over the
/// tokens from `s` on: its tokens are handed out from the state that the
/// tokens before it lead to, and it follows the token ahead of it.
proof fn lemma_child_derivation(s: ScanState, tree: ParseTree, i: int)
    requires
        tree is Node,
        tree.conforms(),
        s.yields(tree.tokens()),
        tree.follows_lookahead(s.after(tree.tokens().len()).token),
        0 <= i < tree.children().len(),
    ensures
        ({
            let kid = tree.children()[i];
            let before = tree.tokens_below(i as nat).len();
            let from = s.after(before);
            &&& kid.conforms()
            &&& from.yields(kid.tokens())
            &&& kid.follows_lookahead(from.after(kid.tokens().len()).token)
            &&& from.after(kid.tokens().len()) == s.after(tree.tokens_below((i + 1) as nat).len())
            &&& tree.tokens_below((i + 1) as nat).len() == before + kid.tokens().len()
            &&& before + kid.tokens().len() <= tree.tokens().len()
            &&& kid is Leaf ==> from.token == kid->Leaf_0 && from.scan() is Ok && s.after(
                before + 1,
            ) == from.scan()->Ok_0
        }),
{
    let kid = tree.children()[i];
    let tokens = tree.tokens();
    let before = tree.tokens_below(i as nat).len();
    let upto = tree.tokens_below((i + 1) as nat).len();
    let all = tokens.push(s.after(tokens.len()).token);
    lemma_tokens_below_first(tree, i as nat);
    lemma_tokens_below_first(tree, (i + 1) as nat);
    lemma_yields_at(s, tokens, before);
    lemma_yields_at(s, tokens, upto);
    lemma_yields_at(s.after(before), tokens.skip(before as int), kid.tokens().len());
    assert(tokens.skip(before as int).take(kid.tokens().len() as int) =~= kid.tokens());
    lemma_after_add(s, before, kid.tokens().len());
    assert(all[upto as int] == s.after(upto).token);
    if kid is Leaf {
        lemma_leaf(kid->Leaf_0, 0);
    }
}

/// Whether the child `kid` was derived from the state `from` and left the
/// state `to`: a leaf by one step from its token, a nonterminal as `expand`
/// derives it.
spec fn is_step(kid: ParseTree, from: ScanState, to: ScanState) -> bool {
    match kid {
        ParseTree::Leaf(token) => from.token == token && from.scan() == Ok::<
            ScanState,
            LexicalError,
        >(to),
        ParseTree::Epsilon => to == from,
        ParseTree::Node(symbol, _) => expand(symbol, from) == Ok::<ParseTree, ParseFailure>(kid)
            && to == from.after(kid.tokens().len()),
    }
}

/// A production of one or two symbols whose children were derived one
/// after the other is what `expand` gives, where the token ahead selects
/// the production.
proof fn lemma_assemble_short(
    symbol: Nonterminal,
    kids: Seq<ParseTree>,
    s: ScanState,
    s1: ScanState,
    s2: ScanState,
)
    requires
        is_production(symbol, kids),
        is_selected(symbol, s.token, kids),
        1 <= kids.len() <= 2,
        is_step(kids[0], s, s1),
        kids.len() > 1 ==> is_step(kids[1], s1, s2),
    ensures
        expand(symbol, s) == Ok::<ParseTree, ParseFailure>(ParseTree::Node(symbol, kids)),
{
    if kids.len() == 1 {
        assert(kids =~= seq![kids[0]]);
    } else {
        assert(kids =~= seq![kids[0], kids[1]]);
    }
    if symbol.is_chain() {
        assert(expand(symbol, s) == Ok::<ParseTree, ParseFailure>(ParseTree::Node(symbol, kids)));
    } else if symbol.is_rest() {
        assert(expand(symbol, s) == Ok::<ParseTree, ParseFailure>(ParseTree::Node(symbol, kids)));
    } else if symbol is V || symbol is Vp {
        assert(expand(symbol, s) == Ok::<ParseTree, ParseFailure>(ParseTree::Node(symbol, kids)));
    } else if symbol is Sp {
        assert(expand(symbol, s) == Ok::<ParseTree, ParseFailure>(ParseTree::Node(symbol, kids)));
    } else if symbol is A {
        assert(expand(symbol, s) == Ok::<ParseTree, ParseFailure>(ParseTree::Node(symbol, kids)));
    } else if symbol is F {
        assert(expand(symbol, s) == Ok::<ParseTree, ParseFailure>(ParseTree::Node(symbol, kids)));
    } else {
        assert(expand(symbol, s) == Ok::<ParseTree, ParseFailure>(ParseTree::Node(symbol, kids)));
    }
}

/// The same for `C -> "(" S' ")"`.
proof fn lemma_assemble_parenthesis(
    kids: Seq<ParseTree>,
    s: ScanState,
    s1: ScanState,
    s2: ScanState,
    s3: ScanState,
)
    requires
        is_production(Nonterminal::C, kids),
        kids.len() == 3,
        is_step(kids[0], s, s1),
        is_step(kids[1], s1, s2),
        is_step(kids[2], s2, s3),
    ensures
        expand(Nonterminal::C, s) == Ok::<ParseTree, ParseFailure>(
            ParseTree::Node(Nonterminal::C, kids),
        ),
{
    assert(kids =~= seq![kids[0], kids[1], kids[2]]);
}

/// The same for `S -> "lambda" V ":" S'`.
proof fn lemma_assemble_lambda(
    kids: Seq<ParseTree>,
    s: ScanState,
    s1: ScanState,
    s2: ScanState,
    s3: ScanState,
    s4: ScanState,
)
    requires
        is_production(Nonterminal::S, kids),
        is_step(kids[0], s, s1),
        is_step(kids[1], s1, s2),
        is_step(kids[2], s2, s3),
        is_step(kids[3], s3, s4),
    ensures
        expand(Nonterminal::S, s) == Ok::<ParseTree, ParseFailure>(
            ParseTree::Node(Nonterminal::S, kids),
        ),
{
    assert(kids =~= seq![kids[0], kids[1], kids[2], kids[3]]);
}

/// The child at place `i` of a derivation was derived from the state that
/// the tokens before it lead to.
proof fn lemma_child_step(s: ScanState, tree: ParseTree, i: int)
    requires
        tree is Node,
        tree.conforms(),
        s.yields(tree.tokens()),
        tree.follows_lookahead(s.after(tree.tokens().len()).token),
        0 <= i < tree.children().len(),
    ensures
        is_step(
            tree.children()[i],
            s.after(tree.tokens_below(i as nat).len()),
            s.after(tree.tokens_below((i + 1) as nat).len()),
        ),
    decreases tree, 0nat,
{
    let kid = tree.children()[i];
    let from = s.after(tree.tokens_below(i as nat).len());
    lemma_child_derivation(s, tree, i);
    match kid {
        ParseTree::Leaf(token) => {
            lemma_leaf(token, 0);
        },
        ParseTree::Epsilon => {
            lemma_epsilon(0);
            assert(from.after(0) == from);
        },
        ParseTree::Node(symbol, _) => {
            lemma_expand_finds_the_derivation(symbol, from, kid);
        },
    }
}

/// The derivation that the tokens select is the one that `expand` gives:
/// the functions of the parser find every derivation, and there is at most
/// one.
pub proof fn lemma_expand_finds_the_derivation(symbol: Nonterminal, s: ScanState, tree: ParseTree)
    requires
        is_derivation(symbol, s, tree),
    ensures
        expand(symbol, s) == Ok::<ParseTree, ParseFailure>(tree),
    decreases tree, 1nat,
{
    let kids = tree.children();
    let tokens = tree.tokens();
    lemma_yields_at(s, tokens, 0);
    assert(tokens.push(s.after(tokens.len()).token)[0] == s.token);
    assert(tree.tokens_below(0) =~= Seq::empty());
    assert(s.after(0) == s);
    let s1 = s.after(tree.tokens_below(1).len());
    let s2 = s.after(tree.tokens_below(2).len());
    let s3 = s.after(tree.tokens_below(3).len());
    let s4 = s.after(tree.tokens_below(4).len());
    lemma_child_step(s, tree, 0);
    if kids.len() > 1 {
        lemma_child_step(s, tree, 1);
    }
    if kids.len() <= 2 {
        lemma_assemble_short(symbol, kids, s, s1, s2);
    } else {
        lemma_child_step(s, tree, 2);
        if kids.len() == 3 {
            lemma_assemble_parenthesis(kids, s, s1, s2, s3);
        } else {
            lemma_child_step(s, tree, 3);
            lemma_assemble_lambda(kids, s, s1, s2, s3, s4);
        }
    }
}

/// Where `expand` fails, the tokens select no derivation.
pub proof fn lemma_failure_means_no_derivation(symbol: Nonterminal, s: ScanState, tree: ParseTree)
    requires
        expand(symbol, s) is Err,
    ensures
        !is_derivation(symbol, s, tree),
{
    if is_derivation(symbol, s, tree) {
        lemma_expand_finds_the_derivation(symbol, s, tree);
    }
}

/// The tree of every text that the grammar accepts has a root labelled `S`
/// with exactly four children: the leaf `lambda`, a tree for `V`, the leaf
/// `:`, and a tree for `S'`.
pub proof fn lemma_root_has_four_children(s: ScanState)
    requires
        expand(Nonterminal::S, s) is Ok,
    ensures
        ({
            let tree = expand(Nonterminal::S, s)->Ok_0;
            let kids = tree.children();
            &&& tree.label() == "S"@
            &&& kids.len() == 4
            &&& kids[0] is Leaf && kids[0].label() == "lambda"@
            &&& kids[1] is Node && kids[1].label() == "V"@
            &&& kids[2] is Leaf && kids[2].label() == ":"@
            &&& kids[3] is Node && kids[3].label() == "S'"@
        }),
{
    lemma_expand_sound(Nonterminal::S, s);
}

/// In every tree that a derivation gives, each nonterminal has the symbols
/// of one of its productions as its children. An empty alternative is
/// exactly one child, the mark of the empty alternative, and so no
/// nonterminal is without a child.
pub proof fn lemma_empty_alternative_is_one_child(symbol: Nonterminal, s: ScanState)
    requires
        expand(symbol, s) is Ok,
    ensures
        expand(symbol, s)->Ok_0.stands_for(symbol),
        expand(symbol, s)->Ok_0.conforms(),
        expand(symbol, s)->Ok_0.marks_empty_alternatives(),
{
    lemma_expand_sound(symbol, s);
    lemma_conforming_marks_empty(expand(symbol, s)->Ok_0);
}

/// The leaves of every tree that a derivation gives, read from left to
/// right without the marks of empty alternatives, are the tokens that the
/// scanner hands out from the state in which the derivation began, each
/// leaf labelled with its token's spelling.
pub proof fn lemma_leaves_spell_the_tokens(symbol: Nonterminal, s: ScanState)
    requires
        expand(symbol, s) is Ok,
    ensures
        s.yields(expand(symbol, s)->Ok_0.tokens()),
        expand(symbol, s)->Ok_0.terminals() == spellings(expand(symbol, s)->Ok_0.tokens()),
{
    lemma_expand_sound(symbol, s);
    lemma_terminals_spell_tokens(expand(symbol, s)->Ok_0);
}

/// No token selects two productions of a symbol: a token with which the
/// rest of a chain goes on is none before which it ends, `not` begins no
/// operand, and a sign begins no unsigned operand.
pub proof fn lemma_one_production_per_token(symbol: Nonterminal, token: TokenValue)
    ensures
        !(symbol.goes_on_with(token) && symbol.ends_before(token)),
        !(token == TokenValue::Op(Operations::Not) && starts_operand(token)),
        !((token == TokenValue::Op(Operations::Add) || token == TokenValue::Op(Operations::Sub))
            && starts_atom(token)),
        !(token is Lambda && starts_expression(token)),
{
}

} // verus!
