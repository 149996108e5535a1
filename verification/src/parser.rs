//! The parser: one function for each nonterminal, each of which adds the
//! tree it derives to the graph and returns the number of the tree's root.

use vstd::prelude::*;
use petgraph::Graph;
use crate::derivation::{expand, lemma_expand_sound};
use crate::grammar::{Nonterminal, ParseFailure, NODES_PER_STEP};
use crate::graph::{add_edge, graph_value, new_graph, GraphValue, Tree, GRAPH_LIMIT};
use crate::lexer::{
    lemma_after_add, lemma_after_weight, lemma_scan, lemma_scan_weight, lemma_skip_blanks,
    Lexer, LexicalError, ScanState,
};
use crate::token::{Operations, Token, TokenValue};
use crate::tree::{
    lemma_bare, lemma_edges_len, lemma_epsilon, lemma_grow, lemma_leaf, ParseTree,
};

verus! {

/// The longest source for which a new parser has room for every derivation:
/// with it the graph stays below `GRAPH_LIMIT` nodes.
pub const MAX_SOURCE_LEN: usize = 0x3FF_FFFF;

/// Why a parse was given up.
#[derive(Debug, PartialEq, Eq)]
pub enum ParseError {
    /// The scanner found text that is no token.
    Lexical(LexicalError),
    /// The token selects no production of the symbol at hand, or is not the
    /// terminal that the production asks for.
    Syntax(Token),
}

impl View for ParseError {
    type V = ParseFailure;

    open spec fn view(&self) -> ParseFailure {
        match self {
            ParseError::Lexical(e) => ParseFailure::Lexical(*e),
            ParseError::Syntax(token) => ParseFailure::Syntax(token@),
        }
    }
}

/// The parser: a scanner and the graph that the trees are added to.
pub struct Parser {
    pub lex: Lexer,
    pub graph: Graph<String, &'static str>,
}

/// What a parser holds, as a value.
pub struct ParserValue {
    pub lex: ScanState,
    pub graph: GraphValue,
}

impl View for Parser {
    type V = ParserValue;

    open spec fn view(&self) -> ParserValue {
        ParserValue { lex: self.lex@, graph: graph_value(self.graph) }
    }
}

impl ParserValue {
    /// The graph has no more edges than nodes, as every graph made of trees.
    pub open spec fn wf(self) -> bool {
        self.graph.edges.len() <= self.graph.labels.len()
    }

    /// The nodes that are there and those that the text still to be scanned
    /// can add.
    pub open spec fn load(self) -> int {
        self.graph.labels.len() + NODES_PER_STEP * self.lex.weight()
    }

    /// Whether the graph has room for whatever a derivation of `symbol`
    /// adds.
    pub open spec fn fits(self, symbol: Nonterminal) -> bool {
        self.load() + symbol.allowance() <= GRAPH_LIMIT
    }

    /// What a function that derives `symbol` leaves behind when it starts
    /// from `pre` and returns `r`. Where the derivation succeeds, `r` is the
    /// number of the tree's root, the graph is the old one with the tree
    /// added, the scanner has taken as many steps as the tree has tokens,
    /// and the load has risen by no more than the symbol's allowance. Where
    /// it fails, `r` is the failure, the graph has kept what it had, and
    /// the scanner its source.
    pub open spec fn follows(
        self,
        pre: ParserValue,
        symbol: Nonterminal,
        r: Result<usize, ParseError>,
    ) -> bool {
        match expand(symbol, pre.lex) {
            Ok(tree) => {
                &&& r == Ok::<usize, ParseError>(pre.graph.labels.len() as usize)
                &&& self.graph == pre.graph.plant(tree)
                &&& self.lex == pre.lex.after(tree.tokens().len())
                &&& self.wf()
                &&& self.load() <= pre.load() + symbol.allowance()
            },
            Err(failure) => {
                &&& r is Err
                &&& r->Err_0@ == failure
                &&& self.graph.extends(pre.graph)
                &&& self.lex.source == pre.lex.source
            },
        }
    }

    /// The state in the middle of a derivation of `symbol` that began in
    /// `pre`: the node `node` and the children `kids` are in the graph, and
    /// the scanner has consumed their tokens.
    spec fn building(
        self,
        pre: ParserValue,
        symbol: Nonterminal,
        kids: Seq<ParseTree>,
        node: usize,
    ) -> bool {
        let partial = ParseTree::Node(symbol, kids);
        &&& pre.wf()
        &&& node == pre.graph.labels.len()
        &&& self.graph == pre.graph.plant(partial)
        &&& self.lex == pre.lex.after(partial.tokens().len())
        &&& self.lex.weight() <= pre.lex.weight()
        &&& self.lex.source == pre.lex.source
    }
}

/// A graph with a tree added holds what it held.
proof fn lemma_plant_extends(graph: GraphValue, tree: ParseTree)
    ensures
        graph.plant(tree).extends(graph),
        graph.plant(tree).labels.len() == graph.labels.len() + tree.size(),
        graph.plant(tree).edges.len() + 1 == graph.edges.len() + tree.size(),
{
    lemma_edges_len(tree, graph.labels.len() as int);
}

/// A finished child under the node that is being built.
proof fn lemma_child(
    pre: ParserValue,
    symbol: Nonterminal,
    kids: Seq<ParseTree>,
    node: usize,
    mid: ParserValue,
    item: ParseTree,
)
    requires
        mid.building(pre, symbol, kids, node),
    ensures
        ({
            let before = ParseTree::Node(symbol, kids);
            let grown = ParseTree::Node(symbol, kids.push(item));
            let base = pre.graph.labels.len() as int;
            &&& mid.graph.plant(item).labels == pre.graph.plant(grown).labels
            &&& mid.graph.plant(item).edges.push((base, mid.graph.labels.len() as int))
                == pre.graph.plant(grown).edges
            &&& mid.lex.after(item.tokens().len()) == pre.lex.after(grown.tokens().len())
            &&& pre.graph.plant(grown).edges.len() < pre.graph.plant(grown).labels.len()
            &&& mid.graph.extends(pre.graph)
        }),
{
    let before = ParseTree::Node(symbol, kids);
    let grown = ParseTree::Node(symbol, kids.push(item));
    let base = pre.graph.labels.len() as int;
    lemma_grow(symbol, kids, item, base);
    lemma_after_add(pre.lex, before.tokens().len(), item.tokens().len());
    lemma_plant_extends(pre.graph, before);
    lemma_plant_extends(pre.graph, grown);
    assert(mid.graph.plant(item).labels =~= pre.graph.plant(grown).labels);
    assert(mid.graph.plant(item).edges.push((base, mid.graph.labels.len() as int))
        =~= pre.graph.plant(grown).edges);
}

impl Parser {
    /// A parser for `str` with an empty graph, its scanner on the first
    /// token.
    pub fn get(str: String) -> (made: Result<Parser, ParseError>)
        requires
            str@.len() > 0,
        ensures
            match ScanState::start(vstd::utf8::encode_utf8(str@)).read().scan() {
                Ok(first) => {
                    &&& made is Ok
                    &&& made->Ok_0@.lex == first
                    &&& made->Ok_0@.graph == GraphValue::empty()
                    &&& made->Ok_0@.wf()
                    &&& vstd::utf8::encode_utf8(str@).len() <= MAX_SOURCE_LEN ==> forall|
                        symbol: Nonterminal,
                    | #[trigger] made->Ok_0@.fits(symbol)
                },
                Err(e) => made is Err && made->Err_0@ == ParseFailure::Lexical(e),
            },
    {
        proof {
            let start = ScanState::start(vstd::utf8::encode_utf8(str@));
            lemma_scan(start.read());
        }
        match Lexer::get(str) {
            Ok(lex) => Ok(Parser { lex, graph: new_graph() }),
            Err(e) => Err(ParseError::Lexical(e)),
        }
    }

    /// Adds the node of the symbol whose derivation begins.
    fn open(&mut self, label: &str, Ghost(symbol): Ghost<Nonterminal>) -> (node: usize)
        requires
            label@ == symbol.name(),
            old(self)@.wf(),
            old(self)@.graph.labels.len() < GRAPH_LIMIT,
        ensures
            final(self)@.building(old(self)@, symbol, Seq::empty(), node),
            final(self)@.lex == old(self)@.lex,
            final(self)@.load() == old(self)@.load() + 1,
            final(self)@.graph.extends(old(self)@.graph),
    {
        let node = Tree::get_leaf(&mut self.graph, label.to_owned());
        proof {
            let pre = old(self)@;
            lemma_bare(symbol, pre.graph.labels.len() as int);
            assert(self@.graph.labels =~= pre.graph.labels + seq![symbol.name()]);
            assert(self@.graph.edges =~= pre.graph.edges + Seq::<(int, int)>::empty());
            lemma_plant_extends(pre.graph, ParseTree::Node(symbol, Seq::empty()));
        }
        node
    }

    /// Adds a node with the given text and the edge that leads to it from
    /// `node`.
    fn add_leaf(
        &mut self,
        node: usize,
        text: String,
        Ghost(pre): Ghost<ParserValue>,
        Ghost(symbol): Ghost<Nonterminal>,
        Ghost(kids): Ghost<Seq<ParseTree>>,
        Ghost(item): Ghost<ParseTree>,
    )
        requires
            !(item is Node),
            item.label() == text@,
            node == pre.graph.labels.len(),
            pre.wf(),
            old(self)@.graph == pre.graph.plant(ParseTree::Node(symbol, kids)),
            old(self)@.graph.labels.len() < GRAPH_LIMIT,
        ensures
            final(self)@.graph == pre.graph.plant(ParseTree::Node(symbol, kids.push(item))),
            final(self)@.graph.labels.len() == old(self)@.graph.labels.len() + 1,
            final(self)@.lex == old(self)@.lex,
    {
        proof {
            let before = ParseTree::Node(symbol, kids);
            let mid = ParserValue { lex: pre.lex.after(before.tokens().len()), graph: self@.graph };
            lemma_after_weight(pre.lex, before.tokens().len());
            lemma_child(pre, symbol, kids, node, mid, item);
            if item is Leaf {
                lemma_leaf(item->Leaf_0, self@.graph.labels.len() as int);
            } else {
                lemma_epsilon(self@.graph.labels.len() as int);
            }
            lemma_plant_extends(pre.graph, before);
            assert(self@.graph.plant(item).labels =~= self@.graph.labels.push(text@));
            assert(self@.graph.plant(item).edges =~= self@.graph.edges);
        }
        let leaf = Tree::get_leaf(&mut self.graph, text);
        add_edge(&mut self.graph, node, leaf);
    }

    /// Adds the node that stands for the empty alternative under `node`.
    fn add_eps_node(
        &mut self,
        node: usize,
        Ghost(pre): Ghost<ParserValue>,
        Ghost(symbol): Ghost<Nonterminal>,
    )
        requires
            old(self)@.building(pre, symbol, Seq::empty(), node),
            old(self)@.graph.labels.len() < GRAPH_LIMIT,
        ensures
            final(self)@.building(pre, symbol, seq![ParseTree::Epsilon], node),
            final(self)@.wf(),
    {
        proof {
            lemma_child(pre, symbol, Seq::empty(), node, self@, ParseTree::Epsilon);
            lemma_epsilon(0);
            lemma_bare(symbol, 0);
            assert(Seq::<ParseTree>::empty().push(ParseTree::Epsilon) =~= seq![ParseTree::Epsilon]);
            assert(self@.lex.after(0) == self@.lex);
        }
        self.add_leaf(
            node,
            "ε".to_owned(),
            Ghost(pre),
            Ghost(symbol),
            Ghost(Seq::empty()),
            Ghost(ParseTree::Epsilon),
        );
    }

    /// Consumes the current token, which is `token`, and adds it as a leaf
    /// under `node`.
    fn take(
        &mut self,
        node: usize,
        token: &Token,
        Ghost(pre): Ghost<ParserValue>,
        Ghost(symbol): Ghost<Nonterminal>,
        Ghost(kids): Ghost<Seq<ParseTree>>,
    ) -> (r: Result<(), ParseError>)
        requires
            old(self)@.building(pre, symbol, kids, node),
            token@ == old(self)@.lex.token,
            !(token@ is End),
            old(self)@.graph.labels.len() < GRAPH_LIMIT,
        ensures
            match old(self)@.lex.scan() {
                Ok(next) => {
                    &&& r is Ok
                    &&& final(self)@.building(pre, symbol, kids.push(ParseTree::Leaf(token@)), node)
                    &&& final(self)@.lex == next
                    &&& final(self)@.wf()
                    &&& final(self)@.lex.weight() < old(self)@.lex.weight()
                    &&& final(self)@.load() + NODES_PER_STEP <= old(self)@.load() + 1
                },
                Err(e) => {
                    &&& r is Err
                    &&& r->Err_0@ == ParseFailure::Lexical(e)
                    &&& final(self)@.graph.extends(pre.graph)
                    &&& final(self)@.lex.source == pre.lex.source
                },
            },
    {
        let ghost mid = self@;
        let ghost item = ParseTree::Leaf(token@);
        proof {
            lemma_child(pre, symbol, kids, node, mid, item);
            lemma_leaf(token@, 0);
            lemma_scan(mid.lex);
            lemma_scan_weight(mid.lex);
            lemma_skip_blanks(mid.lex);
            assert(mid.lex.after(1) == match mid.lex.scan() {
                Ok(next) => next.after(0),
                Err(_) => mid.lex,
            });
        }
        match self.lex.next_token() {
            Ok(()) => {},
            Err(e) => {
                return Err(ParseError::Lexical(e));
            },
        }
        self.add_leaf(
            node,
            token.spelling(),
            Ghost(pre),
            Ghost(symbol),
            Ghost(kids),
            Ghost(item),
        );
        Ok(())
    }

    /// Adds the edge from `node` to the root of the tree that a derivation
    /// of `sub` from `mid` has just added.
    fn attach(
        &mut self,
        node: usize,
        child: usize,
        Ghost(pre): Ghost<ParserValue>,
        Ghost(symbol): Ghost<Nonterminal>,
        Ghost(kids): Ghost<Seq<ParseTree>>,
        Ghost(mid): Ghost<ParserValue>,
        Ghost(sub): Ghost<Nonterminal>,
    )
        requires
            mid.building(pre, symbol, kids, node),
            mid.fits(sub),
            expand(sub, mid.lex) is Ok,
            old(self)@.follows(mid, sub, Ok(child)),
        ensures
            final(self)@.building(pre, symbol, kids.push(expand(sub, mid.lex)->Ok_0), node),
            final(self)@.lex == old(self)@.lex,
            final(self)@.load() <= mid.load() + sub.allowance(),
            final(self)@.wf(),
    {
        let ghost item = expand(sub, mid.lex)->Ok_0;
        proof {
            lemma_child(pre, symbol, kids, node, mid, item);
            lemma_expand_sound(sub, mid.lex);
            lemma_plant_extends(mid.graph, item);
            lemma_after_weight(mid.lex, item.tokens().len());
        }
        add_edge(&mut self.graph, node, child);
    }

    /// The failure of a part as the failure of the whole.
    proof fn lemma_failed(
        now: ParserValue,
        mid: ParserValue,
        pre: ParserValue,
        symbol: Nonterminal,
        kids: Seq<ParseTree>,
        node: usize,
    )
        requires
            mid.building(pre, symbol, kids, node),
            now.graph.extends(mid.graph),
            now.lex.source == mid.lex.source,
        ensures
            now.graph.extends(pre.graph),
            now.lex.source == pre.lex.source,
    {
        lemma_plant_extends(pre.graph, ParseTree::Node(symbol, kids));
    }

    /// `S -> "lambda" V ":" S'`.
    #[allow(non_snake_case)]
    pub fn S(&mut self) -> (r: Result<usize, ParseError>)
        requires
            old(self)@.wf(),
            old(self)@.fits(Nonterminal::S),
        ensures
            final(self)@.follows(old(self)@, Nonterminal::S, r),
        decreases old(self)@.lex.weight(), Nonterminal::S.rank(),
    {
        let ghost pre = self@;
        let ghost symbol = Nonterminal::S;
        let node = self.open("S", Ghost(symbol));
        let ghost kids = Seq::<ParseTree>::empty();
        let token = self.lex.get_token();
        match token {
            Token::Lambda => {
                match self.take(node, &token, Ghost(pre), Ghost(symbol), Ghost(kids)) {
                    Ok(()) => {},
                    Err(e) => {
                        return Err(e);
                    },
                }
                proof {
                    kids = kids.push(ParseTree::Leaf(token@));
                }
                let ghost mid = self@;
                let child = match self.V() {
                    Ok(child) => child,
                    Err(e) => {
                        proof {
                            Parser::lemma_failed(self@, mid, pre, symbol, kids, node);
                        }
                        return Err(e);
                    },
                };
                self.attach(
                    node,
                    child,
                    Ghost(pre),
                    Ghost(symbol),
                    Ghost(kids),
                    Ghost(mid),
                    Ghost(Nonterminal::V),
                );
                proof {
                    kids = kids.push(expand(Nonterminal::V, mid.lex)->Ok_0);
                }
                let token = self.lex.get_token();
                match token {
                    Token::Colon => {},
                    other => {
                        proof {
                            Parser::lemma_failed(self@, self@, pre, symbol, kids, node);
                        }
                        return Err(ParseError::Syntax(other));
                    },
                }
                match self.take(node, &token, Ghost(pre), Ghost(symbol), Ghost(kids)) {
                    Ok(()) => {},
                    Err(e) => {
                        return Err(e);
                    },
                }
                proof {
                    kids = kids.push(ParseTree::Leaf(token@));
                }
                let ghost mid = self@;
                let child = match self.Sp() {
                    Ok(child) => child,
                    Err(e) => {
                        proof {
                            Parser::lemma_failed(self@, mid, pre, symbol, kids, node);
                        }
                        return Err(e);
                    },
                };
                self.attach(
                    node,
                    child,
                    Ghost(pre),
                    Ghost(symbol),
                    Ghost(kids),
                    Ghost(mid),
                    Ghost(Nonterminal::Sp),
                );
                proof {
                    kids = kids.push(expand(Nonterminal::Sp, mid.lex)->Ok_0);
                    assert(kids =~= seq![
                            ParseTree::Leaf(TokenValue::Lambda),
                            kids[1],
                            ParseTree::Leaf(TokenValue::Colon),
                            kids[3],
                        ]);
                    lemma_expand_sound(symbol, pre.lex);
                }
                Ok(node)
            },
            other => Err(ParseError::Syntax(other)),
        }
    }

    /// `V -> Variable V' | ε`.
    #[allow(non_snake_case)]
    pub fn V(&mut self) -> (r: Result<usize, ParseError>)
        requires
            old(self)@.wf(),
            old(self)@.fits(Nonterminal::V),
        ensures
            final(self)@.follows(old(self)@, Nonterminal::V, r),
        decreases old(self)@.lex.weight(), Nonterminal::V.rank(),
    {
        let ghost pre = self@;
        let ghost symbol = Nonterminal::V;
        let node = self.open("V", Ghost(symbol));
        let ghost kids = Seq::<ParseTree>::empty();
        let token = self.lex.get_token();
        match token {
            Token::Variable(_) => {
                match self.take(node, &token, Ghost(pre), Ghost(symbol), Ghost(kids)) {
                    Ok(()) => {},
                    Err(e) => {
                        return Err(e);
                    },
                }
                proof {
                    kids = kids.push(ParseTree::Leaf(token@));
                }
                let ghost mid = self@;
                let child = match self.Vp() {
                    Ok(child) => child,
                    Err(e) => {
                        proof {
                            Parser::lemma_failed(self@, mid, pre, symbol, kids, node);
                        }
                        return Err(e);
                    },
                };
                self.attach(
                    node,
                    child,
                    Ghost(pre),
                    Ghost(symbol),
                    Ghost(kids),
                    Ghost(mid),
                    Ghost(Nonterminal::Vp),
                );
                proof {
                    kids = kids.push(expand(Nonterminal::Vp, mid.lex)->Ok_0);
                    assert(kids =~= seq![ParseTree::Leaf(token@), kids[1]]);
                    lemma_expand_sound(symbol, pre.lex);
                }
                Ok(node)
            },
            Token::Colon => {
                self.add_eps_node(node, Ghost(pre), Ghost(symbol));
                proof {
                    lemma_expand_sound(symbol, pre.lex);
                }
                Ok(node)
            },
            other => Err(ParseError::Syntax(other)),
        }
    }

    /// `V' -> "," V | ε`.
    #[allow(non_snake_case)]
    pub fn Vp(&mut self) -> (r: Result<usize, ParseError>)
        requires
            old(self)@.wf(),
            old(self)@.fits(Nonterminal::Vp),
        ensures
            final(self)@.follows(old(self)@, Nonterminal::Vp, r),
        decreases old(self)@.lex.weight(), Nonterminal::Vp.rank(),
    {
        let ghost pre = self@;
        let ghost symbol = Nonterminal::Vp;
        let node = self.open("V'", Ghost(symbol));
        let ghost kids = Seq::<ParseTree>::empty();
        let token = self.lex.get_token();
        match token {
            Token::Comma => {
                match self.take(node, &token, Ghost(pre), Ghost(symbol), Ghost(kids)) {
                    Ok(()) => {},
                    Err(e) => {
                        return Err(e);
                    },
                }
                proof {
                    kids = kids.push(ParseTree::Leaf(token@));
                }
                let ghost mid = self@;
                let child = match self.V() {
                    Ok(child) => child,
                    Err(e) => {
                        proof {
                            Parser::lemma_failed(self@, mid, pre, symbol, kids, node);
                        }
                        return Err(e);
                    },
                };
                self.attach(
                    node,
                    child,
                    Ghost(pre),
                    Ghost(symbol),
                    Ghost(kids),
                    Ghost(mid),
                    Ghost(Nonterminal::V),
                );
                proof {
                    kids = kids.push(expand(Nonterminal::V, mid.lex)->Ok_0);
                    assert(kids =~= seq![ParseTree::Leaf(token@), kids[1]]);
                    lemma_expand_sound(symbol, pre.lex);
                }
                Ok(node)
            },
            Token::Colon => {
                self.add_eps_node(node, Ghost(pre), Ghost(symbol));
                proof {
                    lemma_expand_sound(symbol, pre.lex);
                }
                Ok(node)
            },
            other => Err(ParseError::Syntax(other)),
        }
    }

    /// `S' -> S | E`.
    #[allow(non_snake_case)]
    pub fn Sp(&mut self) -> (r: Result<usize, ParseError>)
        requires
            old(self)@.wf(),
            old(self)@.fits(Nonterminal::Sp),
        ensures
            final(self)@.follows(old(self)@, Nonterminal::Sp, r),
        decreases old(self)@.lex.weight(), Nonterminal::Sp.rank(),
    {
        let ghost pre = self@;
        let ghost symbol = Nonterminal::Sp;
        let node = self.open("S'", Ghost(symbol));
        let ghost kids = Seq::<ParseTree>::empty();
        let token = self.lex.get_token();
        match token {
            Token::Lambda => {
                let ghost mid = self@;
                let child = match self.S() {
                    Ok(child) => child,
                    Err(e) => {
                        proof {
                            Parser::lemma_failed(self@, mid, pre, symbol, kids, node);
                        }
                        return Err(e);
                    },
                };
                self.attach(
                    node,
                    child,
                    Ghost(pre),
                    Ghost(symbol),
                    Ghost(kids),
                    Ghost(mid),
                    Ghost(Nonterminal::S),
                );
                proof {
                    kids = kids.push(expand(Nonterminal::S, mid.lex)->Ok_0);
                    assert(kids =~= seq![kids[0]]);
                    lemma_expand_sound(symbol, pre.lex);
                }
                Ok(node)
            },
            Token::Variable(_) | Token::Op(Operations::Not) | Token::Op(Operations::Add)
            | Token::Op(Operations::Sub) | Token::Const(_) | Token::LParen => {
                let ghost mid = self@;
                let child = match self.E() {
                    Ok(child) => child,
                    Err(e) => {
                        proof {
                            Parser::lemma_failed(self@, mid, pre, symbol, kids, node);
                        }
                        return Err(e);
                    },
                };
                self.attach(
                    node,
                    child,
                    Ghost(pre),
                    Ghost(symbol),
                    Ghost(kids),
                    Ghost(mid),
                    Ghost(Nonterminal::E),
                );
                proof {
                    kids = kids.push(expand(Nonterminal::E, mid.lex)->Ok_0);
                    assert(kids =~= seq![kids[0]]);
                    lemma_expand_sound(symbol, pre.lex);
                }
                Ok(node)
            },
            other => Err(ParseError::Syntax(other)),
        }
    }

    /// `E -> O E'`.
    #[allow(non_snake_case)]
    pub fn E(&mut self) -> (r: Result<usize, ParseError>)
        requires
            old(self)@.wf(),
            old(self)@.fits(Nonterminal::E),
        ensures
            final(self)@.follows(old(self)@, Nonterminal::E, r),
        decreases old(self)@.lex.weight(), Nonterminal::E.rank(),
    {
        let ghost pre = self@;
        let ghost symbol = Nonterminal::E;
        let node = self.open("E", Ghost(symbol));
        let ghost kids = Seq::<ParseTree>::empty();
        let token = self.lex.get_token();
        match token {
            Token::Variable(_) | Token::Op(Operations::Not) | Token::Op(Operations::Add)
            | Token::Op(Operations::Sub) | Token::Const(_) | Token::LParen => {
                let ghost mid = self@;
                let child = match self.O() {
                    Ok(child) => child,
                    Err(e) => {
                        proof {
                            Parser::lemma_failed(self@, mid, pre, symbol, kids, node);
                        }
                        return Err(e);
                    },
                };
                self.attach(
                    node,
                    child,
                    Ghost(pre),
                    Ghost(symbol),
                    Ghost(kids),
                    Ghost(mid),
                    Ghost(Nonterminal::O),
                );
                proof {
                    kids = kids.push(expand(Nonterminal::O, mid.lex)->Ok_0);
                }
                let ghost mid = self@;
                let child = match self.Ep() {
                    Ok(child) => child,
                    Err(e) => {
                        proof {
                            Parser::lemma_failed(self@, mid, pre, symbol, kids, node);
                        }
                        return Err(e);
                    },
                };
                self.attach(
                    node,
                    child,
                    Ghost(pre),
                    Ghost(symbol),
                    Ghost(kids),
                    Ghost(mid),
                    Ghost(Nonterminal::Ep),
                );
                proof {
                    kids = kids.push(expand(Nonterminal::Ep, mid.lex)->Ok_0);
                    assert(kids =~= seq![kids[0], kids[1]]);
                    lemma_expand_sound(symbol, pre.lex);
                }
                Ok(node)
            },
            other => Err(ParseError::Syntax(other)),
        }
    }

    /// `E' -> "or" E | ε`.
    #[allow(non_snake_case)]
    pub fn Ep(&mut self) -> (r: Result<usize, ParseError>)
        requires
            old(self)@.wf(),
            old(self)@.fits(Nonterminal::Ep),
        ensures
            final(self)@.follows(old(self)@, Nonterminal::Ep, r),
        decreases old(self)@.lex.weight(), Nonterminal::Ep.rank(),
    {
        let ghost pre = self@;
        let ghost symbol = Nonterminal::Ep;
        let node = self.open("E'", Ghost(symbol));
        let ghost kids = Seq::<ParseTree>::empty();
        let token = self.lex.get_token();
        match token {
            Token::Op(Operations::Or) => {
                match self.take(node, &token, Ghost(pre), Ghost(symbol), Ghost(kids)) {
                    Ok(()) => {},
                    Err(e) => {
                        return Err(e);
                    },
                }
                proof {
                    kids = kids.push(ParseTree::Leaf(token@));
                }
                let ghost mid = self@;
                let child = match self.E() {
                    Ok(child) => child,
                    Err(e) => {
                        proof {
                            Parser::lemma_failed(self@, mid, pre, symbol, kids, node);
                        }
                        return Err(e);
                    },
                };
                self.attach(
                    node,
                    child,
                    Ghost(pre),
                    Ghost(symbol),
                    Ghost(kids),
                    Ghost(mid),
                    Ghost(Nonterminal::E),
                );
                proof {
                    kids = kids.push(expand(Nonterminal::E, mid.lex)->Ok_0);
                    assert(kids =~= seq![ParseTree::Leaf(token@), kids[1]]);
                    lemma_expand_sound(symbol, pre.lex);
                }
                Ok(node)
            },
            Token::RParen | Token::End => {
                self.add_eps_node(node, Ghost(pre), Ghost(symbol));
                proof {
                    lemma_expand_sound(symbol, pre.lex);
                }
                Ok(node)
            },
            other => Err(ParseError::Syntax(other)),
        }
    }

    /// `O -> A O'`.
    #[allow(non_snake_case)]
    pub fn O(&mut self) -> (r: Result<usize, ParseError>)
        requires
            old(self)@.wf(),
            old(self)@.fits(Nonterminal::O),
        ensures
            final(self)@.follows(old(self)@, Nonterminal::O, r),
        decreases old(self)@.lex.weight(), Nonterminal::O.rank(),
    {
        let ghost pre = self@;
        let ghost symbol = Nonterminal::O;
        let node = self.open("O", Ghost(symbol));
        let ghost kids = Seq::<ParseTree>::empty();
        let token = self.lex.get_token();
        match token {
            Token::Variable(_) | Token::Op(Operations::Not) | Token::Op(Operations::Add)
            | Token::Op(Operations::Sub) | Token::Const(_) | Token::LParen => {
                let ghost mid = self@;
                let child = match self.A() {
                    Ok(child) => child,
                    Err(e) => {
                        proof {
                            Parser::lemma_failed(self@, mid, pre, symbol, kids, node);
                        }
                        return Err(e);
                    },
                };
                self.attach(
                    node,
                    child,
                    Ghost(pre),
                    Ghost(symbol),
                    Ghost(kids),
                    Ghost(mid),
                    Ghost(Nonterminal::A),
                );
                proof {
                    kids = kids.push(expand(Nonterminal::A, mid.lex)->Ok_0);
                }
                let ghost mid = self@;
                let child = match self.Op() {
                    Ok(child) => child,
                    Err(e) => {
                        proof {
                            Parser::lemma_failed(self@, mid, pre, symbol, kids, node);
                        }
                        return Err(e);
                    },
                };
                self.attach(
                    node,
                    child,
                    Ghost(pre),
                    Ghost(symbol),
                    Ghost(kids),
                    Ghost(mid),
                    Ghost(Nonterminal::Op),
                );
                proof {
                    kids = kids.push(expand(Nonterminal::Op, mid.lex)->Ok_0);
                    assert(kids =~= seq![kids[0], kids[1]]);
                    lemma_expand_sound(symbol, pre.lex);
                }
                Ok(node)
            },
            other => Err(ParseError::Syntax(other)),
        }
    }

    /// `O' -> "and" O | ε`.
    #[allow(non_snake_case)]
    pub fn Op(&mut self) -> (r: Result<usize, ParseError>)
        requires
            old(self)@.wf(),
            old(self)@.fits(Nonterminal::Op),
        ensures
            final(self)@.follows(old(self)@, Nonterminal::Op, r),
        decreases old(self)@.lex.weight(), Nonterminal::Op.rank(),
    {
        let ghost pre = self@;
        let ghost symbol = Nonterminal::Op;
        let node = self.open("O'", Ghost(symbol));
        let ghost kids = Seq::<ParseTree>::empty();
        let token = self.lex.get_token();
        match token {
            Token::Op(Operations::And) => {
                match self.take(node, &token, Ghost(pre), Ghost(symbol), Ghost(kids)) {
                    Ok(()) => {},
                    Err(e) => {
                        return Err(e);
                    },
                }
                proof {
                    kids = kids.push(ParseTree::Leaf(token@));
                }
                let ghost mid = self@;
                let child = match self.O() {
                    Ok(child) => child,
                    Err(e) => {
                        proof {
                            Parser::lemma_failed(self@, mid, pre, symbol, kids, node);
                        }
                        return Err(e);
                    },
                };
                self.attach(
                    node,
                    child,
                    Ghost(pre),
                    Ghost(symbol),
                    Ghost(kids),
                    Ghost(mid),
                    Ghost(Nonterminal::O),
                );
                proof {
                    kids = kids.push(expand(Nonterminal::O, mid.lex)->Ok_0);
                    assert(kids =~= seq![ParseTree::Leaf(token@), kids[1]]);
                    lemma_expand_sound(symbol, pre.lex);
                }
                Ok(node)
            },
            Token::RParen | Token::End | Token::Op(Operations::Or) => {
                self.add_eps_node(node, Ghost(pre), Ghost(symbol));
                proof {
                    lemma_expand_sound(symbol, pre.lex);
                }
                Ok(node)
            },
            other => Err(ParseError::Syntax(other)),
        }
    }

    /// `A -> "not" N | N`.
    #[allow(non_snake_case)]
    pub fn A(&mut self) -> (r: Result<usize, ParseError>)
        requires
            old(self)@.wf(),
            old(self)@.fits(Nonterminal::A),
        ensures
            final(self)@.follows(old(self)@, Nonterminal::A, r),
        decreases old(self)@.lex.weight(), Nonterminal::A.rank(),
    {
        let ghost pre = self@;
        let ghost symbol = Nonterminal::A;
        let node = self.open("A", Ghost(symbol));
        let ghost kids = Seq::<ParseTree>::empty();
        let token = self.lex.get_token();
        match token {
            Token::Op(Operations::Not) => {
                match self.take(node, &token, Ghost(pre), Ghost(symbol), Ghost(kids)) {
                    Ok(()) => {},
                    Err(e) => {
                        return Err(e);
                    },
                }
                proof {
                    kids = kids.push(ParseTree::Leaf(token@));
                }
                let ghost mid = self@;
                let child = match self.N() {
                    Ok(child) => child,
                    Err(e) => {
                        proof {
                            Parser::lemma_failed(self@, mid, pre, symbol, kids, node);
                        }
                        return Err(e);
                    },
                };
                self.attach(
                    node,
                    child,
                    Ghost(pre),
                    Ghost(symbol),
                    Ghost(kids),
                    Ghost(mid),
                    Ghost(Nonterminal::N),
                );
                proof {
                    kids = kids.push(expand(Nonterminal::N, mid.lex)->Ok_0);
                    assert(kids =~= seq![ParseTree::Leaf(token@), kids[1]]);
                    lemma_expand_sound(symbol, pre.lex);
                }
                Ok(node)
            },
            Token::Variable(_) | Token::Op(Operations::Add) | Token::Op(Operations::Sub)
            | Token::Const(_) | Token::LParen => {
                let ghost mid = self@;
                let child = match self.N() {
                    Ok(child) => child,
                    Err(e) => {
                        proof {
                            Parser::lemma_failed(self@, mid, pre, symbol, kids, node);
                        }
                        return Err(e);
                    },
                };
                self.attach(
                    node,
                    child,
                    Ghost(pre),
                    Ghost(symbol),
                    Ghost(kids),
                    Ghost(mid),
                    Ghost(Nonterminal::N),
                );
                proof {
                    kids = kids.push(expand(Nonterminal::N, mid.lex)->Ok_0);
                    assert(kids =~= seq![kids[0]]);
                    lemma_expand_sound(symbol, pre.lex);
                }
                Ok(node)
            },
            other => Err(ParseError::Syntax(other)),
        }
    }

    /// `N -> Q N'`.
    #[allow(non_snake_case)]
    pub fn N(&mut self) -> (r: Result<usize, ParseError>)
        requires
            old(self)@.wf(),
            old(self)@.fits(Nonterminal::N),
        ensures
            final(self)@.follows(old(self)@, Nonterminal::N, r),
        decreases old(self)@.lex.weight(), Nonterminal::N.rank(),
    {
        let ghost pre = self@;
        let ghost symbol = Nonterminal::N;
        let node = self.open("N", Ghost(symbol));
        let ghost kids = Seq::<ParseTree>::empty();
        let token = self.lex.get_token();
        match token {
            Token::Variable(_) | Token::Op(Operations::Add) | Token::Op(Operations::Sub)
            | Token::Const(_) | Token::LParen => {
                let ghost mid = self@;
                let child = match self.Q() {
                    Ok(child) => child,
                    Err(e) => {
                        proof {
                            Parser::lemma_failed(self@, mid, pre, symbol, kids, node);
                        }
                        return Err(e);
                    },
                };
                self.attach(
                    node,
                    child,
                    Ghost(pre),
                    Ghost(symbol),
                    Ghost(kids),
                    Ghost(mid),
                    Ghost(Nonterminal::Q),
                );
                proof {
                    kids = kids.push(expand(Nonterminal::Q, mid.lex)->Ok_0);
                }
                let ghost mid = self@;
                let child = match self.Np() {
                    Ok(child) => child,
                    Err(e) => {
                        proof {
                            Parser::lemma_failed(self@, mid, pre, symbol, kids, node);
                        }
                        return Err(e);
                    },
                };
                self.attach(
                    node,
                    child,
                    Ghost(pre),
                    Ghost(symbol),
                    Ghost(kids),
                    Ghost(mid),
                    Ghost(Nonterminal::Np),
                );
                proof {
                    kids = kids.push(expand(Nonterminal::Np, mid.lex)->Ok_0);
                    assert(kids =~= seq![kids[0], kids[1]]);
                    lemma_expand_sound(symbol, pre.lex);
                }
                Ok(node)
            },
            other => Err(ParseError::Syntax(other)),
        }
    }

    /// `N' -> "==" N | ε`.
    #[allow(non_snake_case)]
    pub fn Np(&mut self) -> (r: Result<usize, ParseError>)
        requires
            old(self)@.wf(),
            old(self)@.fits(Nonterminal::Np),
        ensures
            final(self)@.follows(old(self)@, Nonterminal::Np, r),
        decreases old(self)@.lex.weight(), Nonterminal::Np.rank(),
    {
        let ghost pre = self@;
        let ghost symbol = Nonterminal::Np;
        let node = self.open("N'", Ghost(symbol));
        let ghost kids = Seq::<ParseTree>::empty();
        let token = self.lex.get_token();
        match token {
            Token::Op(Operations::Eq) => {
                match self.take(node, &token, Ghost(pre), Ghost(symbol), Ghost(kids)) {
                    Ok(()) => {},
                    Err(e) => {
                        return Err(e);
                    },
                }
                proof {
                    kids = kids.push(ParseTree::Leaf(token@));
                }
                let ghost mid = self@;
                let child = match self.N() {
                    Ok(child) => child,
                    Err(e) => {
                        proof {
                            Parser::lemma_failed(self@, mid, pre, symbol, kids, node);
                        }
                        return Err(e);
                    },
                };
                self.attach(
                    node,
                    child,
                    Ghost(pre),
                    Ghost(symbol),
                    Ghost(kids),
                    Ghost(mid),
                    Ghost(Nonterminal::N),
                );
                proof {
                    kids = kids.push(expand(Nonterminal::N, mid.lex)->Ok_0);
                    assert(kids =~= seq![ParseTree::Leaf(token@), kids[1]]);
                    lemma_expand_sound(symbol, pre.lex);
                }
                Ok(node)
            },
            Token::RParen | Token::End | Token::Op(Operations::Or)
            | Token::Op(Operations::And) => {
                self.add_eps_node(node, Ghost(pre), Ghost(symbol));
                proof {
                    lemma_expand_sound(symbol, pre.lex);
                }
                Ok(node)
            },
            other => Err(ParseError::Syntax(other)),
        }
    }

    /// `Q -> T Q'`.
    #[allow(non_snake_case)]
    pub fn Q(&mut self) -> (r: Result<usize, ParseError>)
        requires
            old(self)@.wf(),
            old(self)@.fits(Nonterminal::Q),
        ensures
            final(self)@.follows(old(self)@, Nonterminal::Q, r),
        decreases old(self)@.lex.weight(), Nonterminal::Q.rank(),
    {
        let ghost pre = self@;
        let ghost symbol = Nonterminal::Q;
        let node = self.open("Q", Ghost(symbol));
        let ghost kids = Seq::<ParseTree>::empty();
        let token = self.lex.get_token();
        match token {
            Token::Variable(_) | Token::Op(Operations::Add) | Token::Op(Operations::Sub)
            | Token::Const(_) | Token::LParen => {
                let ghost mid = self@;
                let child = match self.T() {
                    Ok(child) => child,
                    Err(e) => {
                        proof {
                            Parser::lemma_failed(self@, mid, pre, symbol, kids, node);
                        }
                        return Err(e);
                    },
                };
                self.attach(
                    node,
                    child,
                    Ghost(pre),
                    Ghost(symbol),
                    Ghost(kids),
                    Ghost(mid),
                    Ghost(Nonterminal::T),
                );
                proof {
                    kids = kids.push(expand(Nonterminal::T, mid.lex)->Ok_0);
                }
                let ghost mid = self@;
                let child = match self.Qp() {
                    Ok(child) => child,
                    Err(e) => {
                        proof {
                            Parser::lemma_failed(self@, mid, pre, symbol, kids, node);
                        }
                        return Err(e);
                    },
                };
                self.attach(
                    node,
                    child,
                    Ghost(pre),
                    Ghost(symbol),
                    Ghost(kids),
                    Ghost(mid),
                    Ghost(Nonterminal::Qp),
                );
                proof {
                    kids = kids.push(expand(Nonterminal::Qp, mid.lex)->Ok_0);
                    assert(kids =~= seq![kids[0], kids[1]]);
                    lemma_expand_sound(symbol, pre.lex);
                }
                Ok(node)
            },
            other => Err(ParseError::Syntax(other)),
        }
    }

    /// `Q' -> "+" Q | "-" Q | ε`.
    #[allow(non_snake_case)]
    pub fn Qp(&mut self) -> (r: Result<usize, ParseError>)
        requires
            old(self)@.wf(),
            old(self)@.fits(Nonterminal::Qp),
        ensures
            final(self)@.follows(old(self)@, Nonterminal::Qp, r),
        decreases old(self)@.lex.weight(), Nonterminal::Qp.rank(),
    {
        let ghost pre = self@;
        let ghost symbol = Nonterminal::Qp;
        let node = self.open("Q'", Ghost(symbol));
        let ghost kids = Seq::<ParseTree>::empty();
        let token = self.lex.get_token();
        match token {
            Token::Op(Operations::Add) | Token::Op(Operations::Sub) => {
                match self.take(node, &token, Ghost(pre), Ghost(symbol), Ghost(kids)) {
                    Ok(()) => {},
                    Err(e) => {
                        return Err(e);
                    },
                }
                proof {
                    kids = kids.push(ParseTree::Leaf(token@));
                }
                let ghost mid = self@;
                let child = match self.Q() {
                    Ok(child) => child,
                    Err(e) => {
                        proof {
                            Parser::lemma_failed(self@, mid, pre, symbol, kids, node);
                        }
                        return Err(e);
                    },
                };
                self.attach(
                    node,
                    child,
                    Ghost(pre),
                    Ghost(symbol),
                    Ghost(kids),
                    Ghost(mid),
                    Ghost(Nonterminal::Q),
                );
                proof {
                    kids = kids.push(expand(Nonterminal::Q, mid.lex)->Ok_0);
                    assert(kids =~= seq![ParseTree::Leaf(token@), kids[1]]);
                    lemma_expand_sound(symbol, pre.lex);
                }
                Ok(node)
            },
            Token::RParen | Token::End | Token::Op(Operations::Or)
            | Token::Op(Operations::And) | Token::Op(Operations::Eq) => {
                self.add_eps_node(node, Ghost(pre), Ghost(symbol));
                proof {
                    lemma_expand_sound(symbol, pre.lex);
                }
                Ok(node)
            },
            other => Err(ParseError::Syntax(other)),
        }
    }

    /// `T -> F T'`.
    #[allow(non_snake_case)]
    pub fn T(&mut self) -> (r: Result<usize, ParseError>)
        requires
            old(self)@.wf(),
            old(self)@.fits(Nonterminal::T),
        ensures
            final(self)@.follows(old(self)@, Nonterminal::T, r),
        decreases old(self)@.lex.weight(), Nonterminal::T.rank(),
    {
        let ghost pre = self@;
        let ghost symbol = Nonterminal::T;
        let node = self.open("T", Ghost(symbol));
        let ghost kids = Seq::<ParseTree>::empty();
        let token = self.lex.get_token();
        match token {
            Token::Variable(_) | Token::Op(Operations::Add) | Token::Op(Operations::Sub)
            | Token::Const(_) | Token::LParen => {
                let ghost mid = self@;
                let child = match self.F() {
                    Ok(child) => child,
                    Err(e) => {
                        proof {
                            Parser::lemma_failed(self@, mid, pre, symbol, kids, node);
                        }
                        return Err(e);
                    },
                };
                self.attach(
                    node,
                    child,
                    Ghost(pre),
                    Ghost(symbol),
                    Ghost(kids),
                    Ghost(mid),
                    Ghost(Nonterminal::F),
                );
                proof {
                    kids = kids.push(expand(Nonterminal::F, mid.lex)->Ok_0);
                }
                let ghost mid = self@;
                let child = match self.Tp() {
                    Ok(child) => child,
                    Err(e) => {
                        proof {
                            Parser::lemma_failed(self@, mid, pre, symbol, kids, node);
                        }
                        return Err(e);
                    },
                };
                self.attach(
                    node,
                    child,
                    Ghost(pre),
                    Ghost(symbol),
                    Ghost(kids),
                    Ghost(mid),
                    Ghost(Nonterminal::Tp),
                );
                proof {
                    kids = kids.push(expand(Nonterminal::Tp, mid.lex)->Ok_0);
                    assert(kids =~= seq![kids[0], kids[1]]);
                    lemma_expand_sound(symbol, pre.lex);
                }
                Ok(node)
            },
            other => Err(ParseError::Syntax(other)),
        }
    }

    /// `T' -> "*" T | "//" T | "%" T | ε`.
    #[allow(non_snake_case)]
    pub fn Tp(&mut self) -> (r: Result<usize, ParseError>)
        requires
            old(self)@.wf(),
            old(self)@.fits(Nonterminal::Tp),
        ensures
            final(self)@.follows(old(self)@, Nonterminal::Tp, r),
        decreases old(self)@.lex.weight(), Nonterminal::Tp.rank(),
    {
        let ghost pre = self@;
        let ghost symbol = Nonterminal::Tp;
        let node = self.open("T'", Ghost(symbol));
        let ghost kids = Seq::<ParseTree>::empty();
        let token = self.lex.get_token();
        match token {
            Token::Op(Operations::Mul) | Token::Op(Operations::Div)
            | Token::Op(Operations::Mod) => {
                match self.take(node, &token, Ghost(pre), Ghost(symbol), Ghost(kids)) {
                    Ok(()) => {},
                    Err(e) => {
                        return Err(e);
                    },
                }
                proof {
                    kids = kids.push(ParseTree::Leaf(token@));
                }
                let ghost mid = self@;
                let child = match self.T() {
                    Ok(child) => child,
                    Err(e) => {
                        proof {
                            Parser::lemma_failed(self@, mid, pre, symbol, kids, node);
                        }
                        return Err(e);
                    },
                };
                self.attach(
                    node,
                    child,
                    Ghost(pre),
                    Ghost(symbol),
                    Ghost(kids),
                    Ghost(mid),
                    Ghost(Nonterminal::T),
                );
                proof {
                    kids = kids.push(expand(Nonterminal::T, mid.lex)->Ok_0);
                    assert(kids =~= seq![ParseTree::Leaf(token@), kids[1]]);
                    lemma_expand_sound(symbol, pre.lex);
                }
                Ok(node)
            },
            Token::RParen | Token::End | Token::Op(Operations::Or)
            | Token::Op(Operations::And) | Token::Op(Operations::Eq) | Token::Op(Operations::Add)
            | Token::Op(Operations::Sub) => {
                self.add_eps_node(node, Ghost(pre), Ghost(symbol));
                proof {
                    lemma_expand_sound(symbol, pre.lex);
                }
                Ok(node)
            },
            other => Err(ParseError::Syntax(other)),
        }
    }

    /// `F -> "+" C | "-" C | C`.
    #[allow(non_snake_case)]
    pub fn F(&mut self) -> (r: Result<usize, ParseError>)
        requires
            old(self)@.wf(),
            old(self)@.fits(Nonterminal::F),
        ensures
            final(self)@.follows(old(self)@, Nonterminal::F, r),
        decreases old(self)@.lex.weight(), Nonterminal::F.rank(),
    {
        let ghost pre = self@;
        let ghost symbol = Nonterminal::F;
        let node = self.open("F", Ghost(symbol));
        let ghost kids = Seq::<ParseTree>::empty();
        let token = self.lex.get_token();
        match token {
            Token::Op(Operations::Add) | Token::Op(Operations::Sub) => {
                match self.take(node, &token, Ghost(pre), Ghost(symbol), Ghost(kids)) {
                    Ok(()) => {},
                    Err(e) => {
                        return Err(e);
                    },
                }
                proof {
                    kids = kids.push(ParseTree::Leaf(token@));
                }
                let ghost mid = self@;
                let child = match self.C() {
                    Ok(child) => child,
                    Err(e) => {
                        proof {
                            Parser::lemma_failed(self@, mid, pre, symbol, kids, node);
                        }
                        return Err(e);
                    },
                };
                self.attach(
                    node,
                    child,
                    Ghost(pre),
                    Ghost(symbol),
                    Ghost(kids),
                    Ghost(mid),
                    Ghost(Nonterminal::C),
                );
                proof {
                    kids = kids.push(expand(Nonterminal::C, mid.lex)->Ok_0);
                    assert(kids =~= seq![ParseTree::Leaf(token@), kids[1]]);
                    lemma_expand_sound(symbol, pre.lex);
                }
                Ok(node)
            },
            Token::Variable(_) | Token::Const(_) | Token::LParen => {
                let ghost mid = self@;
                let child = match self.C() {
                    Ok(child) => child,
                    Err(e) => {
                        proof {
                            Parser::lemma_failed(self@, mid, pre, symbol, kids, node);
                        }
                        return Err(e);
                    },
                };
                self.attach(
                    node,
                    child,
                    Ghost(pre),
                    Ghost(symbol),
                    Ghost(kids),
                    Ghost(mid),
                    Ghost(Nonterminal::C),
                );
                proof {
                    kids = kids.push(expand(Nonterminal::C, mid.lex)->Ok_0);
                    assert(kids =~= seq![kids[0]]);
                    lemma_expand_sound(symbol, pre.lex);
                }
                Ok(node)
            },
            other => Err(ParseError::Syntax(other)),
        }
    }

    /// `C -> Variable | Number | "True" | "False" | "(" S' ")"`.
    #[allow(non_snake_case)]
    pub fn C(&mut self) -> (r: Result<usize, ParseError>)
        requires
            old(self)@.wf(),
            old(self)@.fits(Nonterminal::C),
        ensures
            final(self)@.follows(old(self)@, Nonterminal::C, r),
        decreases old(self)@.lex.weight(), Nonterminal::C.rank(),
    {
        let ghost pre = self@;
        let ghost symbol = Nonterminal::C;
        let node = self.open("C", Ghost(symbol));
        let ghost kids = Seq::<ParseTree>::empty();
        let token = self.lex.get_token();
        match token {
            Token::Variable(_) | Token::Const(_) => {
                match self.take(node, &token, Ghost(pre), Ghost(symbol), Ghost(kids)) {
                    Ok(()) => {},
                    Err(e) => {
                        return Err(e);
                    },
                }
                proof {
                    kids = kids.push(ParseTree::Leaf(token@));
                    assert(kids =~= seq![ParseTree::Leaf(token@)]);
                    lemma_expand_sound(symbol, pre.lex);
                }
                Ok(node)
            },
            Token::LParen => {
                match self.take(node, &token, Ghost(pre), Ghost(symbol), Ghost(kids)) {
                    Ok(()) => {},
                    Err(e) => {
                        return Err(e);
                    },
                }
                proof {
                    kids = kids.push(ParseTree::Leaf(token@));
                }
                let ghost mid = self@;
                let child = match self.Sp() {
                    Ok(child) => child,
                    Err(e) => {
                        proof {
                            Parser::lemma_failed(self@, mid, pre, symbol, kids, node);
                        }
                        return Err(e);
                    },
                };
                self.attach(
                    node,
                    child,
                    Ghost(pre),
                    Ghost(symbol),
                    Ghost(kids),
                    Ghost(mid),
                    Ghost(Nonterminal::Sp),
                );
                proof {
                    kids = kids.push(expand(Nonterminal::Sp, mid.lex)->Ok_0);
                }
                let token = self.lex.get_token();
                match token {
                    Token::RParen => {},
                    other => {
                        proof {
                            Parser::lemma_failed(self@, self@, pre, symbol, kids, node);
                        }
                        return Err(ParseError::Syntax(other));
                    },
                }
                match self.take(node, &token, Ghost(pre), Ghost(symbol), Ghost(kids)) {
                    Ok(()) => {},
                    Err(e) => {
                        return Err(e);
                    },
                }
                proof {
                    kids = kids.push(ParseTree::Leaf(token@));
                    assert(kids =~= seq![
                            ParseTree::Leaf(TokenValue::LParen),
                            kids[1],
                            ParseTree::Leaf(TokenValue::RParen),
                        ]);
                    lemma_expand_sound(symbol, pre.lex);
                }
                Ok(node)
            },
            other => Err(ParseError::Syntax(other)),
        }
    }
}

} // verus!
