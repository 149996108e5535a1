use lambda_parser::lexer::LexicalError;
use lambda_parser::parser::{ParseError, Parser, MAX_SOURCE_LEN};
use lambda_parser::token::Token;
use petgraph::graph::NodeIndex;
use petgraph::Graph;

fn parser(text: &str) -> Parser {
    assert!(!text.is_empty() && text.len() <= MAX_SOURCE_LEN);
    Parser::get(text.to_string()).unwrap()
}

fn label(graph: &Graph<String, &'static str>, node: usize) -> String {
    graph[NodeIndex::new(node)].clone()
}

fn children(graph: &Graph<String, &'static str>, node: usize) -> Vec<usize> {
    let mut found = Vec::new();
    for edge in graph.raw_edges() {
        if edge.source().index() == node {
            found.push(edge.target().index());
        }
    }
    found
}

fn child_labels(graph: &Graph<String, &'static str>, node: usize) -> Vec<String> {
    children(graph, node).into_iter().map(|c| label(graph, c)).collect()
}

fn only_child(graph: &Graph<String, &'static str>, node: usize, wanted: &str) -> usize {
    let kids = children(graph, node);
    assert_eq!(kids.len(), 1, "children of {}", label(graph, node));
    assert_eq!(label(graph, kids[0]), wanted);
    kids[0]
}

fn leaves(graph: &Graph<String, &'static str>, node: usize, out: &mut Vec<String>) {
    let kids = children(graph, node);
    if kids.is_empty() {
        out.push(label(graph, node));
    }
    for kid in kids {
        leaves(graph, kid, out);
    }
}

fn rendering(graph: &Graph<String, &'static str>, root: usize) -> String {
    let mut out = Vec::new();
    leaves(graph, root, &mut out);
    let words: Vec<String> = out.into_iter().filter(|l| l != "ε").collect();
    words.join(" ")
}

fn assert_is_tree(graph: &Graph<String, &'static str>, root: usize) {
    assert_eq!(graph.edge_count() + 1, graph.node_count());
    let mut parents = vec![0usize; graph.node_count()];
    for edge in graph.raw_edges() {
        parents[edge.target().index()] += 1;
        assert!(edge.source().index() < edge.target().index());
    }
    for (node, count) in parents.iter().enumerate() {
        assert_eq!(*count, if node == root { 0 } else { 1 });
    }
}

#[test]
fn root_is_s_with_four_children() {
    let mut p = parser("lambda x, y: x + y");
    let root = p.S().unwrap();
    assert_eq!(root, 0);
    assert_eq!(label(&p.graph, root), "S");
    assert_eq!(child_labels(&p.graph, root), vec!["lambda", "V", ":", "S'"]);
    assert_is_tree(&p.graph, root);
}

#[test]
fn empty_variable_list_is_one_epsilon_child() {
    let mut p = parser("lambda: 1");
    let root = p.S().unwrap();
    let vars = children(&p.graph, root)[1];
    assert_eq!(label(&p.graph, vars), "V");
    assert_eq!(child_labels(&p.graph, vars), vec!["ε"]);
}

#[test]
fn every_inner_node_has_a_child() {
    let mut p = parser("lambda a: not (a == 2) or a // 3 % 4 - -5");
    let root = p.S().unwrap();
    let symbols = [
        "S", "V", "V'", "S'", "E", "E'", "O", "O'", "A", "N", "N'", "Q", "Q'", "T", "T'", "F",
        "C",
    ];
    let mut epsilons = 0;
    for node in 0..p.graph.node_count() {
        let kids = child_labels(&p.graph, node);
        let name = label(&p.graph, node);
        if symbols.contains(&name.as_str()) {
            assert!(!kids.is_empty(), "{} has no child", name);
        }
        if kids.contains(&"ε".to_string()) {
            assert_eq!(kids.len(), 1);
            epsilons += 1;
        }
    }
    assert!(epsilons > 0);
    assert_is_tree(&p.graph, root);
}

#[test]
fn leaves_spell_the_input() {
    let mut p = parser("lambda x,y:(x==1 and not y)//2 % var92 or True");
    let root = p.S().unwrap();
    assert_eq!(
        rendering(&p.graph, root),
        "lambda x , y : ( x == 1 and not y ) // 2 % var92 or True"
    );
    assert_eq!(p.lex.get_token(), Token::End);
}

#[test]
fn scenario_sum_of_two_numbers() {
    let mut p = parser("lambda: 1+2");
    let root = p.S().unwrap();
    let g = &p.graph;
    let body = children(g, root)[3];
    assert_eq!(label(g, body), "S'");
    let e = only_child(g, body, "E");
    assert_eq!(child_labels(g, e), vec!["O", "E'"]);
    let o = children(g, e)[0];
    assert_eq!(child_labels(g, o), vec!["A", "O'"]);
    let a = children(g, o)[0];
    let n = only_child(g, a, "N");
    assert_eq!(child_labels(g, n), vec!["Q", "N'"]);
    let q = children(g, n)[0];
    assert_eq!(child_labels(g, q), vec!["T", "Q'"]);
    let t = children(g, q)[0];
    assert_eq!(rendering(g, t), "1");
    let qp = children(g, q)[1];
    assert_eq!(child_labels(g, qp), vec!["+", "Q"]);
    let nested = children(g, qp)[1];
    assert_eq!(child_labels(g, nested), vec!["T", "Q'"]);
    assert_eq!(rendering(g, nested), "2");
    let nested_rest = children(g, nested)[1];
    assert_eq!(child_labels(g, nested_rest), vec!["ε"]);
    assert_eq!(rendering(g, root), "lambda : 1 + 2");
    assert_eq!(g.node_count(), 34);
}

#[test]
fn scenario_comparison_and_negation() {
    let mut p = parser("lambda x: x == 1 and not (x == 2)");
    let root = p.S().unwrap();
    let g = &p.graph;
    assert_eq!(rendering(g, root), "lambda x : x == 1 and not ( x == 2 )");
    let vars = children(g, root)[1];
    assert_eq!(child_labels(g, vars), vec!["x", "V'"]);
    let body = children(g, root)[3];
    let e = only_child(g, body, "E");
    let o = children(g, e)[0];
    assert_eq!(child_labels(g, o), vec!["A", "O'"]);
    let a = children(g, o)[0];
    let n = only_child(g, a, "N");
    let np = children(g, n)[1];
    assert_eq!(child_labels(g, np), vec!["==", "N"]);
    let op = children(g, o)[1];
    assert_eq!(child_labels(g, op), vec!["and", "O"]);
    let right = children(g, op)[1];
    let negated = children(g, right)[0];
    assert_eq!(child_labels(g, negated), vec!["not", "N"]);
    let inner_n = children(g, negated)[1];
    let q = children(g, inner_n)[0];
    let t = children(g, q)[0];
    let f = children(g, t)[0];
    let c = only_child(g, f, "C");
    assert_eq!(child_labels(g, c), vec!["(", "S'", ")"]);
    assert_eq!(rendering(g, children(g, c)[1]), "x == 2");
    assert_is_tree(g, root);
}

#[test]
fn scenario_missing_body_is_a_syntax_error() {
    let mut p = parser("lambda x,y:");
    assert_eq!(p.S(), Err(ParseError::Syntax(Token::End)));
}

#[test]
fn scenario_dangling_plus_is_a_syntax_error() {
    let mut p = parser("a+");
    assert_eq!(p.Sp(), Err(ParseError::Syntax(Token::End)));
}

#[test]
fn scenario_at_sign_is_a_lexical_error() {
    let mut p = parser("lambda x: x + @");
    assert_eq!(
        p.S(),
        Err(ParseError::Lexical(LexicalError::UnexpectedCharacter { found: b'@', pos: 15 }))
    );
    assert_eq!(
        Parser::get("@".to_string()).err(),
        Some(ParseError::Lexical(LexicalError::UnexpectedCharacter { found: b'@', pos: 1 }))
    );
}

#[test]
fn get_leaf_adds_one_node_and_returns_its_number() {
    let mut graph: Graph<String, &'static str> = Graph::new();
    assert_eq!(lambda_parser::graph::Tree::get_leaf(&mut graph, "first".to_string()), 0);
    assert_eq!(lambda_parser::graph::Tree::get_leaf(&mut graph, "second".to_string()), 1);
    assert_eq!(graph.node_count(), 2);
    assert_eq!(graph.edge_count(), 0);
    assert_eq!(label(&graph, 0), "first");
    assert_eq!(label(&graph, 1), "second");
}

#[test]
fn new_parser_has_an_empty_graph() {
    let p = parser("lambda: x");
    assert_eq!(p.graph.node_count(), 0);
    assert_eq!(p.graph.edge_count(), 0);
    assert_eq!(p.lex.get_token(), Token::Lambda);
}

#[test]
fn nodes_are_numbered_parent_first_and_edges_child_first() {
    let mut p = parser("x");
    let root = p.C().unwrap();
    assert_eq!(root, 0);
    assert_eq!(label(&p.graph, 0), "C");
    assert_eq!(label(&p.graph, 1), "x");
    let edges: Vec<(usize, usize)> =
        p.graph.raw_edges().iter().map(|e| (e.source().index(), e.target().index())).collect();
    assert_eq!(edges, vec![(0, 1)]);

    let mut p = parser("-(a)");
    let root = p.F().unwrap();
    let labels: Vec<String> = (0..p.graph.node_count()).map(|n| label(&p.graph, n)).collect();
    assert_eq!(root, 0);
    assert_eq!(
        labels[..6].to_vec(),
        vec!["F", "-", "C", "(", "S'", "E"]
    );
    let edges: Vec<(usize, usize)> =
        p.graph.raw_edges().iter().map(|e| (e.source().index(), e.target().index())).collect();
    assert_eq!(edges[0], (0, 1));
    assert_eq!(edges[1], (2, 3));
    assert_eq!(*edges.last().unwrap(), (0, 2));
    assert_is_tree(&p.graph, root);
}

#[test]
fn a_second_tree_goes_after_the_first() {
    let mut p = parser("a b");
    assert_eq!(p.C(), Ok(0));
    assert_eq!(p.C(), Ok(2));
    let labels: Vec<String> = (0..p.graph.node_count()).map(|n| label(&p.graph, n)).collect();
    assert_eq!(labels, vec!["C", "a", "C", "b"]);
    assert_eq!(p.lex.get_token(), Token::End);
}

#[test]
fn variable_list_alternates_names_and_commas() {
    let mut p = parser("a, b ,c :");
    let root = p.V().unwrap();
    assert_eq!(rendering(&p.graph, root), "a , b , c");
    assert_eq!(child_labels(&p.graph, root), vec!["a", "V'"]);
    let rest = children(&p.graph, root)[1];
    assert_eq!(child_labels(&p.graph, rest), vec![",", "V"]);
    assert_eq!(p.lex.get_token(), Token::Colon);
}

#[test]
fn trailing_comma_ends_in_an_empty_list() {
    let mut p = parser("a, :");
    let root = p.V().unwrap();
    let rest = children(&p.graph, root)[1];
    let last = children(&p.graph, rest)[1];
    assert_eq!(label(&p.graph, last), "V");
    assert_eq!(child_labels(&p.graph, last), vec!["ε"]);
}

#[test]
fn rest_of_a_chain_needs_a_following_token() {
    assert_eq!(parser(" ").Ep(), Ok(0));
    assert_eq!(parser(")").Ep(), Ok(0));
    assert_eq!(parser("x").Ep(), Err(ParseError::Syntax(Token::Variable("x".to_string()))));
    assert_eq!(
        parser("and x").Ep(),
        Err(ParseError::Syntax(Token::Op(lambda_parser::token::Operations::And)))
    );
    assert_eq!(parser("or").Op(), Ok(0));
    assert_eq!(parser("and").Np(), Ok(0));
    assert_eq!(parser("==").Qp(), Ok(0));
    assert_eq!(parser("+").Tp(), Ok(0));
    assert_eq!(parser("x").Tp(), Err(ParseError::Syntax(Token::Variable("x".to_string()))));
    assert_eq!(parser(":").Qp(), Err(ParseError::Syntax(Token::Colon)));
}

#[test]
fn operators_spell_as_in_the_source_language() {
    let mut p = parser("a // b * c % d == e - f");
    let root = p.E().unwrap();
    assert_eq!(rendering(&p.graph, root), "a // b * c % d == e - f");
    let mut p = parser("// b");
    let root = p.Tp().unwrap();
    assert_eq!(child_labels(&p.graph, root), vec!["//", "T"]);
    let mut p = parser("== b");
    let root = p.Np().unwrap();
    assert_eq!(child_labels(&p.graph, root), vec!["==", "N"]);
}

#[test]
fn constants_are_leaves_of_c() {
    for (text, leaf) in [("True", "True"), ("False", "False"), ("0042", "0042"), ("name", "name")]
    {
        let mut p = parser(text);
        let root = p.C().unwrap();
        assert_eq!(child_labels(&p.graph, root), vec![leaf]);
    }
}

#[test]
fn nested_lambda_is_a_body() {
    let mut p = parser("lambda x: lambda y: (lambda: x)");
    let root = p.S().unwrap();
    assert_eq!(rendering(&p.graph, root), "lambda x : lambda y : ( lambda : x )");
    let body = children(&p.graph, root)[3];
    assert_eq!(child_labels(&p.graph, body), vec!["S"]);
    assert_is_tree(&p.graph, root);
}

#[test]
fn s_stops_before_what_it_does_not_need() {
    let mut p = parser("lambda: 1 ) @");
    assert_eq!(p.S(), Ok(0));
    assert_eq!(p.lex.get_token(), Token::RParen);
    assert_eq!(rendering(&p.graph, 0), "lambda : 1");
}

#[test]
fn missing_colon_is_a_syntax_error() {
    assert_eq!(
        parser("lambda x y: 1").S(),
        Err(ParseError::Syntax(Token::Variable("y".to_string())))
    );
    assert_eq!(parser("x: 1").S(), Err(ParseError::Syntax(Token::Variable("x".to_string()))));
}

#[test]
fn missing_closing_parenthesis_is_a_syntax_error() {
    assert_eq!(parser("(1 + 2").C(), Err(ParseError::Syntax(Token::End)));
    assert_eq!(parser("(1 2)").C(), Err(ParseError::Syntax(Token::Const(
        lambda_parser::token::Constant::Number("2".to_string())
    ))));
}

#[test]
fn doubled_not_is_a_syntax_error() {
    assert_eq!(
        parser("not not x").A(),
        Err(ParseError::Syntax(Token::Op(lambda_parser::token::Operations::Not)))
    );
    assert_eq!(
        parser("1 + not x").Q(),
        Err(ParseError::Syntax(Token::Op(lambda_parser::token::Operations::Not)))
    );
}

#[test]
fn lexical_error_in_an_operator_ends_the_parse() {
    assert_eq!(
        parser("lambda: a = b").S(),
        Err(ParseError::Lexical(LexicalError::MalformedOperator {
            expected: b'=',
            found: b' ',
            pos: 12
        }))
    );
}

#[test]
fn the_longest_sample_parses() {
    let text = "lambda: (Hello == 42 or not (Hello == 24)) -92 - 152 * 3 // 2 + 33 -varvarvar * 92 %world";
    let mut p = parser(text);
    let root = p.S().unwrap();
    assert_eq!(
        rendering(&p.graph, root),
        "lambda : ( Hello == 42 or not ( Hello == 24 ) ) - 92 - 152 * 3 // 2 + 33 - varvarvar * 92 % world"
    );
    assert_is_tree(&p.graph, root);
    assert_eq!(p.lex.get_token(), Token::End);
}
