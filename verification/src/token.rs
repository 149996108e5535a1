//! Tokens of the language and their canonical spellings.

use vstd::prelude::*;

verus! {

/// The operators of the language.
#[derive(Debug, PartialEq, Eq, Clone, Copy, Structural)]
pub enum Operations {
    Mod,
    Add,
    Sub,
    Mul,
    Div,
    And,
    Or,
    Eq,
    Not,
}

/// A literal constant. A number keeps the characters it was written with.
#[derive(Debug, PartialEq, Eq)]
pub enum Constant {
    True,
    False,
    Number(String),
}

/// A token as the scanner hands it out.
#[derive(Debug, PartialEq, Eq)]
pub enum Token {
    End,
    Lambda,
    Colon,
    Comma,
    LParen,
    RParen,
    Variable(String),
    Op(Operations),
    Const(Constant),
}

/// What a `Constant` stands for: its text as a sequence of characters.
pub enum ConstantValue {
    True,
    False,
    Number(Seq<char>),
}

/// What a `Token` stands for.
pub enum TokenValue {
    End,
    Lambda,
    Colon,
    Comma,
    LParen,
    RParen,
    Variable(Seq<char>),
    Op(Operations),
    Const(ConstantValue),
}

impl View for Constant {
    type V = ConstantValue;

    open spec fn view(&self) -> ConstantValue {
        match self {
            Constant::True => ConstantValue::True,
            Constant::False => ConstantValue::False,
            Constant::Number(text) => ConstantValue::Number(text@),
        }
    }
}

impl View for Token {
    type V = TokenValue;

    open spec fn view(&self) -> TokenValue {
        match self {
            Token::End => TokenValue::End,
            Token::Lambda => TokenValue::Lambda,
            Token::Colon => TokenValue::Colon,
            Token::Comma => TokenValue::Comma,
            Token::LParen => TokenValue::LParen,
            Token::RParen => TokenValue::RParen,
            Token::Variable(name) => TokenValue::Variable(name@),
            Token::Op(op) => TokenValue::Op(*op),
            Token::Const(c) => TokenValue::Const(c@),
        }
    }
}

impl Clone for Constant {
    fn clone(&self) -> (copy: Self)
        ensures
            copy@ == self@,
    {
        match self {
            Constant::True => Constant::True,
            Constant::False => Constant::False,
            Constant::Number(text) => Constant::Number(text.clone()),
        }
    }
}

impl Clone for Token {
    fn clone(&self) -> (copy: Self)
        ensures
            copy@ == self@,
    {
        match self {
            Token::End => Token::End,
            Token::Lambda => Token::Lambda,
            Token::Colon => Token::Colon,
            Token::Comma => Token::Comma,
            Token::LParen => Token::LParen,
            Token::RParen => Token::RParen,
            Token::Variable(name) => Token::Variable(name.clone()),
            Token::Op(op) => Token::Op(*op),
            Token::Const(c) => Token::Const(c.clone()),
        }
    }
}

impl Operations {
    /// The way the operator is written in a parse tree.
    pub open spec fn spelling(self) -> Seq<char> {
        match self {
            Operations::Mod => "%"@,
            Operations::Add => "+"@,
            Operations::Sub => "-"@,
            Operations::Mul => "*"@,
            Operations::Div => "//"@,
            Operations::And => "and"@,
            Operations::Or => "or"@,
            Operations::Eq => "=="@,
            Operations::Not => "not"@,
        }
    }
}

impl TokenValue {
    /// The way the token is written in a parse tree: a keyword or symbol by
    /// its fixed spelling, a variable or number by its own text. The end of
    /// input has no spelling of its own and is written as the empty text.
    pub open spec fn spelling(self) -> Seq<char> {
        match self {
            TokenValue::End => Seq::empty(),
            TokenValue::Lambda => "lambda"@,
            TokenValue::Colon => ":"@,
            TokenValue::Comma => ","@,
            TokenValue::LParen => "("@,
            TokenValue::RParen => ")"@,
            TokenValue::Variable(name) => name,
            TokenValue::Op(op) => op.spelling(),
            TokenValue::Const(ConstantValue::True) => "True"@,
            TokenValue::Const(ConstantValue::False) => "False"@,
            TokenValue::Const(ConstantValue::Number(text)) => text,
        }
    }
}

impl Token {
    /// The token's spelling as an owned string.
    pub fn spelling(&self) -> (text: String)
        ensures
            text@ == self@.spelling(),
    {
        match self {
            Token::End => String::new(),
            Token::Lambda => "lambda".to_owned(),
            Token::Colon => ":".to_owned(),
            Token::Comma => ",".to_owned(),
            Token::LParen => "(".to_owned(),
            Token::RParen => ")".to_owned(),
            Token::Variable(name) => name.clone(),
            Token::Op(Operations::Mod) => "%".to_owned(),
            Token::Op(Operations::Add) => "+".to_owned(),
            Token::Op(Operations::Sub) => "-".to_owned(),
            Token::Op(Operations::Mul) => "*".to_owned(),
            Token::Op(Operations::Div) => "//".to_owned(),
            Token::Op(Operations::And) => "and".to_owned(),
            Token::Op(Operations::Or) => "or".to_owned(),
            Token::Op(Operations::Eq) => "==".to_owned(),
            Token::Op(Operations::Not) => "not".to_owned(),
            Token::Const(Constant::True) => "True".to_owned(),
            Token::Const(Constant::False) => "False".to_owned(),
            Token::Const(Constant::Number(text)) => text.clone(),
        }
    }
}

} // verus!
