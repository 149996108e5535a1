//! The grammar's symbols and the tables that say which production a token
//! selects.

use vstd::prelude::*;
use crate::lexer::LexicalError;
use crate::token::{Operations, TokenValue};

verus! {

/// The grammar's nonterminals. A name that ends in `p` is the primed symbol:
/// `Vp` is `V'`.
#[derive(Debug, PartialEq, Eq, Clone, Copy, Structural)]
pub enum Nonterminal {
    S,
    V,
    Vp,
    Sp,
    E,
    Ep,
    O,
    Op,
    A,
    N,
    Np,
    Q,
    Qp,
    T,
    Tp,
    F,
    C,
}

impl Nonterminal {
    /// The label of the symbol's nodes in a parse tree.
    pub open spec fn name(self) -> Seq<char> {
        match self {
            Nonterminal::S => "S"@,
            Nonterminal::V => "V"@,
            Nonterminal::Vp => "V'"@,
            Nonterminal::Sp => "S'"@,
            Nonterminal::E => "E"@,
            Nonterminal::Ep => "E'"@,
            Nonterminal::O => "O"@,
            Nonterminal::Op => "O'"@,
            Nonterminal::A => "A"@,
            Nonterminal::N => "N"@,
            Nonterminal::Np => "N'"@,
            Nonterminal::Q => "Q"@,
            Nonterminal::Qp => "Q'"@,
            Nonterminal::T => "T"@,
            Nonterminal::Tp => "T'"@,
            Nonterminal::F => "F"@,
            Nonterminal::C => "C"@,
        }
    }
}

/// How many nodes at most a derivation adds for each step that lowers the
/// scanner's weight.
pub const NODES_PER_STEP: usize = 32;

/// Why a derivation failed: the scanner gave up, or the current token
/// selects no production of the symbol at hand.
pub enum ParseFailure {
    Lexical(LexicalError),
    Syntax(TokenValue),
}

/// Whether an expression can begin with the token: a variable, `not`, a
/// sign, a constant or an opening parenthesis.
pub open spec fn starts_expression(token: TokenValue) -> bool {
    token == TokenValue::Op(Operations::Not) || starts_operand(token)
}

/// Whether a comparison, a sum, a product or a factor can begin with the
/// token: a variable, a sign, a constant or an opening parenthesis.
pub open spec fn starts_operand(token: TokenValue) -> bool {
    token == TokenValue::Op(Operations::Add) || token == TokenValue::Op(Operations::Sub)
        || starts_atom(token)
}

/// Whether an unsigned operand can begin with the token: a variable, a
/// constant or an opening parenthesis.
pub open spec fn starts_atom(token: TokenValue) -> bool {
    token is Variable || token is Const || token is LParen
}

impl Nonterminal {
    /// Whether the symbol's one production is two nonterminals in a row:
    /// `E -> O E'`, `O -> A O'`, `N -> Q N'`, `Q -> T Q'`, `T -> F T'`.
    pub open spec fn is_chain(self) -> bool {
        self is E || self is O || self is N || self is Q || self is T
    }

    /// Whether the symbol is the rest of a chain: an operator and the chain
    /// once more, or nothing. `E' -> "or" E | ε`, `O' -> "and" O | ε`,
    /// `N' -> "==" N | ε`, `Q' -> "+" Q | "-" Q | ε`,
    /// `T' -> "*" T | "//" T | "%" T | ε`.
    pub open spec fn is_rest(self) -> bool {
        self is Ep || self is Op || self is Np || self is Qp || self is Tp
    }

    /// For a chain, its first symbol; for the rest of a chain, the chain.
    pub open spec fn operand(self) -> Nonterminal {
        match self {
            Nonterminal::E => Nonterminal::O,
            Nonterminal::O => Nonterminal::A,
            Nonterminal::N => Nonterminal::Q,
            Nonterminal::Q => Nonterminal::T,
            Nonterminal::T => Nonterminal::F,
            Nonterminal::Ep => Nonterminal::E,
            Nonterminal::Op => Nonterminal::O,
            Nonterminal::Np => Nonterminal::N,
            Nonterminal::Qp => Nonterminal::Q,
            Nonterminal::Tp => Nonterminal::T,
            other => other,
        }
    }

    /// For a chain, the symbol that stands for its rest.
    pub open spec fn rest(self) -> Nonterminal {
        match self {
            Nonterminal::E => Nonterminal::Ep,
            Nonterminal::O => Nonterminal::Op,
            Nonterminal::N => Nonterminal::Np,
            Nonterminal::Q => Nonterminal::Qp,
            Nonterminal::T => Nonterminal::Tp,
            other => other,
        }
    }

    /// For a chain, whether it can begin with the token.
    pub open spec fn begins_with(self, token: TokenValue) -> bool {
        match self {
            Nonterminal::E | Nonterminal::O => starts_expression(token),
            Nonterminal::N | Nonterminal::Q | Nonterminal::T => starts_operand(token),
            _ => false,
        }
    }

    /// For the rest of a chain, whether the token is one of its operators.
    pub open spec fn goes_on_with(self, token: TokenValue) -> bool {
        match self {
            Nonterminal::Ep => token == TokenValue::Op(Operations::Or),
            Nonterminal::Op => token == TokenValue::Op(Operations::And),
            Nonterminal::Np => token == TokenValue::Op(Operations::Eq),
            Nonterminal::Qp => token == TokenValue::Op(Operations::Add) || token
                == TokenValue::Op(Operations::Sub),
            Nonterminal::Tp => token == TokenValue::Op(Operations::Mul) || token
                == TokenValue::Op(Operations::Div) || token == TokenValue::Op(Operations::Mod),
            _ => false,
        }
    }

    /// For the rest of a chain, whether the token may follow the chain, so
    /// that the rest is empty: a closing parenthesis, the end of input, or
    /// an operator that binds less tightly.
    pub open spec fn ends_before(self, token: TokenValue) -> bool {
        let closing = token is RParen || token is End;
        let or = token == TokenValue::Op(Operations::Or);
        let and = token == TokenValue::Op(Operations::And);
        let eq = token == TokenValue::Op(Operations::Eq);
        let sign = token == TokenValue::Op(Operations::Add) || token == TokenValue::Op(
            Operations::Sub,
        );
        match self {
            Nonterminal::Ep => closing,
            Nonterminal::Op => closing || or,
            Nonterminal::Np => closing || or || and,
            Nonterminal::Qp => closing || or || and || eq,
            Nonterminal::Tp => closing || or || and || eq || sign,
            _ => false,
        }
    }

    /// How many nodes a derivation of the symbol may add before it consumes
    /// its first token. Every production's own nodes and the allowances of
    /// the symbols it begins with are within the symbol's allowance.
    pub open spec fn allowance(self) -> nat {
        match self {
            Nonterminal::Sp => 20,
            Nonterminal::E => 19,
            Nonterminal::O => 16,
            Nonterminal::A => 13,
            Nonterminal::N => 12,
            Nonterminal::Q => 9,
            Nonterminal::T => 6,
            Nonterminal::F => 3,
            _ => 2,
        }
    }

    /// An order in which every symbol stands above the symbols that its
    /// productions reach before a token is consumed.
    pub open spec fn rank(self) -> nat {
        match self {
            Nonterminal::Sp => 8,
            Nonterminal::E => 7,
            Nonterminal::O => 6,
            Nonterminal::A => 5,
            Nonterminal::N => 4,
            Nonterminal::Q => 3,
            Nonterminal::T => 2,
            Nonterminal::F => 1,
            _ => 0,
        }
    }
}

} // verus!
