//! The scanner: turns source text into tokens, one token ahead of its reader.

use vstd::prelude::*;
use crate::token::{Constant, ConstantValue, Operations, Token, TokenValue};

verus! {

/// Why the scanner gave up. `pos` is the scanner's cursor at that moment:
/// one past the byte `found`, unless `found` is the end of input.
#[derive(Debug, PartialEq, Eq, Clone, Copy, Structural)]
pub enum LexicalError {
    /// A separator without a token of its own.
    UnknownSeparator { found: u8, pos: usize },
    /// `=` or `/` that is not followed by the same character.
    MalformedOperator { expected: u8, found: u8, pos: usize },
    /// A character that can start neither a word nor a number.
    UnexpectedCharacter { found: u8, pos: usize },
}

/// The end marker: the byte that stands for the end of input.
pub const END_MARK: u8 = 0;

pub const LINE_FEED: u8 = 10;

pub const CARRIAGE_RETURN: u8 = 13;

pub const SPACE: u8 = 32;

pub const PERCENT: u8 = 37;

pub const LEFT_PARENTHESIS: u8 = 40;

pub const RIGHT_PARENTHESIS: u8 = 41;

pub const STAR: u8 = 42;

pub const PLUS: u8 = 43;

pub const COMMA: u8 = 44;

pub const MINUS: u8 = 45;

pub const SLASH: u8 = 47;

pub const DIGIT_0: u8 = 48;

pub const DIGIT_9: u8 = 57;

pub const COLON: u8 = 58;

pub const EQUALS: u8 = 61;

pub const UPPER_A: u8 = 65;

pub const UPPER_Z: u8 = 90;

pub const LOWER_A: u8 = 97;

pub const LOWER_Z: u8 = 122;

/// Space, carriage return and line feed.
pub open spec fn is_blank(c: u8) -> bool {
    c == SPACE || c == CARRIAGE_RETURN || c == LINE_FEED
}

/// The decimal digits.
pub open spec fn is_digit(c: u8) -> bool {
    DIGIT_0 <= c <= DIGIT_9
}

/// The letters `a` to `z` and `A` to `Z`.
pub open spec fn is_letter(c: u8) -> bool {
    (LOWER_A <= c <= LOWER_Z) || (UPPER_A <= c <= UPPER_Z)
}

/// A blank, the end marker, or one of `* / + - % , : = ( )`.
pub open spec fn is_separator(c: u8) -> bool {
    is_blank(c) || c == END_MARK || c == STAR || c == SLASH || c == PLUS || c == MINUS || c
        == PERCENT || c == COMMA || c == COLON || c == EQUALS || c == LEFT_PARENTHESIS || c
        == RIGHT_PARENTHESIS
}

/// Whether the separator is written twice to make one operator (`==`, `//`).
pub open spec fn is_doubled(c: u8) -> bool {
    c == EQUALS || c == SLASH
}

/// The token that a separator stands for, if it has one.
pub open spec fn symbol_token(c: u8) -> Option<TokenValue> {
    if c == END_MARK {
        Some(TokenValue::End)
    } else if c == COMMA {
        Some(TokenValue::Comma)
    } else if c == COLON {
        Some(TokenValue::Colon)
    } else if c == LEFT_PARENTHESIS {
        Some(TokenValue::LParen)
    } else if c == RIGHT_PARENTHESIS {
        Some(TokenValue::RParen)
    } else if c == EQUALS {
        Some(TokenValue::Op(Operations::Eq))
    } else if c == STAR {
        Some(TokenValue::Op(Operations::Mul))
    } else if c == SLASH {
        Some(TokenValue::Op(Operations::Div))
    } else if c == PLUS {
        Some(TokenValue::Op(Operations::Add))
    } else if c == MINUS {
        Some(TokenValue::Op(Operations::Sub))
    } else if c == PERCENT {
        Some(TokenValue::Op(Operations::Mod))
    } else {
        None
    }
}

/// The token that a word stands for: a keyword, or else a variable.
pub open spec fn word_token(text: Seq<char>) -> TokenValue {
    if text == "lambda"@ {
        TokenValue::Lambda
    } else if text == "not"@ {
        TokenValue::Op(Operations::Not)
    } else if text == "and"@ {
        TokenValue::Op(Operations::And)
    } else if text == "or"@ {
        TokenValue::Op(Operations::Or)
    } else if text == "True"@ {
        TokenValue::Const(ConstantValue::True)
    } else if text == "False"@ {
        TokenValue::Const(ConstantValue::False)
    } else {
        TokenValue::Variable(text)
    }
}

/// The scanner's state as a value: the source bytes, the cursor (the number
/// of bytes read so far), the byte read last (0 once the end is reached) and
/// the current token.
pub struct ScanState {
    pub source: Seq<u8>,
    pub pos: nat,
    pub cur: u8,
    pub token: TokenValue,
}

impl ScanState {
    /// Whether the cursor stands before the end of the source.
    pub open spec fn has_more(self) -> bool {
        self.pos < self.source.len()
    }

    /// Reads one byte: the byte under the cursor, which then moves on, or 0
    /// at the end of the source.
    pub open spec fn read(self) -> ScanState {
        if self.has_more() {
            ScanState { cur: self.source[self.pos as int], pos: self.pos + 1, ..self }
        } else {
            ScanState { cur: END_MARK, ..self }
        }
    }

    /// The same state with another current token.
    pub open spec fn with_token(self, token: TokenValue) -> ScanState {
        ScanState { token, ..self }
    }

    /// How many bytes are still to be scanned, the byte read last included
    /// unless it is the end marker.
    pub open spec fn remaining(self) -> nat {
        let unread: nat = if self.has_more() {
            (self.source.len() - self.pos) as nat
        } else {
            0
        };
        if self.cur != END_MARK {
            unread + 1
        } else {
            unread
        }
    }

    /// A measure that every step over a token other than `End` lowers.
    pub open spec fn weight(self) -> nat {
        if self.token is End {
            2 * self.remaining()
        } else {
            2 * self.remaining() + 1
        }
    }

    /// The state after the blanks at the front have been read over.
    pub open spec fn skip_blanks(self) -> ScanState
        decreases self.remaining(),
    {
        if is_blank(self.cur) {
            self.read().skip_blanks()
        } else {
            self
        }
    }

    /// The characters from the byte read last up to the next separator.
    pub open spec fn run(self) -> Seq<char>
        decreases self.remaining(),
    {
        if is_separator(self.cur) {
            Seq::empty()
        } else {
            seq![self.cur as char] + self.read().run()
        }
    }

    /// The state that stands on the next separator.
    pub open spec fn after_run(self) -> ScanState
        decreases self.remaining(),
    {
        if is_separator(self.cur) {
            self
        } else {
            self.read().after_run()
        }
    }

    /// One step of the scanner: the state that stands on the next token, or
    /// the reason why there is none.
    pub open spec fn scan(self) -> Result<ScanState, LexicalError> {
        let s = self.skip_blanks();
        if is_separator(s.cur) {
            match symbol_token(s.cur) {
                None => Err(LexicalError::UnknownSeparator { found: s.cur, pos: s.pos as usize }),
                Some(token) => if is_doubled(s.cur) {
                    let t = s.read();
                    if t.cur == s.cur {
                        Ok(t.read().with_token(token))
                    } else {
                        Err(
                            LexicalError::MalformedOperator {
                                expected: s.cur,
                                found: t.cur,
                                pos: t.pos as usize,
                            },
                        )
                    }
                } else {
                    Ok(s.read().with_token(token))
                },
            }
        } else if is_letter(s.cur) {
            Ok(s.after_run().with_token(word_token(s.run())))
        } else if is_digit(s.cur) {
            Ok(s.after_run().with_token(TokenValue::Const(ConstantValue::Number(s.run()))))
        } else {
            Err(LexicalError::UnexpectedCharacter { found: s.cur, pos: s.pos as usize })
        }
    }

    /// The state in which a scan that failed leaves the scanner: on the byte
    /// that the error names, with the token it had.
    pub open spec fn stuck(self) -> ScanState {
        let s = self.skip_blanks();
        if is_separator(s.cur) && is_doubled(s.cur) {
            s.read()
        } else {
            s
        }
    }

    /// The state after `n` steps, or the state in which the first failing
    /// step among them began.
    pub open spec fn after(self, n: nat) -> ScanState
        decreases n,
    {
        if n == 0 {
            self
        } else {
            match self.scan() {
                Ok(next) => next.after((n - 1) as nat),
                Err(_) => self,
            }
        }
    }

    /// Whether the scanner hands out exactly these tokens from here on: the
    /// first is the current token, and a step that succeeds leads to each
    /// further one.
    pub open spec fn yields(self, tokens: Seq<TokenValue>) -> bool
        decreases tokens.len(),
    {
        tokens.len() == 0 || (tokens[0] == self.token && self.scan() is Ok
            && self.scan()->Ok_0.yields(tokens.drop_first()))
    }

    /// The byte that the scanner sees `i` bytes ahead: the byte read last
    /// for 0, then the bytes from the cursor on, then the end marker 0
    /// without end.
    pub open spec fn byte_ahead(self, i: nat) -> u8 {
        if i == 0 {
            self.cur
        } else if self.pos + i - 1 < self.source.len() {
            self.source[self.pos + i - 1]
        } else {
            END_MARK
        }
    }

    /// How many blanks stand at the front of what the scanner sees.
    pub open spec fn blanks(self) -> nat
        decreases self.remaining(),
    {
        if is_blank(self.cur) {
            self.read().blanks() + 1
        } else {
            0
        }
    }

    /// A first state for this source: nothing read, no token yet.
    pub open spec fn start(source: Seq<u8>) -> ScanState {
        ScanState { source, pos: 0, cur: END_MARK, token: TokenValue::End }
    }
}

/// Reading a byte does not add to what remains, and takes away from it
/// unless the byte read last was the end marker.
pub proof fn lemma_read_remaining(s: ScanState)
    ensures
        s.read().remaining() <= s.remaining(),
        s.cur != END_MARK ==> s.read().remaining() < s.remaining(),
        s.read().source == s.source,
        s.read().token == s.token,
{
}

/// Reading a byte moves what the scanner sees on by one byte.
pub proof fn lemma_read_ahead(s: ScanState, i: nat)
    ensures
        s.read().byte_ahead(i) == s.byte_ahead(i + 1),
{
}

/// After its first byte is read, a scanner sees its source from the first
/// byte on.
pub proof fn lemma_start_ahead(source: Seq<u8>, i: nat)
    requires
        source.len() > 0,
    ensures
        ScanState::start(source).read().byte_ahead(i) == if i < source.len() {
            source[i as int]
        } else {
            END_MARK
        },
{
}

/// What is read over at the front are blanks, all of them: the byte that
/// follows is no blank, and from it on the scanner sees what it saw.
pub proof fn lemma_skip_blanks_ahead(s: ScanState, i: nat)
    ensures
        i < s.blanks() ==> is_blank(s.byte_ahead(i)),
        !is_blank(s.byte_ahead(s.blanks())),
        s.skip_blanks().byte_ahead(i) == s.byte_ahead(s.blanks() + i),
    decreases s.remaining(),
{
    if is_blank(s.cur) {
        lemma_read_remaining(s);
        lemma_read_ahead(s, s.read().blanks());
        lemma_read_ahead(s, s.read().blanks() + i);
        lemma_skip_blanks_ahead(s.read(), i);
        if i > 0 {
            lemma_read_ahead(s, (i - 1) as nat);
            lemma_skip_blanks_ahead(s.read(), (i - 1) as nat);
        }
    }
}

/// A run is the bytes that the scanner sees up to the first separator, each
/// taken as a character, and from that separator on the scanner sees what
/// it saw.
pub proof fn lemma_run_ahead(s: ScanState, i: nat)
    ensures
        i < s.run().len() ==> !is_separator(s.byte_ahead(i)) && s.run()[i as int]
            == s.byte_ahead(i) as char,
        is_separator(s.byte_ahead(s.run().len())),
        s.after_run().byte_ahead(i) == s.byte_ahead(s.run().len() + i),
    decreases s.remaining(),
{
    if !is_separator(s.cur) {
        let rest = s.read().run();
        lemma_read_remaining(s);
        lemma_read_ahead(s, rest.len());
        lemma_read_ahead(s, rest.len() + i);
        lemma_run_ahead(s.read(), i);
        assert(s.run().len() == rest.len() + 1);
        if i > 0 {
            lemma_read_ahead(s, (i - 1) as nat);
            lemma_run_ahead(s.read(), (i - 1) as nat);
        }
    }
}

/// Reading over blanks does not add to what remains and ends on a byte that
/// is no blank.
pub proof fn lemma_skip_blanks(s: ScanState)
    ensures
        s.skip_blanks().remaining() <= s.remaining(),
        s.skip_blanks().source == s.source,
        s.skip_blanks().token == s.token,
        !is_blank(s.skip_blanks().cur),
    decreases s.remaining(),
{
    if is_blank(s.cur) {
        lemma_read_remaining(s);
        lemma_skip_blanks(s.read());
    }
}

/// A run ends on a separator and takes one byte for each of its characters.
pub proof fn lemma_run(s: ScanState)
    ensures
        s.after_run().remaining() + s.run().len() <= s.remaining(),
        s.after_run().source == s.source,
        s.after_run().token == s.token,
        is_separator(s.after_run().cur),
    decreases s.remaining(),
{
    if !is_separator(s.cur) {
        lemma_read_remaining(s);
        lemma_run(s.read());
    }
}

/// Every separator but the blanks has a token, so that a scan never fails
/// for want of one.
pub proof fn lemma_separators_have_tokens(c: u8)
    requires
        is_separator(c),
        !is_blank(c),
    ensures
        symbol_token(c) is Some,
{
}

/// A step keeps the source and never adds to what remains. A step to a token
/// other than `End` takes away from it.
pub proof fn lemma_scan(s: ScanState)
    ensures
        match s.scan() {
            Ok(next) => {
                &&& next.source == s.source
                &&& next.remaining() <= s.remaining()
                &&& !(next.token is End) ==> next.remaining() < s.remaining()
            },
            Err(e) => !(e is UnknownSeparator),
        },
{
    let b = s.skip_blanks();
    lemma_skip_blanks(s);
    lemma_read_remaining(b);
    lemma_read_remaining(b.read());
    lemma_run(b);
}

/// A step never raises the weight, and lowers it when it leaves a token
/// other than `End` behind.
pub proof fn lemma_scan_weight(s: ScanState)
    ensures
        s.scan() is Ok ==> s.scan()->Ok_0.weight() <= s.weight(),
        s.scan() is Ok && !(s.token is End) ==> s.scan()->Ok_0.weight() < s.weight(),
{
    lemma_scan(s);
}

/// No number of steps raises the weight or changes the source.
pub proof fn lemma_after_weight(s: ScanState, n: nat)
    ensures
        s.after(n).weight() <= s.weight(),
        s.after(n).source == s.source,
    decreases n,
{
    if n > 0 {
        lemma_scan(s);
        lemma_scan_weight(s);
        if let Ok(next) = s.scan() {
            lemma_after_weight(next, (n - 1) as nat);
        }
    }
}

/// Steps add up: `m` steps and then `n` more are `m + n` steps.
pub proof fn lemma_after_add(s: ScanState, m: nat, n: nat)
    ensures
        s.after(m).after(n) == s.after(m + n),
    decreases m,
{
    if m > 0 {
        match s.scan() {
            Ok(next) => {
                lemma_after_add(next, (m - 1) as nat, n);
            },
            Err(_) => {
                lemma_after_stuck(s, n);
                lemma_after_stuck(s, m + n);
            },
        }
    }
}

/// The current token and then the tokens from the next state on.
pub proof fn lemma_yields_step(s: ScanState, rest: Seq<TokenValue>)
    requires
        s.scan() is Ok,
        s.scan()->Ok_0.yields(rest),
    ensures
        s.yields(seq![s.token] + rest),
        s.after(rest.len() + 1) == s.scan()->Ok_0.after(rest.len()),
{
    assert((seq![s.token] + rest).drop_first() =~= rest);
}

/// Tokens handed out in a row: the first ones, and the others from the
/// state that the first ones lead to.
pub proof fn lemma_yields_concat(s: ScanState, first: Seq<TokenValue>, others: Seq<TokenValue>)
    requires
        s.yields(first),
        s.after(first.len()).yields(others),
    ensures
        s.yields(first + others),
        s.after(first.len()).after(others.len()) == s.after((first + others).len()),
    decreases first.len(),
{
    lemma_after_add(s, first.len(), others.len());
    if first.len() == 0 {
        assert(first + others =~= others);
    } else {
        let next = s.scan()->Ok_0;
        lemma_yields_concat(next, first.drop_first(), others);
        assert((first + others).drop_first() =~= first.drop_first() + others);
    }
}

/// Where the scanner hands out `tokens`, the state after `i` steps stands on
/// the token at place `i`, the first `i` tokens are handed out on the way
/// there and the others from there on.
pub proof fn lemma_yields_at(s: ScanState, tokens: Seq<TokenValue>, i: nat)
    requires
        s.yields(tokens),
        i <= tokens.len(),
    ensures
        i < tokens.len() ==> s.after(i).token == tokens[i as int] && s.after(i).scan() is Ok
            && s.after(i + 1) == s.after(i).scan()->Ok_0,
        s.yields(tokens.take(i as int)),
        s.after(i).yields(tokens.skip(i as int)),
    decreases i,
{
    if i == 0 {
        assert(tokens.skip(0) =~= tokens);
        if tokens.len() > 0 {
            assert(s.after(1) == s.scan()->Ok_0.after(0));
        }
    } else {
        let next = s.scan()->Ok_0;
        let rest = tokens.drop_first();
        lemma_yields_at(next, rest, (i - 1) as nat);
        assert(tokens.take(i as int).drop_first() =~= rest.take(i - 1));
        assert(tokens.skip(i as int) =~= rest.skip(i - 1));
        lemma_after_add(s, 1, (i - 1) as nat);
        lemma_after_add(s, 1, i);
        assert(s.after(1) == next.after(0));
    }
}

/// A state whose next step fails stays where it is.
pub proof fn lemma_after_stuck(s: ScanState, n: nat)
    requires
        s.scan() is Err,
    ensures
        s.after(n) == s,
{
}

/// The scanner. It owns the source text and always stands on one token, the
/// current one, which `get_token` shows and `next_token` replaces.
pub struct Lexer {
    cur_char: u8,
    cur_pos: usize,
    cur_token: Token,
    str: String,
}

impl View for Lexer {
    type V = ScanState;

    closed spec fn view(&self) -> ScanState {
        ScanState {
            source: vstd::utf8::encode_utf8(self.str@),
            pos: self.cur_pos as nat,
            cur: self.cur_char,
            token: self.cur_token@,
        }
    }
}

/// `String::push`, which appends one character to the end of the string.
#[verifier::external_body]
fn push_char(text: &mut String, c: char)
    ensures
        final(text)@ == old(text)@.push(c),
{
    text.push(c)
}

/// Whether the text is exactly the given word.
fn is_word(text: &String, word: &str) -> (same: bool)
    ensures
        same == (text@ == word@),
{
    *text == word.to_owned()
}

/// The token for a word that has been read in full.
fn word_to_token(text: String) -> (token: Token)
    ensures
        token@ == word_token(text@),
{
    if is_word(&text, "lambda") {
        Token::Lambda
    } else if is_word(&text, "not") {
        Token::Op(Operations::Not)
    } else if is_word(&text, "and") {
        Token::Op(Operations::And)
    } else if is_word(&text, "or") {
        Token::Op(Operations::Or)
    } else if is_word(&text, "True") {
        Token::Const(Constant::True)
    } else if is_word(&text, "False") {
        Token::Const(Constant::False)
    } else {
        Token::Variable(text)
    }
}

/// The token for a separator, if it has one.
fn separator_to_token(c: u8) -> (token: Option<Token>)
    ensures
        match token {
            Some(t) => symbol_token(c) == Some(t@),
            None => symbol_token(c) is None,
        },
{
    if c == END_MARK {
        Some(Token::End)
    } else if c == COMMA {
        Some(Token::Comma)
    } else if c == COLON {
        Some(Token::Colon)
    } else if c == LEFT_PARENTHESIS {
        Some(Token::LParen)
    } else if c == RIGHT_PARENTHESIS {
        Some(Token::RParen)
    } else if c == EQUALS {
        Some(Token::Op(Operations::Eq))
    } else if c == STAR {
        Some(Token::Op(Operations::Mul))
    } else if c == SLASH {
        Some(Token::Op(Operations::Div))
    } else if c == PLUS {
        Some(Token::Op(Operations::Add))
    } else if c == MINUS {
        Some(Token::Op(Operations::Sub))
    } else if c == PERCENT {
        Some(Token::Op(Operations::Mod))
    } else {
        None
    }
}

impl Lexer {
    /// A scanner for `str` that stands on its first token.
    pub fn get(str: String) -> (made: Result<Lexer, LexicalError>)
        requires
            str@.len() > 0,
        ensures
            match ScanState::start(vstd::utf8::encode_utf8(str@)).read().scan() {
                Ok(first) => made is Ok && made->Ok_0@ == first,
                Err(e) => made == Err::<Lexer, LexicalError>(e),
            },
    {
        let mut x = Lexer { cur_char: END_MARK, cur_pos: 0, cur_token: Token::End, str };
        x.next_char();
        match x.next_token() {
            Ok(()) => Ok(x),
            Err(e) => Err(e),
        }
    }

    fn is_blank(c: u8) -> (r: bool)
        ensures
            r == is_blank(c),
    {
        c == SPACE || c == CARRIAGE_RETURN || c == LINE_FEED
    }

    fn is_digit(c: u8) -> (r: bool)
        ensures
            r == is_digit(c),
    {
        c >= DIGIT_0 && c <= DIGIT_9
    }

    fn is_separator(c: u8) -> (r: bool)
        ensures
            r == is_separator(c),
    {
        Lexer::is_blank(c) || c == END_MARK || c == STAR || c == SLASH || c == PLUS || c == MINUS
            || c == PERCENT || c == COMMA || c == COLON || c == EQUALS || c == LEFT_PARENTHESIS
            || c == RIGHT_PARENTHESIS
    }

    fn is_letter(c: u8) -> (r: bool)
        ensures
            r == is_letter(c),
    {
        (c >= LOWER_A && c <= LOWER_Z) || (c >= UPPER_A && c <= UPPER_Z)
    }

    /// Whether the cursor stands before the end of the source.
    pub fn has_more_symbols(&self) -> (more: bool)
        ensures
            more == self@.has_more(),
    {
        self.cur_pos < self.str.as_str().as_bytes().len()
    }

    fn next_char(&mut self)
        ensures
            final(self)@ == old(self)@.read(),
    {
        if !self.has_more_symbols() {
            self.cur_char = END_MARK;
            return ;
        }
        self.cur_char = self.str.as_str().as_bytes()[self.cur_pos];
        self.cur_pos = self.cur_pos + 1;
    }

    /// Reads the next byte and holds it against `expected`.
    fn expect_str(&mut self, expected: u8) -> (r: Result<(), LexicalError>)
        ensures
            final(self)@ == old(self)@.read(),
            match r {
                Ok(()) => final(self)@.cur == expected,
                Err(e) => final(self)@.cur != expected && e == (LexicalError::MalformedOperator {
                    expected,
                    found: final(self)@.cur,
                    pos: final(self)@.pos as usize,
                }),
            },
    {
        self.next_char();
        if self.cur_char == expected {
            Ok(())
        } else {
            Err(
                LexicalError::MalformedOperator {
                    expected,
                    found: self.cur_char,
                    pos: self.cur_pos,
                },
            )
        }
    }

    /// Moves on to the next token. When the text at the cursor is no token,
    /// the scanner stays on the offending byte and keeps its current token.
    pub fn next_token(&mut self) -> (r: Result<(), LexicalError>)
        ensures
            match old(self)@.scan() {
                Ok(next) => r is Ok && final(self)@ == next,
                Err(e) => r == Err::<(), LexicalError>(e) && final(self)@ == old(self)@.stuck(),
            },
    {
        while Lexer::is_blank(self.cur_char)
            invariant
                self@.skip_blanks() == old(self)@.skip_blanks(),
            decreases self@.remaining(),
        {
            proof {
                lemma_read_remaining(self@);
            }
            self.next_char();
        }
        let cur_char: u8 = self.cur_char;
        let ghost blank_free = self@;

        if Lexer::is_separator(cur_char) {
            match separator_to_token(cur_char) {
                None => {
                    return Err(
                        LexicalError::UnknownSeparator { found: cur_char, pos: self.cur_pos },
                    );
                },
                Some(token) => {
                    if cur_char == EQUALS || cur_char == SLASH {
                        match self.expect_str(cur_char) {
                            Ok(()) => {},
                            Err(e) => {
                                return Err(e);
                            },
                        }
                    }
                    self.cur_token = token;
                    self.next_char();
                    return Ok(());
                },
            }
        }
        let is_literal: bool = if Lexer::is_letter(self.cur_char) {
            true
        } else if Lexer::is_digit(self.cur_char) {
            false
        } else {
            return Err(
                LexicalError::UnexpectedCharacter { found: self.cur_char, pos: self.cur_pos },
            );
        };
        let mut cur_tok = String::new();

        while !Lexer::is_separator(self.cur_char)
            invariant
                blank_free.run() == cur_tok@ + self@.run(),
                blank_free.after_run() == self@.after_run(),
            decreases self@.remaining(),
        {
            proof {
                lemma_read_remaining(self@);
                assert(cur_tok@.push(self@.cur as char) + self@.read().run() =~= cur_tok@
                    + self@.run());
            }
            push_char(&mut cur_tok, self.cur_char as char);
            self.next_char();
        }
        assert(cur_tok@ =~= blank_free.run());

        if is_literal {
            self.cur_token = word_to_token(cur_tok);
        } else {
            self.cur_token = Token::Const(Constant::Number(cur_tok));
        }
        Ok(())
    }

    /// The current token. The scanner stays where it is.
    pub fn get_token(&self) -> (token: Token)
        ensures
            token@ == self@.token,
    {
        self.cur_token.clone()
    }
}

/// Looking at the current token does not move the scanner: two looks at one
/// scanner, with no step between them, give the same token.
pub proof fn lemma_peek_twice(lexer: Lexer, first: Token, second: Token)
    requires
        first@ == lexer@.token,
        second@ == lexer@.token,
    ensures
        first@ == second@,
{
}

} // verus!
