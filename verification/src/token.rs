//! Tokens: the kind of each lexeme, the token record with its source line,
//! and the one-lookahead token stream the parser reads.

use vstd::prelude::*;

use crate::Line;
use crate::error::LoxError;
use crate::error::SpecLoxError;
use crate::numeric::spec_display_number;
use crate::numeric::display_number;

verus! {

/// The mathematical content of a [`TokenType`].
pub enum SpecTokenType {
    LeftParen,
    RightParen,
    LeftBrace,
    RightBrace,
    Comma,
    Dot,
    Minus,
    Plus,
    Semicolon,
    Slash,
    Star,
    Bang,
    BangEqual,
    Equal,
    EqualEqual,
    Greater,
    GreaterEqual,
    Less,
    LessEqual,
    Identifier(Seq<char>),
    StrLit(Seq<char>),
    Number(u64),
    And,
    Class,
    Else,
    False,
    Fun,
    For,
    If,
    Nil,
    Or,
    Print,
    Return,
    Super,
    This,
    True,
    Var,
    While,
    Eof,
}

/// The kind of a token.  A string literal's payload is its content without
/// the quotes; a number's payload is the encoding of the double it denotes.
#[derive(Debug)]
pub enum TokenType {
    LeftParen,
    RightParen,
    LeftBrace,
    RightBrace,
    Comma,
    Dot,
    Minus,
    Plus,
    Semicolon,
    Slash,
    Star,
    Bang,
    BangEqual,
    Equal,
    EqualEqual,
    Greater,
    GreaterEqual,
    Less,
    LessEqual,
    Identifier(String),
    StrLit(String),
    Number(u64),
    And,
    Class,
    Else,
    False,
    Fun,
    For,
    If,
    Nil,
    Or,
    Print,
    Return,
    Super,
    This,
    True,
    Var,
    While,
    Eof,
}

impl View for TokenType {
    type V = SpecTokenType;

    open spec fn view(&self) -> SpecTokenType {
        match self {
            TokenType::LeftParen => SpecTokenType::LeftParen,
            TokenType::RightParen => SpecTokenType::RightParen,
            TokenType::LeftBrace => SpecTokenType::LeftBrace,
            TokenType::RightBrace => SpecTokenType::RightBrace,
            TokenType::Comma => SpecTokenType::Comma,
            TokenType::Dot => SpecTokenType::Dot,
            TokenType::Minus => SpecTokenType::Minus,
            TokenType::Plus => SpecTokenType::Plus,
            TokenType::Semicolon => SpecTokenType::Semicolon,
            TokenType::Slash => SpecTokenType::Slash,
            TokenType::Star => SpecTokenType::Star,
            TokenType::Bang => SpecTokenType::Bang,
            TokenType::BangEqual => SpecTokenType::BangEqual,
            TokenType::Equal => SpecTokenType::Equal,
            TokenType::EqualEqual => SpecTokenType::EqualEqual,
            TokenType::Greater => SpecTokenType::Greater,
            TokenType::GreaterEqual => SpecTokenType::GreaterEqual,
            TokenType::Less => SpecTokenType::Less,
            TokenType::LessEqual => SpecTokenType::LessEqual,
            TokenType::Identifier(s) => SpecTokenType::Identifier(s@),
            TokenType::StrLit(s) => SpecTokenType::StrLit(s@),
            TokenType::Number(b) => SpecTokenType::Number(*b),
            TokenType::And => SpecTokenType::And,
            TokenType::Class => SpecTokenType::Class,
            TokenType::Else => SpecTokenType::Else,
            TokenType::False => SpecTokenType::False,
            TokenType::Fun => SpecTokenType::Fun,
            TokenType::For => SpecTokenType::For,
            TokenType::If => SpecTokenType::If,
            TokenType::Nil => SpecTokenType::Nil,
            TokenType::Or => SpecTokenType::Or,
            TokenType::Print => SpecTokenType::Print,
            TokenType::Return => SpecTokenType::Return,
            TokenType::Super => SpecTokenType::Super,
            TokenType::This => SpecTokenType::This,
            TokenType::True => SpecTokenType::True,
            TokenType::Var => SpecTokenType::Var,
            TokenType::While => SpecTokenType::While,
            TokenType::Eof => SpecTokenType::Eof,
        }
    }
}

/// Structural equality of two token kinds, payloads included; numbers
/// compare by their encodings.
pub fn token_type_eq(a: &TokenType, b: &TokenType) -> (r: bool)
    ensures
        r == (a@ == b@),
{
    match (a, b) {
        (TokenType::LeftParen, TokenType::LeftParen) => true,
        (TokenType::RightParen, TokenType::RightParen) => true,
        (TokenType::LeftBrace, TokenType::LeftBrace) => true,
        (TokenType::RightBrace, TokenType::RightBrace) => true,
        (TokenType::Comma, TokenType::Comma) => true,
        (TokenType::Dot, TokenType::Dot) => true,
        (TokenType::Minus, TokenType::Minus) => true,
        (TokenType::Plus, TokenType::Plus) => true,
        (TokenType::Semicolon, TokenType::Semicolon) => true,
        (TokenType::Slash, TokenType::Slash) => true,
        (TokenType::Star, TokenType::Star) => true,
        (TokenType::Bang, TokenType::Bang) => true,
        (TokenType::BangEqual, TokenType::BangEqual) => true,
        (TokenType::Equal, TokenType::Equal) => true,
        (TokenType::EqualEqual, TokenType::EqualEqual) => true,
        (TokenType::Greater, TokenType::Greater) => true,
        (TokenType::GreaterEqual, TokenType::GreaterEqual) => true,
        (TokenType::Less, TokenType::Less) => true,
        (TokenType::LessEqual, TokenType::LessEqual) => true,
        (TokenType::Identifier(x), TokenType::Identifier(y)) => x.eq(y),
        (TokenType::StrLit(x), TokenType::StrLit(y)) => x.eq(y),
        (TokenType::Number(x), TokenType::Number(y)) => x == y,
        (TokenType::And, TokenType::And) => true,
        (TokenType::Class, TokenType::Class) => true,
        (TokenType::Else, TokenType::Else) => true,
        (TokenType::False, TokenType::False) => true,
        (TokenType::Fun, TokenType::Fun) => true,
        (TokenType::For, TokenType::For) => true,
        (TokenType::If, TokenType::If) => true,
        (TokenType::Nil, TokenType::Nil) => true,
        (TokenType::Or, TokenType::Or) => true,
        (TokenType::Print, TokenType::Print) => true,
        (TokenType::Return, TokenType::Return) => true,
        (TokenType::Super, TokenType::Super) => true,
        (TokenType::This, TokenType::This) => true,
        (TokenType::True, TokenType::True) => true,
        (TokenType::Var, TokenType::Var) => true,
        (TokenType::While, TokenType::While) => true,
        (TokenType::Eof, TokenType::Eof) => true,
        _ => false,
    }
}

/// The name under which a token kind appears in diagnostics.
pub open spec fn spec_token_type_name(t: SpecTokenType) -> Seq<char> {
    match t {
        SpecTokenType::LeftParen => "LeftParen"@,
        SpecTokenType::RightParen => "RightParen"@,
        SpecTokenType::LeftBrace => "LeftBrace"@,
        SpecTokenType::RightBrace => "RightBrace"@,
        SpecTokenType::Comma => "Comma"@,
        SpecTokenType::Dot => "Dot"@,
        SpecTokenType::Minus => "Minus"@,
        SpecTokenType::Plus => "Plus"@,
        SpecTokenType::Semicolon => "Semicolon"@,
        SpecTokenType::Slash => "Slash"@,
        SpecTokenType::Star => "Star"@,
        SpecTokenType::Bang => "Bang"@,
        SpecTokenType::BangEqual => "BangEqual"@,
        SpecTokenType::Equal => "Equal"@,
        SpecTokenType::EqualEqual => "EqualEqual"@,
        SpecTokenType::Greater => "Greater"@,
        SpecTokenType::GreaterEqual => "GreaterEqual"@,
        SpecTokenType::Less => "Less"@,
        SpecTokenType::LessEqual => "LessEqual"@,
        SpecTokenType::Identifier(s) => "Identifier(\""@ + s + "\")"@,
        SpecTokenType::StrLit(s) => "String(\""@ + s + "\")"@,
        SpecTokenType::Number(b) => "Number("@ + spec_display_number(b) + ")"@,
        SpecTokenType::And => "And"@,
        SpecTokenType::Class => "Class"@,
        SpecTokenType::Else => "Else"@,
        SpecTokenType::False => "False"@,
        SpecTokenType::Fun => "Fun"@,
        SpecTokenType::For => "For"@,
        SpecTokenType::If => "If"@,
        SpecTokenType::Nil => "Nil"@,
        SpecTokenType::Or => "Or"@,
        SpecTokenType::Print => "Print"@,
        SpecTokenType::Return => "Return"@,
        SpecTokenType::Super => "Super"@,
        SpecTokenType::This => "This"@,
        SpecTokenType::True => "True"@,
        SpecTokenType::Var => "Var"@,
        SpecTokenType::While => "While"@,
        SpecTokenType::Eof => "Eof"@,
    }
}

/// The display name of a token kind, for diagnostics.
pub fn token_type_name(t: &TokenType) -> (r: String)
    ensures
        r@ == spec_token_type_name(t@),
{
    match t {
        TokenType::LeftParen => String::from_str("LeftParen"),
        TokenType::RightParen => String::from_str("RightParen"),
        TokenType::LeftBrace => String::from_str("LeftBrace"),
        TokenType::RightBrace => String::from_str("RightBrace"),
        TokenType::Comma => String::from_str("Comma"),
        TokenType::Dot => String::from_str("Dot"),
        TokenType::Minus => String::from_str("Minus"),
        TokenType::Plus => String::from_str("Plus"),
        TokenType::Semicolon => String::from_str("Semicolon"),
        TokenType::Slash => String::from_str("Slash"),
        TokenType::Star => String::from_str("Star"),
        TokenType::Bang => String::from_str("Bang"),
        TokenType::BangEqual => String::from_str("BangEqual"),
        TokenType::Equal => String::from_str("Equal"),
        TokenType::EqualEqual => String::from_str("EqualEqual"),
        TokenType::Greater => String::from_str("Greater"),
        TokenType::GreaterEqual => String::from_str("GreaterEqual"),
        TokenType::Less => String::from_str("Less"),
        TokenType::LessEqual => String::from_str("LessEqual"),
        TokenType::Identifier(s) => {
            let mut r = String::from_str("Identifier(\"");
            r.append(s.as_str());
            r.append("\")");
            r
        },
        TokenType::StrLit(s) => {
            let mut r = String::from_str("String(\"");
            r.append(s.as_str());
            r.append("\")");
            r
        },
        TokenType::Number(b) => {
            let mut r = String::from_str("Number(");
            let d = display_number(*b);
            r.append(d.as_str());
            r.append(")");
            r
        },
        TokenType::And => String::from_str("And"),
        TokenType::Class => String::from_str("Class"),
        TokenType::Else => String::from_str("Else"),
        TokenType::False => String::from_str("False"),
        TokenType::Fun => String::from_str("Fun"),
        TokenType::For => String::from_str("For"),
        TokenType::If => String::from_str("If"),
        TokenType::Nil => String::from_str("Nil"),
        TokenType::Or => String::from_str("Or"),
        TokenType::Print => String::from_str("Print"),
        TokenType::Return => String::from_str("Return"),
        TokenType::Super => String::from_str("Super"),
        TokenType::This => String::from_str("This"),
        TokenType::True => String::from_str("True"),
        TokenType::Var => String::from_str("Var"),
        TokenType::While => String::from_str("While"),
        TokenType::Eof => String::from_str("Eof"),
    }
}

/// The mathematical content of a [`Token`].
pub struct SpecToken {
    pub token_type: SpecTokenType,
    pub lexeme: Seq<char>,
    pub line: int,
}

/// A token: its kind, the exact source slice it came from, and its line.
#[derive(Debug)]
pub struct Token {
    pub token_type: TokenType,
    pub lexeme: String,
    pub line: Line,
}

impl View for Token {
    type V = SpecToken;

    open spec fn view(&self) -> SpecToken {
        SpecToken { token_type: self.token_type@, lexeme: self.lexeme@, line: self.line as int }
    }
}

/// A well-formed token sequence ends with `Eof` and holds `Eof` nowhere else.
pub open spec fn tokens_wf(toks: Seq<SpecToken>) -> bool {
    &&& toks.len() >= 1
    &&& toks[toks.len() - 1].token_type == SpecTokenType::Eof
    &&& forall|i: int|
        0 <= i < toks.len() - 1 ==> (#[trigger] toks[i].token_type) != SpecTokenType::Eof
}

/// The position just past the next `;` at or after `p`, or the end of the
/// sequence where none follows.
pub open spec fn after_semicolon(toks: Seq<SpecToken>, p: int) -> int
    decreases toks.len() - p,
    when 0 <= p <= toks.len()
{
    if p >= toks.len() {
        toks.len() as int
    } else if toks[p].token_type == SpecTokenType::Semicolon {
        p + 1
    } else {
        after_semicolon(toks, p + 1)
    }
}

/// Whether a `;` stands at or after `p`.
pub open spec fn has_semicolon(toks: Seq<SpecToken>, p: int) -> bool
    decreases toks.len() - p,
    when 0 <= p <= toks.len()
{
    if p >= toks.len() {
        false
    } else if toks[p].token_type == SpecTokenType::Semicolon {
        true
    } else {
        has_semicolon(toks, p + 1)
    }
}

pub proof fn lemma_after_semicolon_bounds(toks: Seq<SpecToken>, p: int)
    requires
        0 <= p <= toks.len(),
    ensures
        p <= after_semicolon(toks, p) <= toks.len(),
        has_semicolon(toks, p) ==> p < after_semicolon(toks, p) && toks[after_semicolon(toks, p)
            - 1].token_type == SpecTokenType::Semicolon,
    decreases toks.len() - p,
{
    if p < toks.len() && toks[p].token_type != SpecTokenType::Semicolon {
        lemma_after_semicolon_bounds(toks, p + 1);
    }
}

/// The mathematical content of a [`Tokens`] stream.
pub struct SpecTokens {
    pub toks: Seq<SpecToken>,
    pub pos: int,
}

/// The one-lookahead token reader.
pub struct Tokens {
    tokens: Vec<Token>,
    pos: usize,
}

impl View for Tokens {
    type V = SpecTokens;

    closed spec fn view(&self) -> SpecTokens {
        SpecTokens { toks: self.tokens@.map_values(|t: Token| t@), pos: self.pos as int }
    }
}

/// The `Expected '..', got '..' instead` message of a failed [`Tokens::consume`].
pub open spec fn spec_consume_message(expected: SpecTokenType, lexeme: Seq<char>) -> Seq<char> {
    "Expected '"@ + spec_token_type_name(expected) + "', got '"@ + lexeme + "' instead"@
}

impl Tokens {
    pub open spec fn wf(self) -> bool {
        0 <= self@.pos <= self@.toks.len()
    }

    pub fn new(v: Vec<Token>) -> (r: Tokens)
        ensures
            r.wf(),
            r@.toks == v@.map_values(|t: Token| t@),
            r@.pos == 0,
    {
        Tokens { tokens: v, pos: 0 }
    }

    pub fn peek(&self) -> (r: &Token)
        requires
            self.wf(),
            self@.pos < self@.toks.len(),
        ensures
            r@ == self@.toks[self@.pos],
    {
        &self.tokens[self.pos]
    }

    pub fn peek_type(&self) -> (r: &TokenType)
        requires
            self.wf(),
            self@.pos < self@.toks.len(),
        ensures
            r@ == self@.toks[self@.pos].token_type,
    {
        &self.tokens[self.pos].token_type
    }

    pub fn next(&mut self) -> (r: &Token)
        requires
            old(self).wf(),
            old(self)@.pos < old(self)@.toks.len(),
        ensures
            final(self).wf(),
            final(self)@.toks == old(self)@.toks,
            final(self)@.pos == old(self)@.pos + 1,
            r@ == old(self)@.toks[old(self)@.pos],
    {
        proof {
            assert(self.tokens.len() == self.tokens@.len());
        }
        self.pos = self.pos + 1;
        &self.tokens[self.pos - 1]
    }

    /// Consumes the next token when its kind equals `token_type`; otherwise
    /// leaves the stream unmoved and reports what stood there instead.
    pub fn consume(&mut self, token_type: TokenType) -> (r: Result<(), LoxError>)
        requires
            old(self).wf(),
            old(self)@.pos < old(self)@.toks.len(),
        ensures
            final(self).wf(),
            final(self)@.toks == old(self)@.toks,
            old(self)@.toks[old(self)@.pos].token_type == token_type@ ==> {
                &&& r is Ok
                &&& final(self)@.pos == old(self)@.pos + 1
            },
            old(self)@.toks[old(self)@.pos].token_type != token_type@ ==> {
                &&& final(self)@.pos == old(self)@.pos
                &&& r matches Err(e) && e@ == (SpecLoxError {
                    line: old(self)@.toks[old(self)@.pos].line,
                    message: spec_consume_message(
                        token_type@,
                        old(self)@.toks[old(self)@.pos].lexeme,
                    ),
                })
            },
    {
        proof {
            assert(self.tokens.len() == self.tokens@.len());
        }
        if token_type_eq(&self.tokens[self.pos].token_type, &token_type) {
            self.pos = self.pos + 1;
            Ok(())
        } else {
            let token = &self.tokens[self.pos];
            let mut message = String::from_str("Expected '");
            let name = token_type_name(&token_type);
            message.append(name.as_str());
            message.append("', got '");
            message.append(token.lexeme.as_str());
            message.append("' instead");
            Err(LoxError { line: token.line, message })
        }
    }

    /// Advances until a `;` has been consumed; `None` when the stream ran out
    /// first, the `Eof` token included.
    pub fn consume_until_semicolon(&mut self) -> (r: Option<()>)
        requires
            old(self).wf(),
        ensures
            final(self).wf(),
            final(self)@.toks == old(self)@.toks,
            final(self)@.pos == after_semicolon(old(self)@.toks, old(self)@.pos),
            r == if has_semicolon(old(self)@.toks, old(self)@.pos) {
                Some(())
            } else {
                Option::<()>::None
            },
        decreases old(self)@.toks.len() - old(self)@.pos,
    {
        if self.pos >= self.tokens.len() {
            None
        } else if matches!(self.tokens[self.pos].token_type, TokenType::Semicolon) {
            self.pos = self.pos + 1;
            Some(())
        } else {
            self.pos = self.pos + 1;
            self.consume_until_semicolon()
        }
    }
}

} // verus!
