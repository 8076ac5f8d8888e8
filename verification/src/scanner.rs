//! The scanner: a single pass over the source characters that emits the
//! token sequence ending in `Eof`, collecting lexical errors into a report.
//!
//! The executable scanner is proved equal to the specification-level scan
//! [`spec_scan`], which walks the same cursor state mathematically.

use vstd::prelude::*;

use crate::error::LoxError;
use crate::error::Report;
use crate::error::SpecLoxError;
use crate::numeric::decimal_bits;
use crate::numeric::num_parse;
use crate::source::SpecSource;
use crate::source::Source;
use crate::source::alnum_end;
use crate::source::alphabetic;
use crate::source::count_nl;
use crate::source::digits_end;
use crate::source::find_from;
use crate::source::lemma_alnum_end_bounds;
use crate::source::lemma_count_nl_concat;
use crate::source::lemma_digits_end_bounds;
use crate::source::lemma_digits_end_range;
use crate::source::lemma_find_from_bounds;
use crate::source::lemma_find_from_found;
use crate::source::spec_is_digit;
use crate::text::str_is;
use crate::token::SpecToken;
use crate::token::SpecTokenType;
use crate::token::Token;
use crate::token::TokenType;
use crate::token::tokens_wf;

verus! {

/// Positions well-placed for scanning on.
pub open spec fn scan_wf(s: SpecSource) -> bool {
    0 <= s.lex_start <= s.pos <= s.text.len()
}

/// The cursor advanced to position `p`, its line counting the newlines
/// passed over.
pub open spec fn adv_to(s: SpecSource, p: int) -> SpecSource {
    SpecSource {
        text: s.text,
        pos: p,
        lex_start: s.lex_start,
        line: s.line + count_nl(s.text, s.pos, p),
    }
}

/// The cursor with its pending lexeme flushed.
pub open spec fn flushed(s: SpecSource) -> SpecSource {
    SpecSource { text: s.text, pos: s.pos, lex_start: s.pos, line: s.line }
}

/// The pending lexeme once the cursor will stand at `p`.
pub open spec fn lexeme_at(s: SpecSource, p: int) -> Seq<char> {
    s.text.subrange(s.lex_start, p)
}

/// The outcome of one scanner iteration: the cursor moved past one lexeme,
/// and at most one token or error emitted.
pub struct ScanStep {
    pub s: SpecSource,
    pub tok: Option<SpecToken>,
    pub err: Option<SpecLoxError>,
}

/// A single-lexeme token ending at `p`.
pub open spec fn simple_tok(s: SpecSource, p: int, tt: SpecTokenType) -> ScanStep {
    let s2 = adv_to(s, p);
    ScanStep {
        s: flushed(s2),
        tok: Some(SpecToken { token_type: tt, lexeme: lexeme_at(s, p), line: s2.line }),
        err: None,
    }
}

/// An operator that is two characters when `c2` follows, else one.
pub open spec fn two_char(s: SpecSource, c2: char, tt2: SpecTokenType, tt1: SpecTokenType) -> ScanStep {
    if s.pos + 1 < s.text.len() && s.text[s.pos + 1] == c2 {
        simple_tok(s, s.pos + 2, tt2)
    } else {
        simple_tok(s, s.pos + 1, tt1)
    }
}

/// The keyword that a lexeme denotes, if any.
pub open spec fn spec_keyword(s: Seq<char>) -> Option<SpecTokenType> {
    if s == "and"@ {
        Some(SpecTokenType::And)
    } else if s == "class"@ {
        Some(SpecTokenType::Class)
    } else if s == "else"@ {
        Some(SpecTokenType::Else)
    } else if s == "false"@ {
        Some(SpecTokenType::False)
    } else if s == "for"@ {
        Some(SpecTokenType::For)
    } else if s == "fun"@ {
        Some(SpecTokenType::Fun)
    } else if s == "if"@ {
        Some(SpecTokenType::If)
    } else if s == "nil"@ {
        Some(SpecTokenType::Nil)
    } else if s == "or"@ {
        Some(SpecTokenType::Or)
    } else if s == "print"@ {
        Some(SpecTokenType::Print)
    } else if s == "return"@ {
        Some(SpecTokenType::Return)
    } else if s == "super"@ {
        Some(SpecTokenType::Super)
    } else if s == "this"@ {
        Some(SpecTokenType::This)
    } else if s == "true"@ {
        Some(SpecTokenType::True)
    } else if s == "var"@ {
        Some(SpecTokenType::Var)
    } else if s == "while"@ {
        Some(SpecTokenType::While)
    } else {
        None
    }
}

/// One scanner iteration on a cursor that still has a character to read.
pub open spec fn spec_step(s: SpecSource) -> ScanStep {
    let c = s.text[s.pos];
    let len = s.text.len() as int;
    if c == '(' {
        simple_tok(s, s.pos + 1, SpecTokenType::LeftParen)
    } else if c == ')' {
        simple_tok(s, s.pos + 1, SpecTokenType::RightParen)
    } else if c == '{' {
        simple_tok(s, s.pos + 1, SpecTokenType::LeftBrace)
    } else if c == '}' {
        simple_tok(s, s.pos + 1, SpecTokenType::RightBrace)
    } else if c == ',' {
        simple_tok(s, s.pos + 1, SpecTokenType::Comma)
    } else if c == '.' {
        simple_tok(s, s.pos + 1, SpecTokenType::Dot)
    } else if c == '-' {
        simple_tok(s, s.pos + 1, SpecTokenType::Minus)
    } else if c == '+' {
        simple_tok(s, s.pos + 1, SpecTokenType::Plus)
    } else if c == ';' {
        simple_tok(s, s.pos + 1, SpecTokenType::Semicolon)
    } else if c == '*' {
        simple_tok(s, s.pos + 1, SpecTokenType::Star)
    } else if c == '!' {
        two_char(s, '=', SpecTokenType::BangEqual, SpecTokenType::Bang)
    } else if c == '=' {
        two_char(s, '=', SpecTokenType::EqualEqual, SpecTokenType::Equal)
    } else if c == '<' {
        two_char(s, '=', SpecTokenType::LessEqual, SpecTokenType::Less)
    } else if c == '>' {
        two_char(s, '=', SpecTokenType::GreaterEqual, SpecTokenType::Greater)
    } else if c == '/' {
        if s.pos + 1 < len && s.text[s.pos + 1] == '/' {
            // a line comment: discard up to the newline
            let p = find_from(s.text, s.pos + 2, '\n');
            ScanStep { s: flushed(adv_to(s, p)), tok: None, err: None }
        } else {
            simple_tok(s, s.pos + 1, SpecTokenType::Slash)
        }
    } else if c == '"' {
        let q = find_from(s.text, s.pos + 1, '"');
        if q < len {
            let s3 = adv_to(s, q + 1);
            ScanStep {
                s: flushed(s3),
                tok: Some(
                    SpecToken {
                        token_type: SpecTokenType::StrLit(s.text.subrange(s.pos + 1, q)),
                        lexeme: lexeme_at(s, q + 1),
                        line: s3.line,
                    },
                ),
                err: None,
            }
        } else {
            let s2 = adv_to(s, q);
            ScanStep {
                s: flushed(s2),
                tok: None,
                err: Some(
                    SpecLoxError {
                        line: s2.line,
                        message: "Unterminated string "@ + lexeme_at(s, q),
                    },
                ),
            }
        }
    } else if spec_is_digit(c) {
        let d1 = digits_end(s.text, s.pos + 1);
        let dend = if d1 < len && s.text[d1] == '.' {
            digits_end(s.text, d1 + 1)
        } else {
            d1
        };
        let s4 = adv_to(s, dend);
        let lx = lexeme_at(s, dend);
        // characters kept from an earlier unexpected-character error make the
        // pending lexeme no number, so only a lexeme that is exactly the
        // digit-and-point span is converted
        let parsed = if s.lex_start == s.pos {
            decimal_bits(s.text.subrange(s.pos, dend))
        } else {
            None
        };
        match parsed {
            Some(b) => ScanStep {
                s: flushed(s4),
                tok: Some(
                    SpecToken { token_type: SpecTokenType::Number(b), lexeme: lx, line: s4.line },
                ),
                err: None,
            },
            None => ScanStep {
                s: flushed(s4),
                tok: None,
                err: Some(
                    SpecLoxError { line: s4.line, message: lx + " is not a valid number"@ },
                ),
            },
        }
    } else if alphabetic(c) || c == '_' {
        let e2 = alnum_end(s.text, s.pos + 1);
        let s2 = adv_to(s, e2);
        let lx = lexeme_at(s, e2);
        let tt = match spec_keyword(lx) {
            Some(k) => k,
            None => SpecTokenType::Identifier(lx),
        };
        ScanStep {
            s: flushed(s2),
            tok: Some(SpecToken { token_type: tt, lexeme: lx, line: s2.line }),
            err: None,
        }
    } else if c == ' ' || c == '\r' || c == '\t' || c == '\n' {
        ScanStep { s: flushed(adv_to(s, s.pos + 1)), tok: None, err: None }
    } else {
        // the pending lexeme is deliberately kept, as the scanner's single
        // pass never clears it on this path
        let s1 = adv_to(s, s.pos + 1);
        ScanStep {
            s: s1,
            tok: None,
            err: Some(
                SpecLoxError { line: s1.line, message: "Unexpected character "@ + seq![c] },
            ),
        }
    }
}

pub open spec fn opt_push<A>(s: Seq<A>, o: Option<A>) -> Seq<A> {
    match o {
        Some(a) => s.push(a),
        None => s,
    }
}

/// One scanner iteration moves the cursor strictly forward and keeps it
/// well-placed.
pub proof fn lemma_spec_step_bounds(s: SpecSource)
    requires
        scan_wf(s),
        s.pos < s.text.len(),
    ensures
        s.pos < spec_step(s).s.pos <= s.text.len(),
        scan_wf(spec_step(s).s),
        spec_step(s).s.text == s.text,
{
    let len = s.text.len() as int;
    lemma_find_from_bounds(s.text, s.pos + 1, '"');
    lemma_digits_end_bounds(s.text, s.pos + 1);
    let d1 = digits_end(s.text, s.pos + 1);
    if d1 < len {
        lemma_digits_end_bounds(s.text, d1 + 1);
    }
    lemma_alnum_end_bounds(s.text, s.pos + 1);
    if s.pos + 2 <= len {
        lemma_find_from_bounds(s.text, s.pos + 2, '\n');
    }
}

/// The specification-level scan: from the cursor state and what has been
/// emitted so far, the final token and error sequences.
pub open spec fn spec_scan(s: SpecSource, toks: Seq<SpecToken>, errs: Seq<SpecLoxError>) -> (
    Seq<SpecToken>,
    Seq<SpecLoxError>,
)
    decreases s.text.len() - s.pos,
    when scan_wf(s)
    via spec_scan_dec
{
    if s.pos >= s.text.len() {
        (
            toks.push(
                SpecToken {
                    token_type: SpecTokenType::Eof,
                    lexeme: lexeme_at(s, s.pos),
                    line: s.line,
                },
            ),
            errs,
        )
    } else {
        let st = spec_step(s);
        spec_scan(st.s, opt_push(toks, st.tok), opt_push(errs, st.err))
    }
}

#[via_fn]
proof fn spec_scan_dec(s: SpecSource, toks: Seq<SpecToken>, errs: Seq<SpecLoxError>) {
    if s.pos < s.text.len() {
        lemma_spec_step_bounds(s);
    }
}

/// One scanner iteration never emits the `Eof` token.
#[verifier::rlimit(100)]
proof fn lemma_spec_step_tok(s: SpecSource)
    requires
        scan_wf(s),
        s.pos < s.text.len(),
    ensures
        spec_step(s).tok matches Some(t) ==> t.token_type != SpecTokenType::Eof,
{
}

/// The scan of well-placed input extends non-`Eof` tokens into a well-formed
/// sequence: `Eof` stands at the end and nowhere else.
pub proof fn lemma_spec_scan_tokens_wf(s: SpecSource, toks: Seq<SpecToken>, errs: Seq<SpecLoxError>)
    requires
        scan_wf(s),
        forall|i: int|
            0 <= i < toks.len() ==> (#[trigger] toks[i].token_type) != SpecTokenType::Eof,
    ensures
        tokens_wf(spec_scan(s, toks, errs).0),
    decreases s.text.len() - s.pos,
{
    if s.pos >= s.text.len() {
        let eof = SpecToken {
            token_type: SpecTokenType::Eof,
            lexeme: lexeme_at(s, s.pos),
            line: s.line,
        };
        assert forall|i: int|
            0 <= i < toks.push(eof).len() - 1 implies (#[trigger] toks.push(eof)[i].token_type)
            != SpecTokenType::Eof by {
            assert(toks.push(eof)[i] == toks[i]);
        }
    } else {
        lemma_spec_step_bounds(s);
        lemma_spec_step_tok(s);
        let st = spec_step(s);
        let toks2 = opt_push(toks, st.tok);
        assert forall|i: int|
            0 <= i < toks2.len() implies (#[trigger] toks2[i].token_type) != SpecTokenType::Eof by {
            if i < toks.len() {
                assert(toks2[i] == toks[i]);
            }
        }
        lemma_spec_scan_tokens_wf(st.s, toks2, opt_push(errs, st.err));
    }
}

/// A lexeme that is an exact slice of the source text.
pub open spec fn is_slice_of(lex: Seq<char>, text: Seq<char>) -> bool {
    exists|a: int, b: int|
        0 <= a <= b <= text.len() && lex == #[trigger] text.subrange(a, b)
}

/// Every token the scan emits carries an exact slice of the source as its
/// lexeme, the `Eof` token's empty tail included.
#[verifier::rlimit(100)]
pub proof fn lemma_spec_scan_lexemes(s: SpecSource, toks: Seq<SpecToken>, errs: Seq<SpecLoxError>)
    requires
        scan_wf(s),
        forall|i: int| 0 <= i < toks.len() ==> is_slice_of(#[trigger] toks[i].lexeme, s.text),
    ensures
        forall|i: int|
            0 <= i < spec_scan(s, toks, errs).0.len() ==> is_slice_of(
                #[trigger] spec_scan(s, toks, errs).0[i].lexeme,
                s.text,
            ),
    decreases s.text.len() - s.pos,
{
    if s.pos >= s.text.len() {
        let eof = SpecToken {
            token_type: SpecTokenType::Eof,
            lexeme: lexeme_at(s, s.pos),
            line: s.line,
        };
        assert(is_slice_of(eof.lexeme, s.text)) by {
            assert(eof.lexeme == s.text.subrange(s.lex_start, s.pos));
        }
        assert forall|i: int| 0 <= i < toks.push(eof).len() implies is_slice_of(
            #[trigger] toks.push(eof)[i].lexeme,
            s.text,
        ) by {
            if i < toks.len() {
                assert(toks.push(eof)[i] == toks[i]);
            }
        }
    } else {
        lemma_spec_step_bounds(s);
        let st = spec_step(s);
        assert(st.tok matches Some(t) ==> is_slice_of(t.lexeme, s.text)) by {
            match st.tok {
                Some(t) => {
                    assert(exists|a: int, b: int|
                        0 <= a <= b <= s.text.len() && t.lexeme == #[trigger] s.text.subrange(
                            a,
                            b,
                        ));
                },
                None => {},
            }
        }
        let toks2 = opt_push(toks, st.tok);
        assert forall|i: int| 0 <= i < toks2.len() implies is_slice_of(
            #[trigger] toks2[i].lexeme,
            s.text,
        ) by {
            if i < toks.len() {
                assert(toks2[i] == toks[i]);
            }
        }
        assert(st.s.text == s.text);
        lemma_spec_scan_lexemes(st.s, toks2, opt_push(errs, st.err));
    }
}

/// The view of an emitted token vector.
pub open spec fn toks_view(v: Seq<Token>) -> Seq<SpecToken> {
    v.map_values(|t: Token| t@)
}

pub proof fn lemma_toks_view_push(v: Seq<Token>, t: Token)
    ensures
        toks_view(v.push(t)) =~= toks_view(v).push(t@),
{
}

/// The keyword token a lexeme denotes, if any.
fn keyword_token(lexeme: &String) -> (r: Option<TokenType>)
    ensures
        match spec_keyword(lexeme@) {
            Some(k) => r matches Some(t) && t@ == k,
            None => r is None,
        },
{
    if str_is(lexeme, "and") {
        Some(TokenType::And)
    } else if str_is(lexeme, "class") {
        Some(TokenType::Class)
    } else if str_is(lexeme, "else") {
        Some(TokenType::Else)
    } else if str_is(lexeme, "false") {
        Some(TokenType::False)
    } else if str_is(lexeme, "for") {
        Some(TokenType::For)
    } else if str_is(lexeme, "fun") {
        Some(TokenType::Fun)
    } else if str_is(lexeme, "if") {
        Some(TokenType::If)
    } else if str_is(lexeme, "nil") {
        Some(TokenType::Nil)
    } else if str_is(lexeme, "or") {
        Some(TokenType::Or)
    } else if str_is(lexeme, "print") {
        Some(TokenType::Print)
    } else if str_is(lexeme, "return") {
        Some(TokenType::Return)
    } else if str_is(lexeme, "super") {
        Some(TokenType::Super)
    } else if str_is(lexeme, "this") {
        Some(TokenType::This)
    } else if str_is(lexeme, "true") {
        Some(TokenType::True)
    } else if str_is(lexeme, "var") {
        Some(TokenType::Var)
    } else if str_is(lexeme, "while") {
        Some(TokenType::While)
    } else {
        None
    }
}

/// One pass of the scanner, proved equal to the specification-level scan.
#[verifier::rlimit(100)]
fn scan_tokens_rec(source: &mut Source, tokens: &mut Vec<Token>, report: &mut Report)
    requires
        old(source).wf(),
    ensures
        ({
            let (t, e) = spec_scan(old(source)@, toks_view(old(tokens)@), old(report)@);
            toks_view(final(tokens)@) == t && final(report)@ == e
        }),
    decreases old(source)@.text.len() - old(source)@.pos,
{
    let ghost s0 = old(source)@;
    let pos0 = source.get_pos();
    proof {
        if s0.pos < s0.text.len() {
            lemma_spec_step_bounds(s0);
        }
    }
    match source.next_char() {
        None => {
            let lexeme = source.flush_lexeme();
            let line = source.get_current_line();
            let tok = Token { token_type: TokenType::Eof, lexeme, line };
            proof {
                lemma_toks_view_push(tokens@, tok);
            }
            tokens.push(tok);
        },
        Some(c) => {
            if c == '(' {
                let lexeme = source.flush_lexeme();
                let line = source.get_current_line();
                let tok = Token { token_type: TokenType::LeftParen, lexeme, line };
                proof {
                    lemma_toks_view_push(tokens@, tok);
                }
                tokens.push(tok);
            } else if c == ')' {
                let lexeme = source.flush_lexeme();
                let line = source.get_current_line();
                let tok = Token { token_type: TokenType::RightParen, lexeme, line };
                proof {
                    lemma_toks_view_push(tokens@, tok);
                }
                tokens.push(tok);
            } else if c == '{' {
                let lexeme = source.flush_lexeme();
                let line = source.get_current_line();
                let tok = Token { token_type: TokenType::LeftBrace, lexeme, line };
                proof {
                    lemma_toks_view_push(tokens@, tok);
                }
                tokens.push(tok);
            } else if c == '}' {
                let lexeme = source.flush_lexeme();
                let line = source.get_current_line();
                let tok = Token { token_type: TokenType::RightBrace, lexeme, line };
                proof {
                    lemma_toks_view_push(tokens@, tok);
                }
                tokens.push(tok);
            } else if c == ',' {
                let lexeme = source.flush_lexeme();
                let line = source.get_current_line();
                let tok = Token { token_type: TokenType::Comma, lexeme, line };
                proof {
                    lemma_toks_view_push(tokens@, tok);
                }
                tokens.push(tok);
            } else if c == '.' {
                let lexeme = source.flush_lexeme();
                let line = source.get_current_line();
                let tok = Token { token_type: TokenType::Dot, lexeme, line };
                proof {
                    lemma_toks_view_push(tokens@, tok);
                }
                tokens.push(tok);
            } else if c == '-' {
                let lexeme = source.flush_lexeme();
                let line = source.get_current_line();
                let tok = Token { token_type: TokenType::Minus, lexeme, line };
                proof {
                    lemma_toks_view_push(tokens@, tok);
                }
                tokens.push(tok);
            } else if c == '+' {
                let lexeme = source.flush_lexeme();
                let line = source.get_current_line();
                let tok = Token { token_type: TokenType::Plus, lexeme, line };
                proof {
                    lemma_toks_view_push(tokens@, tok);
                }
                tokens.push(tok);
            } else if c == ';' {
                let lexeme = source.flush_lexeme();
                let line = source.get_current_line();
                let tok = Token { token_type: TokenType::Semicolon, lexeme, line };
                proof {
                    lemma_toks_view_push(tokens@, tok);
                }
                tokens.push(tok);
            } else if c == '*' {
                let lexeme = source.flush_lexeme();
                let line = source.get_current_line();
                let tok = Token { token_type: TokenType::Star, lexeme, line };
                proof {
                    lemma_toks_view_push(tokens@, tok);
                }
                tokens.push(tok);
            } else if c == '!' {
                let two = source.maybe_next_char('=');
                proof {
                    lemma_count_nl_concat(s0.text, s0.pos, s0.pos + 1, source@.pos);
                }
                let lexeme = source.flush_lexeme();
                let line = source.get_current_line();
                let tok = Token {
                    token_type: if two.is_some() {
                        TokenType::BangEqual
                    } else {
                        TokenType::Bang
                    },
                    lexeme,
                    line,
                };
                proof {
                    lemma_toks_view_push(tokens@, tok);
                }
                tokens.push(tok);
            } else if c == '=' {
                let two = source.maybe_next_char('=');
                proof {
                    lemma_count_nl_concat(s0.text, s0.pos, s0.pos + 1, source@.pos);
                }
                let lexeme = source.flush_lexeme();
                let line = source.get_current_line();
                let tok = Token {
                    token_type: if two.is_some() {
                        TokenType::EqualEqual
                    } else {
                        TokenType::Equal
                    },
                    lexeme,
                    line,
                };
                proof {
                    lemma_toks_view_push(tokens@, tok);
                }
                tokens.push(tok);
            } else if c == '<' {
                let two = source.maybe_next_char('=');
                proof {
                    lemma_count_nl_concat(s0.text, s0.pos, s0.pos + 1, source@.pos);
                }
                let lexeme = source.flush_lexeme();
                let line = source.get_current_line();
                let tok = Token {
                    token_type: if two.is_some() {
                        TokenType::LessEqual
                    } else {
                        TokenType::Less
                    },
                    lexeme,
                    line,
                };
                proof {
                    lemma_toks_view_push(tokens@, tok);
                }
                tokens.push(tok);
            } else if c == '>' {
                let two = source.maybe_next_char('=');
                proof {
                    lemma_count_nl_concat(s0.text, s0.pos, s0.pos + 1, source@.pos);
                }
                let lexeme = source.flush_lexeme();
                let line = source.get_current_line();
                let tok = Token {
                    token_type: if two.is_some() {
                        TokenType::GreaterEqual
                    } else {
                        TokenType::Greater
                    },
                    lexeme,
                    line,
                };
                proof {
                    lemma_toks_view_push(tokens@, tok);
                }
                tokens.push(tok);
            } else if c == '/' {
                let two = source.maybe_next_char('/');
                if two.is_some() {
                    proof {
                        lemma_count_nl_concat(s0.text, s0.pos, s0.pos + 1, s0.pos + 2);
                        lemma_find_from_bounds(s0.text, s0.pos + 2, '\n');
                    }
                    source.consume_until('\n');
                    proof {
                        lemma_count_nl_concat(s0.text, s0.pos, s0.pos + 2, source@.pos);
                    }
                    source.flush_lexeme();
                } else {
                    proof {
                        lemma_count_nl_concat(s0.text, s0.pos, s0.pos + 1, source@.pos);
                    }
                    let lexeme = source.flush_lexeme();
                    let line = source.get_current_line();
                    let tok = Token { token_type: TokenType::Slash, lexeme, line };
                    proof {
                        lemma_toks_view_push(tokens@, tok);
                    }
                    tokens.push(tok);
                }
            } else if c == '"' {
                proof {
                    lemma_find_from_bounds(s0.text, s0.pos + 1, '"');
                    lemma_find_from_found(s0.text, s0.pos + 1, '"');
                }
                source.consume_until('"');
                proof {
                    lemma_count_nl_concat(s0.text, s0.pos, s0.pos + 1, source@.pos);
                }
                let closing = source.maybe_next_char('"');
                if closing.is_some() {
                    proof {
                        lemma_count_nl_concat(s0.text, s0.pos, source@.pos - 1, source@.pos);
                    }
                    let q = source.get_pos() - 1;
                    let content = source.slice_string(pos0 + 1, q);
                    let lexeme = source.flush_lexeme();
                    let line = source.get_current_line();
                    let tok = Token { token_type: TokenType::StrLit(content), lexeme, line };
                    proof {
                        lemma_toks_view_push(tokens@, tok);
                    }
                    tokens.push(tok);
                } else {
                    let mut message = String::from_str("Unterminated string ");
                    let lexeme = source.flush_lexeme();
                    message.append(lexeme.as_str());
                    let line = source.get_current_line();
                    report.push(LoxError { line, message });
                }
            } else if '0' <= c && c <= '9' {
                proof {
                    lemma_digits_end_bounds(s0.text, s0.pos + 1);
                }
                source.consume_digits();
                proof {
                    lemma_count_nl_concat(s0.text, s0.pos, s0.pos + 1, source@.pos);
                }
                let ghost d1 = source@.pos;
                let dot = source.maybe_next_char('.');
                if dot.is_some() {
                    proof {
                        lemma_digits_end_bounds(s0.text, d1 + 1);
                        lemma_count_nl_concat(s0.text, s0.pos, d1, d1 + 1);
                    }
                    source.consume_digits();
                    proof {
                        lemma_count_nl_concat(s0.text, s0.pos, d1 + 1, source@.pos);
                    }
                }
                let ghost dend = source@.pos;
                let dend_pos = source.get_pos();
                let clean = source.slice_string(pos0, dend_pos);
                let lexeme = source.flush_lexeme();
                let line = source.get_current_line();
                let parsed = if lexeme.as_str().unicode_len() == clean.as_str().unicode_len() {
                    proof {
                        lemma_digits_end_bounds(s0.text, s0.pos + 1);
                        lemma_digits_end_range(s0.text, s0.pos + 1);
                        if d1 < dend {
                            lemma_digits_end_bounds(s0.text, d1 + 1);
                            lemma_digits_end_range(s0.text, d1 + 1);
                        }
                        assert forall|i: int| 0 <= i < clean@.len() implies spec_is_digit(
                            #[trigger] clean@[i],
                        ) || clean@[i] == '.' by {
                            let p = s0.pos + i;
                            assert(clean@[i] == s0.text[p]);
                            if p == s0.pos {
                                assert(spec_is_digit(s0.text[p]));
                            } else if p < d1 {
                                assert(spec_is_digit(s0.text[p]));
                            } else if p == d1 {
                                assert(s0.text[p] == '.');
                            } else {
                                assert(spec_is_digit(s0.text[p]));
                            }
                        }
                    }
                    num_parse(clean.as_str())
                } else {
                    None
                };
                match parsed {
                    Some(b) => {
                        let tok = Token { token_type: TokenType::Number(b), lexeme, line };
                        proof {
                            lemma_toks_view_push(tokens@, tok);
                        }
                        tokens.push(tok);
                    },
                    None => {
                        let mut message = lexeme;
                        message.append(" is not a valid number");
                        report.push(LoxError { line, message });
                    },
                }
            } else if c.is_alphabetic() || c == '_' {
                proof {
                    lemma_alnum_end_bounds(s0.text, s0.pos + 1);
                }
                source.consume_alphanumeric();
                proof {
                    lemma_count_nl_concat(s0.text, s0.pos, s0.pos + 1, source@.pos);
                }
                let lexeme = source.flush_lexeme();
                let line = source.get_current_line();
                let tok = match keyword_token(&lexeme) {
                    Some(token_type) => Token { token_type, lexeme, line },
                    None => {
                        let payload = lexeme.clone();
                        Token { token_type: TokenType::Identifier(payload), lexeme, line }
                    },
                };
                proof {
                    lemma_toks_view_push(tokens@, tok);
                }
                tokens.push(tok);
            } else if c == ' ' || c == '\r' || c == '\t' || c == '\n' {
                source.flush_lexeme();
            } else {
                let mut message = String::from_str("Unexpected character ");
                message.push(c);
                let line = source.get_current_line();
                proof {
                    assert(message@ =~= "Unexpected character "@ + seq![c]);
                }
                report.push(LoxError { line, message });
            }
            scan_tokens_rec(source, tokens, report);
        },
    }
}

/// Scans the whole source: the token sequence ending in `Eof` where no
/// lexical error was seen, else the collected report.
pub fn scan(source: Source) -> (r: Result<Vec<Token>, Report>)
    requires
        source.wf(),
    ensures
        ({
            let (t, e) = spec_scan(source@, Seq::<SpecToken>::empty(), Seq::<SpecLoxError>::empty());
            match r {
                Ok(v) => e.len() == 0 && toks_view(v@) == t,
                Err(rep) => e.len() > 0 && rep@ == e,
            }
        }),
{
    let mut source = source;
    let mut tokens: Vec<Token> = Vec::new();
    let mut report = Report::new();
    proof {
        assert(toks_view(tokens@) =~= Seq::<SpecToken>::empty());
    }
    scan_tokens_rec(&mut source, &mut tokens, &mut report);
    if report.is_empty() {
        Ok(tokens)
    } else {
        Err(report)
    }
}

} // verus!
