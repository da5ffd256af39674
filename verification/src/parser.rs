use vstd::prelude::*;

use crate::ast::{stmt_views, Let, Program, ReturnStatement, SpecStatement, Statement};
use crate::lexer::{
    lemma_scan_advances, scan_fits, spec_next_token, stream_fits, Lexer,
};
use crate::token::{SpecTokenKind, Token, TokenKind};

verus! {

/// A syntax error, as a human-readable message.
pub type ParseError = String;

// ---------------------------------------------------------------------------
// The mathematical parser: what parsing the token stream means.
// ---------------------------------------------------------------------------

/// Fitting integer literals is preserved as the scanner advances: after one
/// token the rest of the stream still fits.
pub proof fn lemma_stream_fits_step(s: Seq<char>, i: int)
    requires
        0 <= i <= s.len(),
        stream_fits(s, i),
    ensures
        scan_fits(s, i),
        stream_fits(s, spec_next_token(s, i).1),
{
    lemma_scan_advances(s, i);
    if spec_next_token(s, i).0.kind is EndOfInput {
        let n = s.len() as int;
        assert(scan_fits(s, n));
        assert(stream_fits(s, n));
    }
}

/// Cursor position of the first token at or after `i` whose kind is a
/// semicolon or end of input: where a `return` statement stops consuming.
pub open spec fn skip_to_semicolon(s: Seq<char>, i: int) -> int
    decreases s.len() - i,
    when 0 <= i <= s.len()
{
    if spec_next_token(s, i).0.kind is Semicolon || spec_next_token(s, i).0.kind is EndOfInput {
        i
    } else {
        proof {
            lemma_scan_advances(s, i);
        }
        skip_to_semicolon(s, spec_next_token(s, i).1)
    }
}

/// Law: a `return` statement consumes every token before the semicolon that
/// terminates it: the parser ends on a token that is a semicolon or the end
/// of the input, never before one.
pub proof fn lemma_skip_to_semicolon_bounds(s: Seq<char>, i: int)
    requires
        0 <= i <= s.len(),
    ensures
        i <= skip_to_semicolon(s, i) <= s.len(),
        spec_next_token(s, skip_to_semicolon(s, i)).0.kind is Semicolon || spec_next_token(
            s,
            skip_to_semicolon(s, i),
        ).0.kind is EndOfInput,
    decreases s.len() - i,
{
    if !(spec_next_token(s, i).0.kind is Semicolon || spec_next_token(s, i).0.kind
        is EndOfInput) {
        lemma_scan_advances(s, i);
        lemma_skip_to_semicolon_bounds(s, spec_next_token(s, i).1);
    }
}

/// What parsing one statement at cursor position `i` yields, or nothing on
/// a syntax error. A `let` needs an identifier right after the keyword; a
/// `return` carries its own keyword token; anything else is the expression
/// placeholder.
pub open spec fn spec_parse_statement(s: Seq<char>, i: int) -> Option<SpecStatement> {
    let c = spec_next_token(s, i).0;
    let m = spec_next_token(s, i).1;
    let p = spec_next_token(s, m).0;
    if c.kind is KwLet {
        if p.kind is Ident {
            Some(SpecStatement::Let(p))
        } else {
            None
        }
    } else if c.kind is KwReturn {
        Some(SpecStatement::Return(c))
    } else {
        Some(SpecStatement::Ident("Nothing"@))
    }
}

/// The parser's cursor position after parsing the statement at `i`: a
/// `return` statement and a successful `let` binding each consume tokens up
/// to the terminating semicolon; the others (the expression placeholder and
/// a failed `let`) leave the parser where it stood.
pub open spec fn spec_parse_statement_end(s: Seq<char>, i: int) -> int {
    let c = spec_next_token(s, i).0;
    let p = spec_next_token(s, spec_next_token(s, i).1).0;
    if c.kind is KwReturn || (c.kind is KwLet && p.kind is Ident) {
        skip_to_semicolon(s, i)
    } else {
        i
    }
}

/// Law: a `return` statement always parses: it yields the statement that
/// carries the `return` keyword's own token, whatever the skipped
/// expression tokens were, and the parser ends on the first semicolon after
/// the keyword (or on the end of the input), with everything before that
/// token consumed.
pub proof fn lemma_return_statement_parse(s: Seq<char>, i: int)
    requires
        0 <= i <= s.len(),
        spec_next_token(s, i).0.kind is KwReturn,
    ensures
        spec_parse_statement(s, i) == Some(SpecStatement::Return(spec_next_token(s, i).0)),
        spec_parse_statement_end(s, i) == skip_to_semicolon(s, i),
        i <= spec_parse_statement_end(s, i) <= s.len(),
        spec_next_token(s, spec_parse_statement_end(s, i)).0.kind is Semicolon
            || spec_next_token(s, spec_parse_statement_end(s, i)).0.kind is EndOfInput,
{
    lemma_skip_to_semicolon_bounds(s, i);
}

/// What parsing a whole program from cursor position `i` yields: the parsed
/// statements in order, or nothing on the first syntax error.
pub open spec fn spec_parse_program(s: Seq<char>, i: int) -> Option<Seq<SpecStatement>>
    decreases s.len() - i,
    when 0 <= i <= s.len()
{
    if spec_next_token(s, i).0.kind is EndOfInput {
        Some(Seq::empty())
    } else {
        match spec_parse_statement(s, i) {
            None => None,
            Some(st) => {
                proof {
                    lemma_scan_advances(s, i);
                    lemma_skip_to_semicolon_bounds(s, i);
                    lemma_scan_advances(s, spec_parse_statement_end(s, i));
                }
                match spec_parse_program(s, spec_next_token(s, spec_parse_statement_end(s, i)).1) {
                    None => None,
                    Some(rest) => Some(seq![st] + rest),
                }
            },
        }
    }
}

// ---------------------------------------------------------------------------
// The executable parser, proved to build exactly what the mathematical
// parser describes.
// ---------------------------------------------------------------------------

/// The parser: a lexer plus a two-token lookahead window.
pub struct Parser<'a> {
    lexer: Lexer<'a>,
    current_token: Token,
    peek_token: Token,
    start_pos: Ghost<int>,
}

impl<'a> Parser<'a> {
    /// The buffer being parsed, as a sequence of characters.
    pub closed spec fn inp(&self) -> Seq<char> {
        self.lexer.inp()
    }

    /// The cursor position from which the current token was scanned.
    pub closed spec fn start(&self) -> int {
        self.start_pos@
    }

    /// The cursor position from which the peek token was scanned.
    pub closed spec fn mid(&self) -> int {
        spec_next_token(self.inp(), self.start()).1
    }

    /// The abstract value of the current token.
    pub open spec fn cur(&self) -> crate::token::SpecToken {
        spec_next_token(self.inp(), self.start()).0
    }

    /// The lookahead window mirrors the scanner: the current and peek tokens
    /// are the two tokens at the cursor, the lexer stands past both, and the
    /// remaining integer literals fit their payload.
    pub closed spec fn wf(&self) -> bool {
        &&& self.lexer.wf()
        &&& 0 <= self.start() <= self.inp().len()
        &&& stream_fits(self.inp(), self.start())
        &&& self.current_token@ == spec_next_token(self.inp(), self.start()).0
        &&& self.peek_token@ == spec_next_token(self.inp(), self.mid()).0
        &&& self.lexer.pos() == spec_next_token(self.inp(), self.mid()).1
    }

    /// A parser primed with two tokens of lookahead from `lexer`.
    pub fn new(lexer: Lexer<'a>) -> (p: Parser<'a>)
        requires
            lexer.wf(),
            stream_fits(lexer.inp(), lexer.pos()),
        ensures
            p.wf(),
            p.inp() == lexer.inp(),
            p.start() == lexer.pos(),
    {
        let ghost s = lexer.inp();
        let ghost i0 = lexer.pos();
        let mut lexer = lexer;
        proof {
            lexer.lemma_wf_bounds();
            lemma_stream_fits_step(s, i0);
            lemma_scan_advances(s, i0);
        }
        let cur = lexer.next_token();
        proof {
            lemma_stream_fits_step(s, spec_next_token(s, i0).1);
        }
        let next = lexer.next_token();
        Parser { lexer, current_token: cur, peek_token: next, start_pos: Ghost(i0) }
    }

    /// Shifts the lookahead window one token forward.
    fn next_token(&mut self)
        requires
            old(self).wf(),
        ensures
            final(self).wf(),
            final(self).inp() == old(self).inp(),
            final(self).start() == old(self).mid(),
    {
        let ghost s = self.inp();
        let ghost i0 = self.start();
        proof {
            lemma_scan_advances(s, i0);
            lemma_stream_fits_step(s, i0);
            lemma_scan_advances(s, self.mid());
            lemma_stream_fits_step(s, self.mid());
        }
        self.current_token = self.peek_token.clone();
        self.peek_token = self.lexer.next_token();
        proof {
            self.start_pos@ = spec_next_token(s, i0).1;
        }
    }

    /// Whether the current token has exactly the given kind.
    fn current_token_is(&self, token: TokenKind) -> (r: bool)
        ensures
            r == (self.current_token@.kind == token@),
    {
        self.current_token.kind == token
    }

    /// Advances until the current token is a semicolon, or the end of the
    /// input: how a statement consumes the tokens it does not keep.
    fn advance_to_semicolon(&mut self)
        requires
            old(self).wf(),
        ensures
            final(self).wf(),
            final(self).inp() == old(self).inp(),
            final(self).start() == skip_to_semicolon(old(self).inp(), old(self).start()),
    {
        let ghost s = self.inp();
        let ghost i0 = self.start();
        loop
            invariant_except_break
                self.wf(),
                self.inp() == s,
                0 <= i0 <= s.len(),
                skip_to_semicolon(s, self.start()) == skip_to_semicolon(s, i0),
            ensures
                self.wf(),
                self.inp() == s,
                self.start() == skip_to_semicolon(s, i0),
            decreases s.len() - self.start(),
        {
            let semi = self.current_token_is(TokenKind::SEMICOLON);
            let at_end = self.current_token_is(TokenKind::EOF);
            if semi || at_end {
                proof {
                    assert(skip_to_semicolon(s, self.start()) == self.start());
                }
                break;
            }
            proof {
                lemma_scan_advances(s, self.start());
            }
            self.next_token();
        }
    }

    /// Parses a `let` statement: the token after `let` must be an
    /// identifier, which the statement carries; the parser then consumes the
    /// binding's tokens until it stands on the terminating semicolon, or on
    /// the end of the input. On a mismatch the parser does not move.
    fn parse_let_statement(&mut self) -> (r: Result<Statement, ParseError>)
        requires
            old(self).wf(),
        ensures
            final(self).wf(),
            final(self).inp() == old(self).inp(),
            r is Ok <==> spec_next_token(old(self).inp(), old(self).mid()).0.kind is Ident,
            r is Ok ==> r.unwrap()@ == SpecStatement::Let(
                spec_next_token(old(self).inp(), old(self).mid()).0,
            ),
            r is Ok ==> final(self).start() == skip_to_semicolon(
                old(self).inp(),
                old(self).start(),
            ),
            r is Err ==> r.unwrap_err()@ == "expected identifier after let"@,
            r is Err ==> *final(self) == *old(self),
    {
        let st = match &self.peek_token.kind {
            TokenKind::IDENTIFIER { .. } => Statement::Let(
                Let { identifier: self.peek_token.clone() },
            ),
            _ => {
                return Err("expected identifier after let".to_owned());
            },
        };
        self.advance_to_semicolon();
        Ok(st)
    }

    /// Parses a `return` statement: the statement carries the keyword's own
    /// token, and the parser consumes tokens until it stands on the
    /// terminating semicolon, or on the end of the input.
    fn parse_return_statement(&mut self) -> (r: Result<Statement, ParseError>)
        requires
            old(self).wf(),
        ensures
            final(self).wf(),
            final(self).inp() == old(self).inp(),
            r is Ok,
            r.unwrap()@ == SpecStatement::Return(old(self).cur()),
            final(self).start() == skip_to_semicolon(old(self).inp(), old(self).start()),
    {
        let curr_token = self.current_token.clone();
        let st = Statement::Return(
            ReturnStatement { identifier: Token { kind: curr_token.kind, literal: curr_token.literal } },
        );
        self.advance_to_semicolon();
        Ok(st)
    }

    /// The placeholder for expression statements, which are not parsed yet:
    /// always succeeds with the fixed sentinel name, consuming nothing.
    fn parse_expression_statement(&self) -> (r: Result<Statement, ParseError>)
        ensures
            r is Ok,
            r.unwrap()@ == SpecStatement::Ident("Nothing"@),
    {
        Ok(Statement::Identifier { name: "Nothing".to_owned() })
    }

    /// Parses one statement, dispatching on the current token's kind.
    pub fn parse_statement(&mut self) -> (r: Result<Statement, ParseError>)
        requires
            old(self).wf(),
        ensures
            final(self).wf(),
            final(self).inp() == old(self).inp(),
            r is Ok <==> spec_parse_statement(old(self).inp(), old(self).start()) is Some,
            r is Ok ==> r.unwrap()@ == spec_parse_statement(
                old(self).inp(),
                old(self).start(),
            ).unwrap(),
            r is Err ==> r.unwrap_err()@ == "expected identifier after let"@,
            final(self).start() == spec_parse_statement_end(old(self).inp(), old(self).start()),
    {
        match &self.current_token.kind {
            TokenKind::LET => self.parse_let_statement(),
            TokenKind::RETURN => self.parse_return_statement(),
            _ => self.parse_expression_statement(),
        }
    }

    /// Parses statements until the end of the input, in source order; on
    /// success the parser stands at the end of the input. The first syntax
    /// error is returned instead, and no program is produced.
    pub fn parse_program(&mut self) -> (r: Result<Program, ParseError>)
        requires
            old(self).wf(),
        ensures
            final(self).wf(),
            final(self).inp() == old(self).inp(),
            r is Ok <==> spec_parse_program(old(self).inp(), old(self).start()) is Some,
            r is Ok ==> r.unwrap()@ == spec_parse_program(
                old(self).inp(),
                old(self).start(),
            ).unwrap(),
            r is Err ==> r.unwrap_err()@ == "expected identifier after let"@,
            r is Ok ==> spec_next_token(old(self).inp(), final(self).start()).0.kind
                is EndOfInput,
    {
        let mut p = Program::new();
        let ghost s = self.inp();
        let ghost i0 = self.start();
        loop
            invariant_except_break
                self.wf(),
                self.inp() == s,
                s == old(self).inp(),
                i0 == old(self).start(),
                0 <= i0 <= s.len(),
                spec_parse_program(s, i0) is Some <==> spec_parse_program(s, self.start())
                    is Some,
                spec_parse_program(s, i0) is Some ==> spec_parse_program(s, i0).unwrap() == p@
                    + spec_parse_program(s, self.start()).unwrap(),
            ensures
                self.wf(),
                self.inp() == s,
                spec_parse_program(s, i0) is Some,
                spec_parse_program(s, i0).unwrap() == p@,
                spec_next_token(s, self.start()).0.kind is EndOfInput,
            decreases s.len() - self.start(),
        {
            let at_end = self.current_token_is(TokenKind::EOF);
            if at_end {
                proof {
                    assert(spec_parse_program(s, self.start()) == Some(
                        Seq::<SpecStatement>::empty(),
                    ));
                    if spec_parse_program(s, i0) is Some {
                        assert(spec_parse_program(s, i0).unwrap() =~= p@);
                    }
                }
                break;
            }
            let ghost st0 = self.start();
            let ghost pv = p@;
            match self.parse_statement() {
                Ok(st) => {
                    let ghost stv = st@;
                    p.statements.push(st);
                    proof {
                        assert(p@ =~= pv + seq![stv]);
                    }
                },
                Err(e) => {
                    return Err(e);
                },
            }
            proof {
                lemma_scan_advances(s, self.start());
                lemma_skip_to_semicolon_bounds(s, st0);
            }
            self.next_token();
            proof {
                let ghost stv = spec_parse_statement(s, st0).unwrap();
                let ghost rest = spec_parse_program(s, self.start());
                assert(spec_parse_program(s, st0) is Some <==> rest is Some);
                if rest is Some {
                    assert(spec_parse_program(s, st0).unwrap() == seq![stv] + rest.unwrap());
                    assert(pv + (seq![stv] + rest.unwrap()) =~= p@ + rest.unwrap());
                }
            }
        }
        Ok(p)
    }
}

} // verus!
