//! The parser: a recursive-descent consumer of the token sequence that
//! produces the ordered sequence of top-level statements.
//!
//! The grammar is small: `init name(params): [log(expr)]` declarations,
//! `log(expr)` statements, and top-level expressions beginning with an
//! identifier.  An expression is an identifier (a variable, or a call when
//! followed by `(`), a string literal, or a template string.  Any other
//! construct is rejected with a [`ParseError`] carrying the offending
//! token's kind, line and column.
//!
//! The spec-level parser [`parse_stmts_v`] defines the result for every
//! token sequence; the exec [`Parser`] is proved to return exactly it.

use vstd::prelude::*;

use crate::ast::{expr_view, exprs_view, strings_view, stmt_view, stmts_view, Expr, ExprV, Stmt, StmtV};
use crate::tokens::{clone_kind, tokens_view, KindV, Token, TokenKind, TokenV};

verus! {

broadcast use vstd::std_specs::vec::group_vec_axioms;

/// A parse error: the kind of the offending token and its source position.
#[derive(Debug)]
pub struct ParseError {
    pub found: TokenKind,
    pub line: usize,
    pub column: usize,
}

/// Spec-level mirror of [`ParseError`].
pub ghost struct ParseErrorV {
    pub found: KindV,
    pub line: int,
    pub column: int,
}

impl View for ParseError {
    type V = ParseErrorV;

    open spec fn view(&self) -> ParseErrorV {
        ParseErrorV { found: self.found@, line: self.line as int, column: self.column as int }
    }
}

/// A well-formed token stream: nonempty, with exactly one `EOF` token, at
/// the end.  The lexer produces only such streams.
pub open spec fn token_stream_wf(toks: Seq<TokenV>) -> bool {
    &&& toks.len() > 0
    &&& toks[toks.len() - 1].kind is EOF
    &&& forall|i: int| 0 <= i < toks.len() - 1 ==> !((#[trigger] toks[i]).kind is EOF)
}

/// The error reported when the token at `pos` is rejected.
pub open spec fn error_at(toks: Seq<TokenV>, pos: int) -> ParseErrorV {
    if 0 <= pos < toks.len() {
        ParseErrorV { found: toks[pos].kind, line: toks[pos].line, column: toks[pos].column }
    } else {
        ParseErrorV { found: KindV::EOF, line: 0, column: 0 }
    }
}

/// Parses one expression starting at `pos`: an identifier (a call when
/// followed by `(`), a string literal, or a template string.  On success
/// returns the expression and the position just past it.
pub open spec fn parse_expr_v(toks: Seq<TokenV>, pos: int) -> Result<(ExprV, int), ParseErrorV>
    decreases toks.len() - pos, 0int,
{
    if pos < 0 || pos >= toks.len() {
        Err(error_at(toks, pos))
    } else {
        match toks[pos].kind {
            KindV::Identifier(name) => {
                if pos + 1 < toks.len() && toks[pos + 1].kind is LeftParen {
                    match parse_args_v(toks, pos + 2) {
                        Err(e) => Err(e),
                        Ok((args, q)) => {
                            if 0 <= q < toks.len() && toks[q].kind is RightParen {
                                Ok((ExprV::Call { callee: name, arguments: args }, q + 1))
                            } else {
                                Err(error_at(toks, q))
                            }
                        },
                    }
                } else {
                    Ok((ExprV::Variable(name), pos + 1))
                }
            },
            KindV::StringLiteral(v) => Ok((ExprV::Literal(v), pos + 1)),
            KindV::TemplateString(v) => Ok((ExprV::Template(v), pos + 1)),
            _ => Err(error_at(toks, pos)),
        }
    }
}

/// Parses a comma-separated argument list that ends before a `)`.  A
/// trailing comma is tolerated in the sense that the list ends as soon as no
/// comma follows an element.
pub open spec fn parse_args_v(toks: Seq<TokenV>, pos: int) -> Result<
    (Seq<ExprV>, int),
    ParseErrorV,
>
    decreases toks.len() - pos, 1int,
{
    if pos < 0 || pos >= toks.len() {
        Err(error_at(toks, pos))
    } else if toks[pos].kind is RightParen {
        Ok((Seq::empty(), pos))
    } else {
        match parse_expr_v(toks, pos) {
            Err(e) => Err(e),
            Ok((e0, q0)) => {
                // the lower bound keeps the recursion well-founded; an
                // expression in fact always consumes at least one token
                let q = if q0 <= pos {
                    pos + 1
                } else {
                    q0
                };
                if q < toks.len() && toks[q].kind is Comma {
                    match parse_args_v(toks, q + 1) {
                        Err(e) => Err(e),
                        Ok((rest, q2)) => Ok((seq![e0] + rest, q2)),
                    }
                } else {
                    Ok((seq![e0], q))
                }
            },
        }
    }
}

/// Parses a comma-separated parameter-name list that ends before a `)`,
/// with the same trailing-comma tolerance as argument lists.
pub open spec fn parse_params_v(toks: Seq<TokenV>, pos: int) -> Result<
    (Seq<Seq<char>>, int),
    ParseErrorV,
>
    decreases toks.len() - pos,
{
    if pos < 0 || pos >= toks.len() {
        Err(error_at(toks, pos))
    } else if toks[pos].kind is RightParen {
        Ok((Seq::empty(), pos))
    } else {
        match toks[pos].kind {
            KindV::Identifier(name) => {
                let q = pos + 1;
                if q < toks.len() && toks[q].kind is Comma {
                    match parse_params_v(toks, q + 1) {
                        Err(e) => Err(e),
                        Ok((rest, q2)) => Ok((seq![name] + rest, q2)),
                    }
                } else {
                    Ok((seq![name], q))
                }
            },
            _ => Err(error_at(toks, pos)),
        }
    }
}

/// Parses the rest of a `log` statement, starting just after the `log`
/// keyword: exactly one parenthesized argument expression.
pub open spec fn parse_log_v(toks: Seq<TokenV>, pos: int) -> Result<(StmtV, int), ParseErrorV>
    decreases toks.len() - pos, 1int,
{
    if 0 <= pos < toks.len() && toks[pos].kind is LeftParen {
        match parse_expr_v(toks, pos + 1) {
            Err(e) => Err(e),
            Ok((e0, q)) => {
                if 0 <= q < toks.len() && toks[q].kind is RightParen {
                    Ok((StmtV::Log { value: e0 }, q + 1))
                } else {
                    Err(error_at(toks, q))
                }
            },
        }
    } else {
        Err(error_at(toks, pos))
    }
}

/// Parses the rest of an `init` declaration, starting just after the `init`
/// keyword: a name, a parenthesized parameter list, a colon, and a body of
/// at most one `log` statement.
pub open spec fn parse_init_v(toks: Seq<TokenV>, pos: int) -> Result<(StmtV, int), ParseErrorV>
    decreases toks.len() - pos, 2int,
{
    if pos < 0 || pos >= toks.len() {
        Err(error_at(toks, pos))
    } else {
        match toks[pos].kind {
            KindV::Identifier(name) => {
                let p1 = pos + 1;
                if p1 < toks.len() && toks[p1].kind is LeftParen {
                    match parse_params_v(toks, p1 + 1) {
                        Err(e) => Err(e),
                        Ok((params, q)) => {
                            if 0 <= q < toks.len() && toks[q].kind is RightParen {
                                let q1 = q + 1;
                                if q1 < toks.len() && toks[q1].kind is Colon {
                                    let q2 = q1 + 1;
                                    if q2 < toks.len() && toks[q2].kind is Log {
                                        match parse_log_v(toks, q2 + 1) {
                                            Err(e) => Err(e),
                                            Ok((body_stmt, q3)) => Ok(
                                                (
                                                    StmtV::Init {
                                                        name,
                                                        params,
                                                        body: seq![body_stmt],
                                                    },
                                                    q3,
                                                ),
                                            ),
                                        }
                                    } else {
                                        Ok((StmtV::Init { name, params, body: Seq::empty() }, q2))
                                    }
                                } else {
                                    Err(error_at(toks, q1))
                                }
                            } else {
                                Err(error_at(toks, q))
                            }
                        },
                    }
                } else {
                    Err(error_at(toks, p1))
                }
            },
            _ => Err(error_at(toks, pos)),
        }
    }
}

/// Parses one top-level statement starting at `pos`; `pos` must not stand
/// on `EOF`.
pub open spec fn parse_stmt_v(toks: Seq<TokenV>, pos: int) -> Result<(StmtV, int), ParseErrorV>
    decreases toks.len() - pos, 3int,
{
    if pos < 0 || pos >= toks.len() {
        Err(error_at(toks, pos))
    } else if toks[pos].kind is Init {
        parse_init_v(toks, pos + 1)
    } else if toks[pos].kind is Log {
        parse_log_v(toks, pos + 1)
    } else if toks[pos].kind is Identifier {
        match parse_expr_v(toks, pos) {
            Err(e) => Err(e),
            Ok((e0, q)) => Ok((StmtV::ExprStmt(e0), q)),
        }
    } else {
        Err(error_at(toks, pos))
    }
}

/// Parses top-level statements until `EOF`: the whole program.  On success
/// returns the statements and the position of the `EOF` token.
pub open spec fn parse_stmts_v(toks: Seq<TokenV>, pos: int) -> Result<
    (Seq<StmtV>, int),
    ParseErrorV,
>
    decreases toks.len() - pos, 4int,
{
    if pos < 0 || pos >= toks.len() {
        Err(error_at(toks, pos))
    } else if toks[pos].kind is EOF {
        Ok((Seq::empty(), pos))
    } else {
        match parse_stmt_v(toks, pos) {
            Err(e) => Err(e),
            Ok((s, q0)) => {
                // the lower bound keeps the recursion well-founded; a
                // statement in fact always consumes at least one token
                let q = if q0 <= pos {
                    pos + 1
                } else {
                    q0
                };
                match parse_stmts_v(toks, q) {
                    Err(e) => Err(e),
                    Ok((rest, q2)) => Ok((seq![s] + rest, q2)),
                }
            },
        }
    }
}

/// Parsing is deterministic: the result is a function of the token sequence
/// alone, so identical token sequences parse to identical programs.
pub proof fn lemma_parse_deterministic(t1: Seq<TokenV>, t2: Seq<TokenV>, pos: int)
    requires
        t1 == t2,
    ensures
        parse_stmts_v(t1, pos) == parse_stmts_v(t2, pos),
{
}

/// The recursive-descent parser over a lexed token sequence.
pub struct Parser {
    pub tokens: Vec<Token>,
    pub position: usize,
}

impl Parser {
    /// The spec view of the token sequence.
    pub open spec fn toks(&self) -> Seq<TokenV> {
        tokens_view(self.tokens@)
    }

    /// The spec view of the cursor.
    pub open spec fn pos(&self) -> int {
        self.position as int
    }

    /// Well-formedness: the stream is well formed and the cursor stands on
    /// a real token, with only non-`EOF` tokens behind it.
    pub open spec fn wf(&self) -> bool {
        &&& token_stream_wf(self.toks())
        &&& self.pos() < self.toks().len()
        &&& forall|i: int| 0 <= i < self.pos() ==> !((#[trigger] self.toks()[i]).kind is EOF)
    }

    /// Creates a parser over a token sequence, which must be well formed:
    /// the lexer always ends the stream with exactly one `EOF` token.
    pub fn new(tokens: Vec<Token>) -> (r: Parser)
        requires
            token_stream_wf(tokens_view(tokens@)),
        ensures
            r.wf(),
            r.toks() == tokens_view(tokens@),
            r.pos() == 0,
    {
        Parser { tokens, position: 0 }
    }

    /// Builds the error that rejects the token under the cursor.
    fn error_here(&self) -> (e: ParseError)
        requires
            self.pos() < self.toks().len(),
        ensures
            e@ == error_at(self.toks(), self.pos()),
    {
        let t = &self.tokens[self.position];
        proof {
            assert(self.toks()[self.pos()] == self.tokens@[self.pos()]@);
        }
        ParseError { found: clone_kind(&t.kind), line: t.line, column: t.column }
    }

    /// After consuming a non-`EOF` token the cursor again stands on a real
    /// token.
    proof fn lemma_step(&self)
        requires
            token_stream_wf(self.toks()),
            self.pos() <= self.toks().len(),
            forall|i: int| 0 <= i < self.pos() ==> !((#[trigger] self.toks()[i]).kind is EOF),
        ensures
            self.wf(),
    {
        if self.pos() == self.toks().len() {
            assert(!(self.toks()[self.toks().len() - 1].kind is EOF));
        }
    }

    /// Parses one expression, as [`parse_expr_v`] describes.
    #[verifier::loop_isolation(false)]
    fn parse_expression(&mut self) -> (r: Result<Expr, ParseError>)
        requires
            old(self).wf(),
        ensures
            final(self).tokens@ == old(self).tokens@,
            final(self).pos() <= final(self).toks().len(),
            match r {
                Ok(e) => {
                    &&& final(self).wf()
                    &&& old(self).pos() < final(self).pos()
                    &&& parse_expr_v(old(self).toks(), old(self).pos()) == Ok::<_, ParseErrorV>(
                        (expr_view(e), final(self).pos()),
                    )
                },
                Err(e) => parse_expr_v(old(self).toks(), old(self).pos()) == Err::<
                    (ExprV, int),
                    _,
                >(e@),
            },
        decreases self.tokens@.len() - self.position,
    {
        let ghost t = old(self).toks();
        let ghost pos0 = old(self).pos();
        proof {
            assert(self.tokens@.len() == self.tokens.len());
            assert(t.len() == self.tokens@.len());
            assert(t[pos0] == self.tokens@[pos0]@);
        }
        match &self.tokens[self.position].kind {
            TokenKind::Identifier(n) => {
                let name = n.clone();
                self.position = self.position + 1;
                proof {
                    self.lemma_step();
                }
                if matches!(&self.tokens[self.position].kind, TokenKind::LeftParen) {
                    proof {
                        assert(t[pos0 + 1] == self.tokens@[pos0 + 1]@);
                    }
                    self.position = self.position + 1;
                    proof {
                        self.lemma_step();
                    }
                    let ghost astart = self.pos();
                    let mut args: Vec<Expr> = Vec::new();
                    loop
                        invariant
                            self.wf(),
                            self.tokens@ == old(self).tokens@,
                            astart <= self.pos(),
                            pos0 + 2 <= self.pos(),
                            ({
                                match parse_args_v(t, self.pos()) {
                                    Ok(p) => parse_args_v(t, astart) == Ok::<_, ParseErrorV>(
                                        (exprs_view(args@) + p.0, p.1),
                                    ),
                                    Err(e) => parse_args_v(t, astart) == Err::<
                                        (Seq<ExprV>, int),
                                        _,
                                    >(e),
                                }
                            }),
                        decreases self.toks().len() - self.pos(),
                    {
                        proof {
                            assert(t[self.pos()] == self.tokens@[self.pos()]@);
                        }
                        if matches!(&self.tokens[self.position].kind, TokenKind::RightParen) {
                            break;
                        }
                        let ghost head = self.pos();
                        let ghost args_before = args@;
                        let a = match self.parse_expression() {
                            Ok(a) => a,
                            Err(e) => {
                                return Err(e);
                            },
                        };
                        args.push(a);
                        proof {
                            crate::ast::lemma_exprs_view(args@);
                            crate::ast::lemma_exprs_view(args_before);
                        }
                        proof {
                            assert(t[self.pos()] == self.tokens@[self.pos()]@);
                        }
                        if matches!(&self.tokens[self.position].kind, TokenKind::Comma) {
                            self.position = self.position + 1;
                            proof {
                                self.lemma_step();
                                if parse_args_v(t, self.pos()) is Ok {
                                    let p = parse_args_v(t, self.pos())->Ok_0;
                                    assert(exprs_view(args_before) + (seq![
                                        expr_view(args@[args@.len() - 1]),
                                    ] + p.0) =~= exprs_view(args@) + p.0);
                                }
                            }
                        } else {
                            proof {
                                assert(parse_args_v(t, head) == Ok::<_, ParseErrorV>(
                                    (seq![expr_view(args@[args@.len() - 1])], self.pos()),
                                ));
                                assert(exprs_view(args_before) + seq![
                                    expr_view(args@[args@.len() - 1]),
                                ] =~= exprs_view(args@));
                            }
                            break;
                        }
                    }
                    proof {
                        if parse_args_v(t, self.pos()) is Ok {
                            assert(exprs_view(args@) + Seq::<ExprV>::empty() =~= exprs_view(
                                args@,
                            ));
                        }
                    }
                    if !matches!(&self.tokens[self.position].kind, TokenKind::RightParen) {
                        proof {
                            assert(t[self.pos()] == self.tokens@[self.pos()]@);
                        }
                        return Err(self.error_here());
                    }
                    proof {
                        assert(t[self.pos()] == self.tokens@[self.pos()]@);
                    }
                    self.position = self.position + 1;
                    proof {
                        self.lemma_step();
                    }
                    Ok(Expr::Call { callee: name, arguments: args })
                } else {
                    proof {
                        assert(t[pos0 + 1] == self.tokens@[pos0 + 1]@);
                    }
                    Ok(Expr::Variable(name))
                }
            },
            TokenKind::StringLiteral(v) => {
                let v2 = v.clone();
                self.position = self.position + 1;
                proof {
                    self.lemma_step();
                }
                Ok(Expr::Literal(v2))
            },
            TokenKind::TemplateString(v) => {
                let v2 = v.clone();
                self.position = self.position + 1;
                proof {
                    self.lemma_step();
                }
                Ok(Expr::Template(v2))
            },
            _ => {
                let e = self.error_here();
                self.position = self.position + 1;
                Err(e)
            },
        }
    }

    /// Parses a parameter-name list, as [`parse_params_v`] describes.
    #[verifier::loop_isolation(false)]
    fn parse_params(&mut self) -> (r: Result<Vec<String>, ParseError>)
        requires
            old(self).wf(),
        ensures
            final(self).tokens@ == old(self).tokens@,
            final(self).pos() <= final(self).toks().len(),
            match r {
                Ok(ps) => {
                    &&& final(self).wf()
                    &&& old(self).pos() <= final(self).pos()
                    &&& parse_params_v(old(self).toks(), old(self).pos()) == Ok::<_, ParseErrorV>(
                        (strings_view(ps@), final(self).pos()),
                    )
                },
                Err(e) => parse_params_v(old(self).toks(), old(self).pos()) == Err::<
                    (Seq<Seq<char>>, int),
                    _,
                >(e@),
            },
    {
        let ghost t = old(self).toks();
        let ghost pstart = old(self).pos();
        proof {
            assert(self.tokens@.len() == self.tokens.len());
            assert(t.len() == self.tokens@.len());
        }
        let mut params: Vec<String> = Vec::new();
        loop
            invariant
                self.wf(),
                self.tokens@ == old(self).tokens@,
                pstart <= self.pos(),
                ({
                    match parse_params_v(t, self.pos()) {
                        Ok(p) => parse_params_v(t, pstart) == Ok::<_, ParseErrorV>(
                            (strings_view(params@) + p.0, p.1),
                        ),
                        Err(e) => parse_params_v(t, pstart) == Err::<(Seq<Seq<char>>, int), _>(e),
                    }
                }),
            decreases self.toks().len() - self.pos(),
        {
            proof {
                assert(t[self.pos()] == self.tokens@[self.pos()]@);
            }
            if matches!(&self.tokens[self.position].kind, TokenKind::RightParen) {
                break;
            }
            let ghost head = self.pos();
            let ghost names_before = params@;
            match &self.tokens[self.position].kind {
                TokenKind::Identifier(nm) => {
                    let nm2 = nm.clone();
                    params.push(nm2);
                    self.position = self.position + 1;
                    proof {
                        self.lemma_step();
                        crate::ast::lemma_strings_view(params@);
                        crate::ast::lemma_strings_view(names_before);
                    }
                },
                _ => {
                    let e = self.error_here();
                    self.position = self.position + 1;
                    return Err(e);
                },
            }
            proof {
                assert(t[self.pos()] == self.tokens@[self.pos()]@);
            }
            if matches!(&self.tokens[self.position].kind, TokenKind::Comma) {
                self.position = self.position + 1;
                proof {
                    self.lemma_step();
                    if parse_params_v(t, self.pos()) is Ok {
                        let p = parse_params_v(t, self.pos())->Ok_0;
                        assert(strings_view(names_before) + (seq![params@[params@.len() - 1]@]
                            + p.0) =~= strings_view(params@) + p.0);
                    }
                }
            } else {
                proof {
                    assert(strings_view(names_before) + seq![params@[params@.len() - 1]@]
                        =~= strings_view(params@));
                }
                break;
            }
        }
        proof {
            if parse_params_v(t, self.pos()) is Ok {
                assert(strings_view(params@) + Seq::<Seq<char>>::empty() =~= strings_view(params@));
            }
        }
        Ok(params)
    }

    /// Parses the rest of a `log` statement, as [`parse_log_v`] describes.
    fn parse_log(&mut self) -> (r: Result<Stmt, ParseError>)
        requires
            old(self).wf(),
        ensures
            final(self).tokens@ == old(self).tokens@,
            final(self).pos() <= final(self).toks().len(),
            match r {
                Ok(s) => {
                    &&& final(self).wf()
                    &&& old(self).pos() < final(self).pos()
                    &&& parse_log_v(old(self).toks(), old(self).pos()) == Ok::<_, ParseErrorV>(
                        (stmt_view(s), final(self).pos()),
                    )
                },
                Err(e) => parse_log_v(old(self).toks(), old(self).pos()) == Err::<
                    (StmtV, int),
                    _,
                >(e@),
            },
    {
        let ghost t = old(self).toks();
        proof {
            assert(self.tokens@.len() == self.tokens.len());
            assert(t.len() == self.tokens@.len());
            assert(t[self.pos()] == self.tokens@[self.pos()]@);
        }
        if !matches!(&self.tokens[self.position].kind, TokenKind::LeftParen) {
            return Err(self.error_here());
        }
        self.position = self.position + 1;
        proof {
            self.lemma_step();
        }
        let expr = match self.parse_expression() {
            Ok(e) => e,
            Err(e) => {
                return Err(e);
            },
        };
        proof {
            assert(t[self.pos()] == self.tokens@[self.pos()]@);
        }
        if !matches!(&self.tokens[self.position].kind, TokenKind::RightParen) {
            return Err(self.error_here());
        }
        self.position = self.position + 1;
        proof {
            self.lemma_step();
        }
        Ok(Stmt::Log { value: expr })
    }

    /// Parses the rest of an `init` declaration, as [`parse_init_v`]
    /// describes.
    fn parse_init(&mut self) -> (r: Result<Stmt, ParseError>)
        requires
            old(self).wf(),
        ensures
            final(self).tokens@ == old(self).tokens@,
            final(self).pos() <= final(self).toks().len(),
            match r {
                Ok(s) => {
                    &&& final(self).wf()
                    &&& old(self).pos() < final(self).pos()
                    &&& parse_init_v(old(self).toks(), old(self).pos()) == Ok::<_, ParseErrorV>(
                        (stmt_view(s), final(self).pos()),
                    )
                },
                Err(e) => parse_init_v(old(self).toks(), old(self).pos()) == Err::<
                    (StmtV, int),
                    _,
                >(e@),
            },
    {
        let ghost t = old(self).toks();
        proof {
            assert(self.tokens@.len() == self.tokens.len());
            assert(t.len() == self.tokens@.len());
            assert(t[self.pos()] == self.tokens@[self.pos()]@);
        }
        let name = match &self.tokens[self.position].kind {
            TokenKind::Identifier(n) => {
                let n2 = n.clone();
                self.position = self.position + 1;
                proof {
                    self.lemma_step();
                }
                n2
            },
            _ => {
                let e = self.error_here();
                self.position = self.position + 1;
                return Err(e);
            },
        };
        proof {
            assert(t[self.pos()] == self.tokens@[self.pos()]@);
        }
        if !matches!(&self.tokens[self.position].kind, TokenKind::LeftParen) {
            return Err(self.error_here());
        }
        self.position = self.position + 1;
        proof {
            self.lemma_step();
        }
        let params = match self.parse_params() {
            Ok(p) => p,
            Err(e) => {
                return Err(e);
            },
        };
        proof {
            assert(t[self.pos()] == self.tokens@[self.pos()]@);
        }
        if !matches!(&self.tokens[self.position].kind, TokenKind::RightParen) {
            return Err(self.error_here());
        }
        self.position = self.position + 1;
        proof {
            self.lemma_step();
            assert(t[self.pos()] == self.tokens@[self.pos()]@);
        }
        if !matches!(&self.tokens[self.position].kind, TokenKind::Colon) {
            return Err(self.error_here());
        }
        self.position = self.position + 1;
        proof {
            self.lemma_step();
            assert(t[self.pos()] == self.tokens@[self.pos()]@);
        }
        let mut body: Vec<Stmt> = Vec::new();
        if matches!(&self.tokens[self.position].kind, TokenKind::Log) {
            self.position = self.position + 1;
            proof {
                self.lemma_step();
            }
            match self.parse_log() {
                Ok(s) => {
                    body.push(s);
                    proof {
                        crate::ast::lemma_stmts_view(body@);
                        assert(stmts_view(body@) =~= seq![stmt_view(body@[0])]);
                    }
                },
                Err(e) => {
                    return Err(e);
                },
            }
        }
        Ok(Stmt::Init { name, params, body })
    }

    /// Parses a top-level bare expression as a statement.
    fn parse_expression_stmt(&mut self) -> (r: Result<Stmt, ParseError>)
        requires
            old(self).wf(),
        ensures
            final(self).tokens@ == old(self).tokens@,
            final(self).pos() <= final(self).toks().len(),
            match r {
                Ok(s) => {
                    &&& final(self).wf()
                    &&& old(self).pos() < final(self).pos()
                    &&& parse_expr_v(old(self).toks(), old(self).pos()) is Ok
                    &&& stmt_view(s) == StmtV::ExprStmt(
                        parse_expr_v(old(self).toks(), old(self).pos())->Ok_0.0,
                    )
                    &&& final(self).pos() == parse_expr_v(old(self).toks(), old(self).pos())->Ok_0.1
                },
                Err(e) => parse_expr_v(old(self).toks(), old(self).pos()) == Err::<
                    (ExprV, int),
                    _,
                >(e@),
            },
    {
        match self.parse_expression() {
            Ok(e) => Ok(Stmt::ExprStmt(e)),
            Err(e) => Err(e),
        }
    }

    /// Parses the whole program: top-level statements until `EOF`, exactly
    /// as [`parse_stmts_v`] describes.  One malformed construct rejects the
    /// whole input with the first error.
    #[verifier::loop_isolation(false)]
    pub fn parse(&mut self) -> (r: Result<Vec<Stmt>, ParseError>)
        requires
            old(self).wf(),
        ensures
            final(self).tokens@ == old(self).tokens@,
            match r {
                Ok(stmts) => {
                    &&& final(self).wf()
                    &&& parse_stmts_v(old(self).toks(), old(self).pos()) == Ok::<_, ParseErrorV>(
                        (stmts_view(stmts@), final(self).pos()),
                    )
                },
                Err(e) => parse_stmts_v(old(self).toks(), old(self).pos()) == Err::<
                    (Seq<StmtV>, int),
                    _,
                >(e@),
            },
    {
        let ghost t = old(self).toks();
        let ghost pos0 = old(self).pos();
        proof {
            assert(self.tokens@.len() == self.tokens.len());
            assert(t.len() == self.tokens@.len());
        }
        let mut statements: Vec<Stmt> = Vec::new();
        loop
            invariant
                self.wf(),
                self.tokens@ == old(self).tokens@,
                pos0 <= self.pos(),
                ({
                    match parse_stmts_v(t, self.pos()) {
                        Ok(p) => parse_stmts_v(t, pos0) == Ok::<_, ParseErrorV>(
                            (stmts_view(statements@) + p.0, p.1),
                        ),
                        Err(e) => parse_stmts_v(t, pos0) == Err::<(Seq<StmtV>, int), _>(e),
                    }
                }),
            decreases self.toks().len() - self.pos(),
        {
            proof {
                assert(t[self.pos()] == self.tokens@[self.pos()]@);
            }
            if matches!(&self.tokens[self.position].kind, TokenKind::EOF) {
                break;
            }
            let ghost head = self.pos();
            let ghost before = statements@;
            let s = if matches!(&self.tokens[self.position].kind, TokenKind::Init) {
                self.position = self.position + 1;
                proof {
                    self.lemma_step();
                }
                match self.parse_init() {
                    Ok(s) => s,
                    Err(e) => {
                        return Err(e);
                    },
                }
            } else if matches!(&self.tokens[self.position].kind, TokenKind::Log) {
                self.position = self.position + 1;
                proof {
                    self.lemma_step();
                }
                match self.parse_log() {
                    Ok(s) => s,
                    Err(e) => {
                        return Err(e);
                    },
                }
            } else if matches!(&self.tokens[self.position].kind, TokenKind::Identifier(_)) {
                match self.parse_expression_stmt() {
                    Ok(s) => s,
                    Err(e) => {
                        return Err(e);
                    },
                }
            } else {
                return Err(self.error_here());
            };
            statements.push(s);
            proof {
                crate::ast::lemma_stmts_view(statements@);
                crate::ast::lemma_stmts_view(before);
                if parse_stmts_v(t, self.pos()) is Ok {
                    let p = parse_stmts_v(t, self.pos())->Ok_0;
                    assert(stmts_view(before) + (seq![stmt_view(statements@[statements@.len()
                        - 1])] + p.0) =~= stmts_view(statements@) + p.0);
                }
            }
        }
        proof {
            if parse_stmts_v(t, self.pos()) is Ok {
                assert(stmts_view(statements@) + Seq::<StmtV>::empty() =~= stmts_view(
                    statements@,
                ));
            }
        }
        Ok(statements)
    }
}


} // verus!
