use vstd::prelude::*;
use crate::ast::{BinOp, Expr, ExprV, Stmt, StmtV, stmts_view, lemma_stmts_view_push};
use crate::lexer::token_views;
use crate::token::{Token, TokenV};

verus! {

/// Why a token sequence is not a program.
#[derive(Debug)]
pub enum ParseError {
    /// A required token was missing: `expected` was wanted, `found` came.
    Expected { expected: Token, found: Token },
    /// `let` was not followed by a name.
    ExpectedIdentifier { found: Token },
    /// No statement starts with `found`.
    UnexpectedInStatement { found: Token },
    /// No expression starts with `found`.
    UnexpectedInExpression { found: Token },
}

pub enum ParseErrorV {
    Expected { expected: TokenV, found: TokenV },
    ExpectedIdentifier { found: TokenV },
    UnexpectedInStatement { found: TokenV },
    UnexpectedInExpression { found: TokenV },
}

impl View for ParseError {
    type V = ParseErrorV;

    open spec fn view(&self) -> ParseErrorV {
        match self {
            ParseError::Expected { expected, found } => ParseErrorV::Expected {
                expected: expected@,
                found: found@,
            },
            ParseError::ExpectedIdentifier { found } => ParseErrorV::ExpectedIdentifier {
                found: found@,
            },
            ParseError::UnexpectedInStatement { found } => ParseErrorV::UnexpectedInStatement {
                found: found@,
            },
            ParseError::UnexpectedInExpression { found } => ParseErrorV::UnexpectedInExpression {
                found: found@,
            },
        }
    }
}

/// The token at `pos`; past the end, the end-of-input token.
pub open spec fn tok_at(toks: Seq<TokenV>, pos: int) -> TokenV {
    if 0 <= pos < toks.len() {
        toks[pos]
    } else {
        TokenV::EOF
    }
}

/// The binary operator that `t` stands for at precedence level `level`:
/// 3 for comparisons, 2 for `+ -`, 1 for `* /`.
pub open spec fn level_op(level: nat, t: TokenV) -> Option<BinOp> {
    if level == 3 {
        match t {
            TokenV::Eq => Some(BinOp::Eq),
            TokenV::NotEq => Some(BinOp::Ne),
            TokenV::Less => Some(BinOp::Lt),
            TokenV::LessEq => Some(BinOp::Le),
            TokenV::Greater => Some(BinOp::Gt),
            TokenV::GreaterEq => Some(BinOp::Ge),
            _ => None,
        }
    } else if level == 2 {
        match t {
            TokenV::Plus => Some(BinOp::Add),
            TokenV::Minus => Some(BinOp::Sub),
            _ => None,
        }
    } else if level == 1 {
        match t {
            TokenV::Star => Some(BinOp::Mul),
            TokenV::Slash => Some(BinOp::Div),
            _ => None,
        }
    } else {
        None
    }
}

/// `pos < q <= toks.len()`: parsing moved forward and stayed in the sequence.
/// Every successful step does (`lemma_parse_level_moves`,
/// `lemma_parse_stmt_moves`); the recursive definitions below test it only so
/// that they are well founded.
pub open spec fn moved(toks: Seq<TokenV>, pos: int, q: int) -> bool {
    pos < q <= toks.len()
}

pub open spec fn expect_tok(toks: Seq<TokenV>, pos: int, t: TokenV) -> Result<int, ParseErrorV> {
    if tok_at(toks, pos) == t {
        Ok(pos + 1)
    } else {
        Err(ParseErrorV::Expected { expected: t, found: tok_at(toks, pos) })
    }
}

/// The expression of precedence level `level` (0: a primary) that starts at
/// `pos`, and the position after it.
pub open spec fn parse_level(toks: Seq<TokenV>, pos: int, level: nat) -> Result<(ExprV, int), ParseErrorV>
    decreases toks.len() - pos, 2 * level + 1,
{
    if level == 0 {
        match tok_at(toks, pos) {
            TokenV::Number(n) => Ok((ExprV::Number(n), pos + 1)),
            TokenV::Identifier(s) => Ok((ExprV::Identifier(s), pos + 1)),
            TokenV::LParen => {
                if 0 <= pos < toks.len() {
                    match parse_level(toks, pos + 1, 3) {
                        Ok((e, q)) => match expect_tok(toks, q, TokenV::RParen) {
                            Ok(r) => Ok((e, r)),
                            Err(x) => Err(x),
                        },
                        Err(x) => Err(x),
                    }
                } else {
                    Err(ParseErrorV::UnexpectedInExpression { found: TokenV::LParen })
                }
            },
            t => Err(ParseErrorV::UnexpectedInExpression { found: t }),
        }
    } else {
        match parse_level(toks, pos, (level - 1) as nat) {
            Ok((e, q)) => if moved(toks, pos, q) {
                parse_level_tail(toks, q, level, e)
            } else {
                Ok((e, q))
            },
            Err(x) => Err(x),
        }
    }
}

/// Folds to the left onto `acc` the operators of level `level` and their
/// right operands, from `pos` on.
pub open spec fn parse_level_tail(toks: Seq<TokenV>, pos: int, level: nat, acc: ExprV) -> Result<(ExprV, int), ParseErrorV>
    decreases toks.len() - pos, 2 * level,
{
    if level == 0 || !(0 <= pos < toks.len()) {
        Ok((acc, pos))
    } else {
        match level_op(level, tok_at(toks, pos)) {
            Some(op) => match parse_level(toks, pos + 1, (level - 1) as nat) {
                Ok((rhs, q)) => {
                    let e = ExprV::BinaryOp { left: Box::new(acc), op, right: Box::new(rhs) };
                    if moved(toks, pos, q) {
                        parse_level_tail(toks, q, level, e)
                    } else {
                        Ok((e, q))
                    }
                },
                Err(x) => Err(x),
            },
            None => Ok((acc, pos)),
        }
    }
}

pub open spec fn parse_expr_at(toks: Seq<TokenV>, pos: int) -> Result<(ExprV, int), ParseErrorV> {
    parse_level(toks, pos, 3)
}

/// The statement that starts at `pos` and the position after it; `None` at
/// the end of input.
pub open spec fn parse_stmt_at(toks: Seq<TokenV>, pos: int) -> Result<Option<(StmtV, int)>, ParseErrorV>
    decreases toks.len() - pos, 0int,
{
    if !(0 <= pos < toks.len()) {
        Ok(None)
    } else {
        match toks[pos] {
            TokenV::Let => match tok_at(toks, pos + 1) {
                TokenV::Identifier(name) => match expect_tok(toks, pos + 2, TokenV::Equals) {
                    Ok(p) => match parse_expr_at(toks, p) {
                        Ok((e, q)) => match expect_tok(toks, q, TokenV::Semicolon) {
                            Ok(r) => Ok(Some((StmtV::Let { name, expr: e }, r))),
                            Err(x) => Err(x),
                        },
                        Err(x) => Err(x),
                    },
                    Err(x) => Err(x),
                },
                t => Err(ParseErrorV::ExpectedIdentifier { found: t }),
            },
            TokenV::Print => match parse_expr_at(toks, pos + 1) {
                Ok((e, q)) => match expect_tok(toks, q, TokenV::Semicolon) {
                    Ok(r) => Ok(Some((StmtV::Print { expr: e }, r))),
                    Err(x) => Err(x),
                },
                Err(x) => Err(x),
            },
            TokenV::If => match parse_expr_at(toks, pos + 1) {
                Ok((c, q)) => if !moved(toks, pos, q) {
                    Err(ParseErrorV::UnexpectedInStatement { found: TokenV::If })
                } else {
                    match parse_block_at(toks, q) {
                        Ok((th, r)) => if !moved(toks, pos, r) {
                            Err(ParseErrorV::UnexpectedInStatement { found: TokenV::If })
                        } else if tok_at(toks, r) is Else {
                            match parse_block_at(toks, r + 1) {
                                Ok((el, r2)) => Ok(Some((StmtV::If { condition: c, then_branch: th, else_branch: el }, r2))),
                                Err(x) => Err(x),
                            }
                        } else {
                            Ok(Some((StmtV::If { condition: c, then_branch: th, else_branch: Seq::empty() }, r)))
                        },
                        Err(x) => Err(x),
                    }
                },
                Err(x) => Err(x),
            },
            TokenV::While => match parse_expr_at(toks, pos + 1) {
                Ok((c, q)) => if !moved(toks, pos, q) {
                    Err(ParseErrorV::UnexpectedInStatement { found: TokenV::While })
                } else {
                    match parse_block_at(toks, q) {
                        Ok((body, r)) => Ok(Some((StmtV::While { condition: c, body }, r))),
                        Err(x) => Err(x),
                    }
                },
                Err(x) => Err(x),
            },
            TokenV::EOF => Ok(None),
            t => Err(ParseErrorV::UnexpectedInStatement { found: t }),
        }
    }
}

/// A brace-delimited block that starts at `pos`.
pub open spec fn parse_block_at(toks: Seq<TokenV>, pos: int) -> Result<(Seq<StmtV>, int), ParseErrorV>
    decreases toks.len() - pos, 2int,
{
    match expect_tok(toks, pos, TokenV::LBrace) {
        Ok(p) => if !moved(toks, pos, p) {
            Err(ParseErrorV::Expected { expected: TokenV::LBrace, found: tok_at(toks, pos) })
        } else {
            close_block(toks, parse_items_at(toks, p))
        },
        Err(x) => Err(x),
    }
}

/// The closing `}` after the statements of a block.
pub open spec fn close_block(toks: Seq<TokenV>, items: Result<(Seq<StmtV>, int), ParseErrorV>) -> Result<(Seq<StmtV>, int), ParseErrorV> {
    match items {
        Ok((ss, q)) => match expect_tok(toks, q, TokenV::RBrace) {
            Ok(r) => Ok((ss, r)),
            Err(x) => Err(x),
        },
        Err(x) => Err(x),
    }
}

/// The statements of a block from `pos` up to its `}` or the end of input.
pub open spec fn parse_items_at(toks: Seq<TokenV>, pos: int) -> Result<(Seq<StmtV>, int), ParseErrorV>
    decreases toks.len() - pos, 1int,
{
    let t = tok_at(toks, pos);
    if t is RBrace || t is EOF {
        Ok((Seq::empty(), pos))
    } else {
        match parse_stmt_at(toks, pos) {
            Ok(Some((s, q))) => if !moved(toks, pos, q) {
                Ok((seq![s], q))
            } else {
                match parse_items_at(toks, q) {
                    Ok((rest, r)) => Ok((seq![s] + rest, r)),
                    Err(x) => Err(x),
                }
            },
            Ok(None) => Ok((Seq::empty(), pos)),
            Err(x) => Err(x),
        }
    }
}

/// The statements from `pos` up to the end of input.
pub open spec fn parse_program_at(toks: Seq<TokenV>, pos: int) -> Result<Seq<StmtV>, ParseErrorV>
    decreases toks.len() - pos,
{
    match parse_stmt_at(toks, pos) {
        Ok(Some((s, q))) => if !moved(toks, pos, q) {
            Ok(seq![s])
        } else {
            match parse_program_at(toks, q) {
                Ok(rest) => Ok(seq![s] + rest),
                Err(x) => Err(x),
            }
        },
        Ok(None) => Ok(Seq::empty()),
        Err(x) => Err(x),
    }
}

} // verus!

verus! {

/// How an exec result of parsing an expression stands to its spec result:
/// the same expression or error, and the cursor where the spec puts it.
pub open spec fn expr_outcome(
    r: Result<Expr, ParseError>,
    s: Result<(ExprV, int), ParseErrorV>,
    pos: int,
) -> bool {
    match s {
        Ok((e, q)) => r is Ok && r->Ok_0@ == e && pos == q,
        Err(x) => r is Err && r->Err_0@ == x,
    }
}

/// A recursive-descent parser over a token sequence.
pub struct Parser {
    tokens: Vec<Token>,
    position: usize,
}

fn comparison_op(t: &Token) -> (r: Option<BinOp>)
    ensures
        r == level_op(3, t@),
{
    match t {
        Token::Eq => Some(BinOp::Eq),
        Token::NotEq => Some(BinOp::Ne),
        Token::Less => Some(BinOp::Lt),
        Token::LessEq => Some(BinOp::Le),
        Token::Greater => Some(BinOp::Gt),
        Token::GreaterEq => Some(BinOp::Ge),
        _ => None,
    }
}

fn additive_op(t: &Token) -> (r: Option<BinOp>)
    ensures
        r == level_op(2, t@),
{
    match t {
        Token::Plus => Some(BinOp::Add),
        Token::Minus => Some(BinOp::Sub),
        _ => None,
    }
}

fn multiplicative_op(t: &Token) -> (r: Option<BinOp>)
    ensures
        r == level_op(1, t@),
{
    match t {
        Token::Star => Some(BinOp::Mul),
        Token::Slash => Some(BinOp::Div),
        _ => None,
    }
}

impl Parser {
    /// The values of the tokens.
    pub closed spec fn toks(&self) -> Seq<TokenV> {
        token_views(self.tokens@)
    }

    /// The position of the cursor.
    pub closed spec fn pos(&self) -> int {
        self.position as int
    }

    pub closed spec fn wf(&self) -> bool {
        self.position <= self.tokens.len()
    }

    pub fn new(tokens: Vec<Token>) -> (r: Self)
        ensures
            r.wf(),
            r.toks() == token_views(tokens@),
            r.pos() == 0,
    {
        Parser { tokens, position: 0 }
    }

    fn peek(&self) -> (r: Token)
        requires
            self.wf(),
        ensures
            r@ == tok_at(self.toks(), self.pos()),
    {
        if self.position < self.tokens.len() {
            self.tokens[self.position].duplicate()
        } else {
            Token::EOF
        }
    }

    /// Takes the current token; the cursor moves unless it is past the end.
    fn advance(&mut self) -> (r: Token)
        requires
            old(self).wf(),
        ensures
            final(self).wf(),
            final(self).toks() == old(self).toks(),
            r@ == tok_at(old(self).toks(), old(self).pos()),
            final(self).pos() == if old(self).pos() < old(self).toks().len() {
                old(self).pos() + 1
            } else {
                old(self).pos()
            },
    {
        let tok = self.peek();
        if self.position < self.tokens.len() {
            self.position += 1;
        }
        tok
    }

    fn expect(&mut self, expected: Token) -> (r: Result<(), ParseError>)
        requires
            old(self).wf(),
            !(expected@ is EOF),
        ensures
            final(self).wf(),
            final(self).toks() == old(self).toks(),
            match expect_tok(old(self).toks(), old(self).pos(), expected@) {
                Ok(p) => r is Ok && final(self).pos() == p && moved(old(self).toks(), old(self).pos(), p),
                Err(x) => r is Err && r->Err_0@ == x,
            },
    {
        let actual = self.peek();
        if actual == expected {
            self.advance();
            Ok(())
        } else {
            Err(ParseError::Expected { expected, found: actual })
        }
    }

    fn parse_expr(&mut self) -> (r: Result<Expr, ParseError>)
        requires
            old(self).wf(),
        ensures
            final(self).wf(),
            final(self).toks() == old(self).toks(),
            expr_outcome(r, parse_expr_at(old(self).toks(), old(self).pos()), final(self).pos()),
            r is Ok ==> moved(old(self).toks(), old(self).pos(), final(self).pos()),
        decreases old(self).tokens.len() - old(self).position, 4nat,
    {
        self.parse_comparison()
    }

    fn parse_comparison(&mut self) -> (r: Result<Expr, ParseError>)
        requires
            old(self).wf(),
        ensures
            final(self).wf(),
            final(self).toks() == old(self).toks(),
            expr_outcome(r, parse_level(old(self).toks(), old(self).pos(), 3), final(self).pos()),
            r is Ok ==> moved(old(self).toks(), old(self).pos(), final(self).pos()),
        decreases old(self).tokens.len() - old(self).position, 3nat,
    {
        let ghost toks = self.toks();
        let ghost start = self.pos();
        let mut expr = match self.parse_add_sub() {
            Ok(e) => e,
            Err(x) => {
                return Err(x);
            },
        };
        loop
            invariant
                self.wf(),
                self.toks() == toks,
                toks == old(self).toks(),
                start == old(self).pos(),
                moved(toks, start, self.pos()),
                parse_level(toks, start, 3) == parse_level_tail(toks, self.pos(), 3, expr@),
            decreases self.tokens.len() - self.position,
        {
            let t = self.peek();
            let op = match comparison_op(&t) {
                Some(op) => op,
                None => {
                    return Ok(expr);
                },
            };
            self.advance();
            let rhs = match self.parse_add_sub() {
                Ok(e) => e,
                Err(x) => {
                    return Err(x);
                },
            };
            expr = Expr::BinaryOp { left: Box::new(expr), op, right: Box::new(rhs) };
        }
    }

    fn parse_add_sub(&mut self) -> (r: Result<Expr, ParseError>)
        requires
            old(self).wf(),
        ensures
            final(self).wf(),
            final(self).toks() == old(self).toks(),
            expr_outcome(r, parse_level(old(self).toks(), old(self).pos(), 2), final(self).pos()),
            r is Ok ==> moved(old(self).toks(), old(self).pos(), final(self).pos()),
        decreases old(self).tokens.len() - old(self).position, 2nat,
    {
        let ghost toks = self.toks();
        let ghost start = self.pos();
        let mut expr = match self.parse_mul_div() {
            Ok(e) => e,
            Err(x) => {
                return Err(x);
            },
        };
        loop
            invariant
                self.wf(),
                self.toks() == toks,
                toks == old(self).toks(),
                start == old(self).pos(),
                moved(toks, start, self.pos()),
                parse_level(toks, start, 2) == parse_level_tail(toks, self.pos(), 2, expr@),
            decreases self.tokens.len() - self.position,
        {
            let t = self.peek();
            let op = match additive_op(&t) {
                Some(op) => op,
                None => {
                    return Ok(expr);
                },
            };
            self.advance();
            let rhs = match self.parse_mul_div() {
                Ok(e) => e,
                Err(x) => {
                    return Err(x);
                },
            };
            expr = Expr::BinaryOp { left: Box::new(expr), op, right: Box::new(rhs) };
        }
    }

    fn parse_mul_div(&mut self) -> (r: Result<Expr, ParseError>)
        requires
            old(self).wf(),
        ensures
            final(self).wf(),
            final(self).toks() == old(self).toks(),
            expr_outcome(r, parse_level(old(self).toks(), old(self).pos(), 1), final(self).pos()),
            r is Ok ==> moved(old(self).toks(), old(self).pos(), final(self).pos()),
        decreases old(self).tokens.len() - old(self).position, 1nat,
    {
        let ghost toks = self.toks();
        let ghost start = self.pos();
        let mut expr = match self.parse_primary() {
            Ok(e) => e,
            Err(x) => {
                return Err(x);
            },
        };
        loop
            invariant
                self.wf(),
                self.toks() == toks,
                toks == old(self).toks(),
                start == old(self).pos(),
                moved(toks, start, self.pos()),
                parse_level(toks, start, 1) == parse_level_tail(toks, self.pos(), 1, expr@),
            decreases self.tokens.len() - self.position,
        {
            let t = self.peek();
            let op = match multiplicative_op(&t) {
                Some(op) => op,
                None => {
                    return Ok(expr);
                },
            };
            self.advance();
            let rhs = match self.parse_primary() {
                Ok(e) => e,
                Err(x) => {
                    return Err(x);
                },
            };
            expr = Expr::BinaryOp { left: Box::new(expr), op, right: Box::new(rhs) };
        }
    }

    fn parse_primary(&mut self) -> (r: Result<Expr, ParseError>)
        requires
            old(self).wf(),
        ensures
            final(self).wf(),
            final(self).toks() == old(self).toks(),
            expr_outcome(r, parse_level(old(self).toks(), old(self).pos(), 0), final(self).pos()),
            r is Ok ==> moved(old(self).toks(), old(self).pos(), final(self).pos()),
        decreases old(self).tokens.len() - old(self).position, 0nat,
    {
        match self.advance() {
            Token::Number(n) => Ok(Expr::Number(n)),
            Token::Identifier(name) => Ok(Expr::Identifier(name)),
            Token::LParen => {
                let expr = match self.parse_expr() {
                    Ok(e) => e,
                    Err(x) => {
                        return Err(x);
                    },
                };
                match self.expect(Token::RParen) {
                    Ok(()) => Ok(expr),
                    Err(x) => Err(x),
                }
            },
            other => Err(ParseError::UnexpectedInExpression { found: other }),
        }
    }
}

} // verus!

verus! {

/// `pre` put in front of the statements of a spec result.
pub open spec fn prepend_items(pre: Seq<StmtV>, r: Result<(Seq<StmtV>, int), ParseErrorV>) -> Result<(Seq<StmtV>, int), ParseErrorV> {
    match r {
        Ok((ss, q)) => Ok((pre + ss, q)),
        Err(x) => Err(x),
    }
}

pub open spec fn prepend_program(pre: Seq<StmtV>, r: Result<Seq<StmtV>, ParseErrorV>) -> Result<Seq<StmtV>, ParseErrorV> {
    match r {
        Ok(ss) => Ok(pre + ss),
        Err(x) => Err(x),
    }
}

impl Parser {
    /// Parses one statement; `None` at the end of input.
    #[verifier::rlimit(40)]
    pub fn parse_stmt(&mut self) -> (r: Result<Option<Stmt>, ParseError>)
        requires
            old(self).wf(),
        ensures
            final(self).wf(),
            final(self).toks() == old(self).toks(),
            match parse_stmt_at(old(self).toks(), old(self).pos()) {
                Ok(Some((s, q))) => r is Ok && r->Ok_0 is Some && r->Ok_0->Some_0@ == s
                    && final(self).pos() == q,
                Ok(None) => r is Ok && r->Ok_0 is None && final(self).pos() == old(self).pos(),
                Err(x) => r is Err && r->Err_0@ == x,
            },
            (r is Ok && r->Ok_0 is Some) ==> moved(old(self).toks(), old(self).pos(), final(self).pos()),
        decreases old(self).toks().len() - old(self).pos(), 0nat,
    {
        let t = self.peek();
        match t {
            Token::Let => {
                self.advance();
                let name = match self.advance() {
                    Token::Identifier(name) => name,
                    other => {
                        return Err(ParseError::ExpectedIdentifier { found: other });
                    },
                };
                match self.expect(Token::Equals) {
                    Ok(()) => {},
                    Err(x) => {
                        return Err(x);
                    },
                }
                let expr = match self.parse_expr() {
                    Ok(e) => e,
                    Err(x) => {
                        return Err(x);
                    },
                };
                match self.expect(Token::Semicolon) {
                    Ok(()) => Ok(Some(Stmt::Let { name, expr })),
                    Err(x) => Err(x),
                }
            },
            Token::Print => {
                self.advance();
                let expr = match self.parse_expr() {
                    Ok(e) => e,
                    Err(x) => {
                        return Err(x);
                    },
                };
                match self.expect(Token::Semicolon) {
                    Ok(()) => Ok(Some(Stmt::Print { expr })),
                    Err(x) => Err(x),
                }
            },
            Token::If => {
                self.advance();
                let condition = match self.parse_expr() {
                    Ok(e) => e,
                    Err(x) => {
                        return Err(x);
                    },
                };
                let then_branch = match self.parse_block() {
                    Ok(b) => b,
                    Err(x) => {
                        return Err(x);
                    },
                };
                let else_branch = if self.peek() == Token::Else {
                    self.advance();
                    match self.parse_block() {
                        Ok(b) => b,
                        Err(x) => {
                            return Err(x);
                        },
                    }
                } else {
                    let empty: Vec<Stmt> = Vec::new();
                    assert(stmts_view(empty@) =~= Seq::<StmtV>::empty());
                    empty
                };
                Ok(Some(Stmt::If { condition, then_branch, else_branch }))
            },
            Token::While => {
                self.advance();
                let condition = match self.parse_expr() {
                    Ok(e) => e,
                    Err(x) => {
                        return Err(x);
                    },
                };
                match self.parse_block() {
                    Ok(body) => Ok(Some(Stmt::While { condition, body })),
                    Err(x) => Err(x),
                }
            },
            Token::EOF => Ok(None),
            other => Err(ParseError::UnexpectedInStatement { found: other }),
        }
    }

    fn parse_block(&mut self) -> (r: Result<Vec<Stmt>, ParseError>)
        requires
            old(self).wf(),
        ensures
            final(self).wf(),
            final(self).toks() == old(self).toks(),
            match parse_block_at(old(self).toks(), old(self).pos()) {
                Ok((ss, q)) => r is Ok && stmts_view(r->Ok_0@) == ss && final(self).pos() == q,
                Err(x) => r is Err && r->Err_0@ == x,
            },
            r is Ok ==> moved(old(self).toks(), old(self).pos(), final(self).pos()),
        decreases old(self).tokens.len() - old(self).position, 2nat,
    {
        let ghost toks = self.toks();
        let ghost start = self.pos();
        match self.expect(Token::LBrace) {
            Ok(()) => {},
            Err(x) => {
                return Err(x);
            },
        }
        let ghost first = self.pos();
        let mut stmts: Vec<Stmt> = Vec::new();
        assert(stmts_view(stmts@) + Seq::<StmtV>::empty() =~= Seq::<StmtV>::empty());
        assert(prepend_items(stmts_view(stmts@), parse_items_at(toks, first)) == parse_items_at(toks, first));
        loop
            invariant
                self.wf(),
                self.toks() == toks,
                toks == old(self).toks(),
                start == old(self).pos(),
                first == start + 1,
                parse_block_at(toks, start) == close_block(toks, parse_items_at(toks, first)),
                first <= self.pos() <= toks.len(),
                parse_items_at(toks, first) == prepend_items(stmts_view(stmts@), parse_items_at(toks, self.pos())),
            ensures
                self.wf(),
                self.toks() == toks,
                first <= self.pos() <= toks.len(),
                parse_block_at(toks, start) == close_block(toks, parse_items_at(toks, first)),
                parse_items_at(toks, first) == prepend_items(stmts_view(stmts@), parse_items_at(toks, self.pos())),
                parse_items_at(toks, self.pos()) == Ok::<(Seq<StmtV>, int), ParseErrorV>((Seq::empty(), self.pos())),
            decreases self.tokens.len() - self.position,
        {
            let t = self.peek();
            match t {
                Token::RBrace | Token::EOF => {
                    break;
                },
                _ => {},
            }
            match self.parse_stmt() {
                Ok(Some(s)) => {
                    let ghost sv = s@;
                    let ghost prev = stmts@;
                    stmts.push(s);
                    proof {
                        lemma_stmts_view_push(prev, s);
                        let rest = parse_items_at(toks, self.pos());
                        match rest {
                            Ok((ss, q)) => {
                                assert(stmts_view(prev) + (seq![sv] + ss) =~= stmts_view(stmts@) + ss);
                            },
                            Err(x) => {},
                        }
                    }
                },
                Ok(None) => {
                    break;
                },
                Err(x) => {
                    return Err(x);
                },
            }
        }
        match self.expect(Token::RBrace) {
            Ok(()) => {
                assert(stmts_view(stmts@) + Seq::<StmtV>::empty() =~= stmts_view(stmts@));
                Ok(stmts)
            },
            Err(x) => Err(x),
        }
    }

    /// Parses statements up to the end of input.
    pub fn parse_program(&mut self) -> (r: Result<Vec<Stmt>, ParseError>)
        requires
            old(self).wf(),
        ensures
            final(self).wf(),
            match parse_program_at(old(self).toks(), old(self).pos()) {
                Ok(ss) => r is Ok && stmts_view(r->Ok_0@) == ss,
                Err(x) => r is Err && r->Err_0@ == x,
            },
    {
        let ghost toks = self.toks();
        let ghost start = self.pos();
        let mut stmts: Vec<Stmt> = Vec::new();
        assert(stmts_view(stmts@) =~= Seq::<StmtV>::empty());
        assert(prepend_program(stmts_view(stmts@), parse_program_at(toks, start)) =~~= parse_program_at(toks, start));
        loop
            invariant
                self.wf(),
                self.toks() == toks,
                toks == old(self).toks(),
                start == old(self).pos(),
                parse_program_at(toks, start) == prepend_program(stmts_view(stmts@), parse_program_at(toks, self.pos())),
            decreases self.tokens.len() - self.position,
        {
            match self.parse_stmt() {
                Ok(Some(s)) => {
                    let ghost sv = s@;
                    let ghost prev = stmts@;
                    stmts.push(s);
                    proof {
                        lemma_stmts_view_push(prev, s);
                        match parse_program_at(toks, self.pos()) {
                            Ok(ss) => {
                                assert(stmts_view(prev) + (seq![sv] + ss) =~= stmts_view(stmts@) + ss);
                            },
                            Err(x) => {},
                        }
                    }
                },
                Ok(None) => {
                    assert(stmts_view(stmts@) + Seq::<StmtV>::empty() =~= stmts_view(stmts@));
                    return Ok(stmts);
                },
                Err(x) => {
                    return Err(x);
                },
            }
        }
    }
}

} // verus!

verus! {

/// A successful parse of an expression moves forward and stays in the
/// sequence, so the `moved` tests in `parse_level` and `parse_level_tail`
/// always pass.
pub proof fn lemma_parse_level_moves(toks: Seq<TokenV>, pos: int, level: nat)
    requires
        0 <= pos <= toks.len(),
    ensures
        parse_level(toks, pos, level) is Ok ==> moved(toks, pos, parse_level(toks, pos, level)->Ok_0.1),
    decreases toks.len() - pos, 2 * level + 1,
{
    if level == 0 {
        if tok_at(toks, pos) is LParen {
            lemma_parse_level_moves(toks, pos + 1, 3);
        }
    } else {
        lemma_parse_level_moves(toks, pos, (level - 1) as nat);
        match parse_level(toks, pos, (level - 1) as nat) {
            Ok((e, q)) => {
                lemma_parse_level_tail_moves(toks, q, level, e);
            },
            Err(_) => {},
        }
    }
}

pub proof fn lemma_parse_level_tail_moves(toks: Seq<TokenV>, pos: int, level: nat, acc: ExprV)
    requires
        0 <= pos <= toks.len(),
    ensures
        parse_level_tail(toks, pos, level, acc) is Ok ==> pos <= parse_level_tail(toks, pos, level, acc)->Ok_0.1 <= toks.len(),
    decreases toks.len() - pos, 2 * level,
{
    if level > 0 && pos < toks.len() {
        if let Some(op) = level_op(level, tok_at(toks, pos)) {
            lemma_parse_level_moves(toks, pos + 1, (level - 1) as nat);
            match parse_level(toks, pos + 1, (level - 1) as nat) {
                Ok((rhs, q)) => {
                    let e = ExprV::BinaryOp { left: Box::new(acc), op, right: Box::new(rhs) };
                    lemma_parse_level_tail_moves(toks, q, level, e);
                },
                Err(_) => {},
            }
        }
    }
}

/// A successfully parsed statement moves forward and stays in the sequence,
/// so the `moved` tests in the statement-level definitions always pass.
pub proof fn lemma_parse_stmt_moves(toks: Seq<TokenV>, pos: int)
    requires
        0 <= pos <= toks.len(),
    ensures
        parse_stmt_at(toks, pos) matches Ok(Some((_, q))) ==> moved(toks, pos, q),
    decreases toks.len() - pos, 0int,
{
    if pos < toks.len() {
        match toks[pos] {
            TokenV::Let => {
                if tok_at(toks, pos + 1) is Identifier && tok_at(toks, pos + 2) is Equals {
                    lemma_parse_level_moves(toks, pos + 3, 3);
                }
            },
            TokenV::Print => {
                lemma_parse_level_moves(toks, pos + 1, 3);
            },
            TokenV::If => {
                lemma_parse_level_moves(toks, pos + 1, 3);
                if let Ok((c, q)) = parse_expr_at(toks, pos + 1) {
                    lemma_parse_block_moves(toks, q);
                    if let Ok((th, r)) = parse_block_at(toks, q) {
                        if tok_at(toks, r) is Else {
                            lemma_parse_block_moves(toks, r + 1);
                        }
                    }
                }
            },
            TokenV::While => {
                lemma_parse_level_moves(toks, pos + 1, 3);
                if let Ok((c, q)) = parse_expr_at(toks, pos + 1) {
                    lemma_parse_block_moves(toks, q);
                }
            },
            _ => {},
        }
    }
}

pub proof fn lemma_parse_block_moves(toks: Seq<TokenV>, pos: int)
    requires
        0 <= pos <= toks.len(),
    ensures
        parse_block_at(toks, pos) is Ok ==> moved(toks, pos, parse_block_at(toks, pos)->Ok_0.1),
    decreases toks.len() - pos, 2int,
{
    if tok_at(toks, pos) is LBrace {
        lemma_parse_items_moves(toks, pos + 1);
    }
}

pub proof fn lemma_parse_items_moves(toks: Seq<TokenV>, pos: int)
    requires
        0 <= pos <= toks.len(),
    ensures
        parse_items_at(toks, pos) is Ok ==> pos <= parse_items_at(toks, pos)->Ok_0.1 <= toks.len(),
    decreases toks.len() - pos, 1int,
{
    let t = tok_at(toks, pos);
    if !(t is RBrace || t is EOF) {
        lemma_parse_stmt_moves(toks, pos);
        if let Ok(Some((s, q))) = parse_stmt_at(toks, pos) {
            lemma_parse_items_moves(toks, q);
        }
    }
}

} // verus!
