use vstd::prelude::*;

verus! {

#[derive(Debug)]
pub enum Expr {
    Number(i64),
    Identifier(String),
    BinaryOp { left: Box<Expr>, op: BinOp, right: Box<Expr> },
}

#[derive(Debug, Clone, Copy, PartialEq, Eq, Structural)]
pub enum BinOp {
    Add,
    Sub,
    Mul,
    Div,
    Eq,
    Ne,
    Lt,
    Le,
    Gt,
    Ge,
}

#[derive(Debug)]
pub enum Stmt {
    Let { name: String, expr: Expr },
    Print { expr: Expr },
    If { condition: Expr, then_branch: Vec<Stmt>, else_branch: Vec<Stmt> },
    While { condition: Expr, body: Vec<Stmt> },
}

/// The mathematical value of an expression: names are character sequences.
pub enum ExprV {
    Number(i64),
    Identifier(Seq<char>),
    BinaryOp { left: Box<ExprV>, op: BinOp, right: Box<ExprV> },
}

/// The mathematical value of a statement: blocks are sequences.
pub enum StmtV {
    Let { name: Seq<char>, expr: ExprV },
    Print { expr: ExprV },
    If { condition: ExprV, then_branch: Seq<StmtV>, else_branch: Seq<StmtV> },
    While { condition: ExprV, body: Seq<StmtV> },
}

pub open spec fn expr_view(e: Expr) -> ExprV
    decreases e,
{
    match e {
        Expr::Number(n) => ExprV::Number(n),
        Expr::Identifier(s) => ExprV::Identifier(s@),
        Expr::BinaryOp { left, op, right } => ExprV::BinaryOp {
            left: Box::new(expr_view(*left)),
            op,
            right: Box::new(expr_view(*right)),
        },
    }
}

pub open spec fn stmt_view(s: Stmt) -> StmtV
    decreases s,
{
    match s {
        Stmt::Let { name, expr } => StmtV::Let { name: name@, expr: expr_view(expr) },
        Stmt::Print { expr } => StmtV::Print { expr: expr_view(expr) },
        Stmt::If { condition, then_branch, else_branch } => StmtV::If {
            condition: expr_view(condition),
            then_branch: stmts_view(then_branch@),
            else_branch: stmts_view(else_branch@),
        },
        Stmt::While { condition, body } => StmtV::While {
            condition: expr_view(condition),
            body: stmts_view(body@),
        },
    }
}

/// The values of a sequence of statements, in order.
pub open spec fn stmts_view(ss: Seq<Stmt>) -> Seq<StmtV>
    decreases ss,
{
    if ss.len() == 0 {
        Seq::empty()
    } else {
        seq![stmt_view(ss[0])] + stmts_view(ss.drop_first())
    }
}

impl View for Expr {
    type V = ExprV;

    open spec fn view(&self) -> ExprV {
        expr_view(*self)
    }
}

impl View for Stmt {
    type V = StmtV;

    open spec fn view(&self) -> StmtV {
        stmt_view(*self)
    }
}

} // verus!

verus! {

pub proof fn lemma_stmts_view_push(ss: Seq<Stmt>, s: Stmt)
    ensures
        stmts_view(ss.push(s)) == stmts_view(ss).push(stmt_view(s)),
    decreases ss.len(),
{
    if ss.len() == 0 {
        assert(ss.push(s).drop_first() =~= Seq::<Stmt>::empty());
        assert(stmts_view(Seq::<Stmt>::empty()) == Seq::<StmtV>::empty());
        assert(ss.push(s)[0] == s);
        assert(stmts_view(ss.push(s)) =~= stmts_view(ss).push(stmt_view(s)));
    } else {
        let ps = ss.push(s);
        assert(ps.drop_first() =~= ss.drop_first().push(s));
        assert(ps[0] == ss[0]);
        lemma_stmts_view_push(ss.drop_first(), s);
        assert(stmts_view(ps) == seq![stmt_view(ss[0])] + stmts_view(ss.drop_first()).push(stmt_view(s)));
        assert(stmts_view(ss) == seq![stmt_view(ss[0])] + stmts_view(ss.drop_first()));
        assert(stmts_view(ps) =~= stmts_view(ss).push(stmt_view(s)));
    }
}

} // verus!

verus! {

pub proof fn lemma_stmts_view_index(ss: Seq<Stmt>)
    ensures
        stmts_view(ss).len() == ss.len(),
        forall|i: int| 0 <= i < ss.len() ==> #[trigger] stmts_view(ss)[i] == stmt_view(ss[i]),
    decreases ss.len(),
{
    if ss.len() > 0 {
        lemma_stmts_view_index(ss.drop_first());
        assert forall|i: int| 0 <= i < ss.len() implies #[trigger] stmts_view(ss)[i] == stmt_view(ss[i]) by {
            if i > 0 {
                assert(stmts_view(ss)[i] == stmts_view(ss.drop_first())[i - 1]);
            }
        }
    }
}

} // verus!
