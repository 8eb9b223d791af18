use vstd::prelude::*;
use crate::ast::{BinOp, Expr, ExprV, Stmt, StmtV, stmt_view, stmts_view, lemma_stmts_view_index};

verus! {

/// The number of loop iterations that one run may take.
pub const STEP_LIMIT: u64 = 0xffff_ffff_ffff_ffff;

/// Why a run stopped early.
#[derive(Debug)]
pub enum RuntimeError {
    /// A name was read before any `let` bound it.
    UndefinedVariable { name: String },
    /// A division had a zero divisor.
    DivisionByZero,
    /// An arithmetic result did not fit in an `i64`.
    Overflow,
    /// Loops ran more than `STEP_LIMIT` iterations.
    StepLimit,
}

pub enum RuntimeErrorV {
    UndefinedVariable { name: Seq<char> },
    DivisionByZero,
    Overflow,
    StepLimit,
}

impl View for RuntimeError {
    type V = RuntimeErrorV;

    open spec fn view(&self) -> RuntimeErrorV {
        match self {
            RuntimeError::UndefinedVariable { name } => RuntimeErrorV::UndefinedVariable { name: name@ },
            RuntimeError::DivisionByZero => RuntimeErrorV::DivisionByZero,
            RuntimeError::Overflow => RuntimeErrorV::Overflow,
            RuntimeError::StepLimit => RuntimeErrorV::StepLimit,
        }
    }
}

/// The variable store and the lines printed so far.
pub struct RunState {
    pub env: Map<Seq<char>, i64>,
    pub out: Seq<i64>,
}

pub open spec fn in_range(v: int) -> Result<i64, RuntimeErrorV> {
    if i64::MIN <= v <= i64::MAX {
        Ok(v as i64)
    } else {
        Err(RuntimeErrorV::Overflow)
    }
}

/// Division rounding toward zero.
pub open spec fn trunc_div(a: int, b: int) -> int {
    let q = (if a < 0 { -a } else { a }) / (if b < 0 { -b } else { b });
    if (a < 0) == (b < 0) {
        q
    } else {
        -q
    }
}

pub open spec fn truth(b: bool) -> i64 {
    if b {
        1
    } else {
        0
    }
}

/// The value of `l op r`.
pub open spec fn apply_op(op: BinOp, l: i64, r: i64) -> Result<i64, RuntimeErrorV> {
    match op {
        BinOp::Add => in_range(l + r),
        BinOp::Sub => in_range(l - r),
        BinOp::Mul => in_range(l * r),
        BinOp::Div => if r == 0 {
            Err(RuntimeErrorV::DivisionByZero)
        } else {
            in_range(trunc_div(l as int, r as int))
        },
        BinOp::Eq => Ok(truth(l == r)),
        BinOp::Ne => Ok(truth(l != r)),
        BinOp::Lt => Ok(truth(l < r)),
        BinOp::Le => Ok(truth(l <= r)),
        BinOp::Gt => Ok(truth(l > r)),
        BinOp::Ge => Ok(truth(l >= r)),
    }
}

/// The value of an expression in a store: left operand first, then right.
pub open spec fn eval_expr(e: ExprV, env: Map<Seq<char>, i64>) -> Result<i64, RuntimeErrorV>
    decreases e,
{
    match e {
        ExprV::Number(n) => Ok(n),
        ExprV::Identifier(name) => if env.contains_key(name) {
            Ok(env[name])
        } else {
            Err(RuntimeErrorV::UndefinedVariable { name })
        },
        ExprV::BinaryOp { left, op, right } => match eval_expr(*left, env) {
            Ok(l) => match eval_expr(*right, env) {
                Ok(r) => apply_op(op, l, r),
                Err(x) => Err(x),
            },
            Err(x) => Err(x),
        },
    }
}

/// Runs a statement from `st` with `fuel` loop iterations left: the state
/// where it stopped, and the iterations left or the error that stopped it.
/// A run never gains iterations (`lemma_run_stmt_fuel`); the tests on the
/// iterations left only make the definition well founded.
pub open spec fn run_stmt(s: StmtV, st: RunState, fuel: nat) -> (RunState, Result<nat, RuntimeErrorV>)
    decreases fuel, s,
{
    match s {
        StmtV::Let { name, expr } => match eval_expr(expr, st.env) {
            Ok(v) => (RunState { env: st.env.insert(name, v), out: st.out }, Ok(fuel)),
            Err(x) => (st, Err(x)),
        },
        StmtV::Print { expr } => match eval_expr(expr, st.env) {
            Ok(v) => (RunState { env: st.env, out: st.out.push(v) }, Ok(fuel)),
            Err(x) => (st, Err(x)),
        },
        StmtV::If { condition, then_branch, else_branch } => match eval_expr(condition, st.env) {
            Ok(c) => if c != 0 {
                run_block(then_branch, st, fuel)
            } else {
                run_block(else_branch, st, fuel)
            },
            Err(x) => (st, Err(x)),
        },
        StmtV::While { condition, body } => match eval_expr(condition, st.env) {
            Ok(c) => if c == 0 {
                (st, Ok(fuel))
            } else if fuel == 0 {
                (st, Err(RuntimeErrorV::StepLimit))
            } else {
                let (st2, r) = run_block(body, st, (fuel - 1) as nat);
                match r {
                    Ok(f) => if f < fuel {
                        run_stmt(s, st2, f)
                    } else {
                        (st2, Ok(f))
                    },
                    Err(x) => (st2, Err(x)),
                }
            },
            Err(x) => (st, Err(x)),
        },
    }
}

/// Runs statements in order; the first error stops the rest.
pub open spec fn run_block(ss: Seq<StmtV>, st: RunState, fuel: nat) -> (RunState, Result<nat, RuntimeErrorV>)
    decreases fuel, ss,
{
    if ss.len() == 0 {
        (st, Ok(fuel))
    } else {
        let (st1, r) = run_stmt(ss[0], st, fuel);
        match r {
            Ok(f) => if f <= fuel {
                run_block(ss.drop_first(), st1, f)
            } else {
                (st1, Ok(f))
            },
            Err(x) => (st1, Err(x)),
        }
    }
}

} // verus!

verus! {

/// The store that a list of bindings stands for: a later binding of a name
/// hides an earlier one.
pub open spec fn bindings_map(s: Seq<(String, i64)>) -> Map<Seq<char>, i64>
    decreases s.len(),
{
    if s.len() == 0 {
        Map::empty()
    } else {
        bindings_map(s.drop_last()).insert(s.last().0@, s.last().1)
    }
}

proof fn lemma_bindings_absent(s: Seq<(String, i64)>, k: Seq<char>)
    requires
        forall|j: int| 0 <= j < s.len() ==> s[j].0@ != k,
    ensures
        !bindings_map(s).contains_key(k),
    decreases s.len(),
{
    if s.len() > 0 {
        lemma_bindings_absent(s.drop_last(), k);
    }
}

proof fn lemma_bindings_found(s: Seq<(String, i64)>, i: int, k: Seq<char>)
    requires
        0 <= i < s.len(),
        s[i].0@ == k,
        forall|j: int| i < j < s.len() ==> s[j].0@ != k,
    ensures
        bindings_map(s).contains_key(k),
        bindings_map(s)[k] == s[i].1,
    decreases s.len(),
{
    if i < s.len() - 1 {
        lemma_bindings_found(s.drop_last(), i, k);
    }
}

proof fn lemma_bindings_update(s: Seq<(String, i64)>, i: int, b: (String, i64))
    requires
        0 <= i < s.len(),
        s[i].0@ == b.0@,
        forall|j: int| i < j < s.len() ==> s[j].0@ != b.0@,
    ensures
        bindings_map(s.update(i, b)) == bindings_map(s).insert(b.0@, b.1),
    decreases s.len(),
{
    let u = s.update(i, b);
    if i == s.len() - 1 {
        assert(u.drop_last() =~= s.drop_last());
        assert(bindings_map(u) =~= bindings_map(s).insert(b.0@, b.1));
    } else {
        assert(u.drop_last() =~= s.drop_last().update(i, b));
        lemma_bindings_update(s.drop_last(), i, b);
        assert(bindings_map(u) =~= bindings_map(s).insert(b.0@, b.1));
    }
}

proof fn lemma_bindings_push(s: Seq<(String, i64)>, b: (String, i64))
    ensures
        bindings_map(s.push(b)) == bindings_map(s).insert(b.0@, b.1),
{
    assert(s.push(b).drop_last() =~= s);
}

/// A tree-walking evaluator with a flat variable store.
pub struct Interpreter {
    env: Vec<(String, i64)>,
    output: Vec<i64>,
}

impl Interpreter {
    /// The store and the lines printed so far.
    pub closed spec fn state(&self) -> RunState {
        RunState { env: bindings_map(self.env@), out: self.output@ }
    }

    pub fn new() -> (r: Self)
        ensures
            r.state() == (RunState { env: Map::empty(), out: Seq::empty() }),
    {
        let r = Interpreter { env: Vec::new(), output: Vec::new() };
        assert(r.state().env =~= Map::empty());
        assert(r.state().out =~= Seq::empty());
        r
    }

    /// The values printed so far, in order.
    pub fn output(&self) -> (r: &Vec<i64>)
        ensures
            r@ == self.state().out,
    {
        &self.output
    }

    /// The index of the last binding of `name`.
    fn find(&self, name: &String) -> (r: Option<usize>)
        ensures
            match r {
                Some(i) => i < self.env.len() && self.env@[i as int].0@ == name@
                    && forall|j: int| i < j < self.env.len() ==> self.env@[j].0@ != name@,
                None => forall|j: int| 0 <= j < self.env.len() ==> self.env@[j].0@ != name@,
            },
    {
        let mut i = self.env.len();
        while i > 0
            invariant
                i <= self.env.len(),
                forall|j: int| i <= j < self.env.len() ==> self.env@[j].0@ != name@,
            decreases i,
        {
            i -= 1;
            if self.env[i].0 == *name {
                return Some(i);
            }
        }
        None
    }

    fn bind(&mut self, name: String, value: i64)
        ensures
            final(self).state() == (RunState {
                env: old(self).state().env.insert(name@, value),
                out: old(self).state().out,
            }),
    {
        match self.find(&name) {
            Some(i) => {
                proof {
                    lemma_bindings_update(self.env@, i as int, (name, value));
                }
                self.env.set(i, (name, value));
            },
            None => {
                proof {
                    lemma_bindings_push(self.env@, (name, value));
                }
                self.env.push((name, value));
            },
        }
    }
}

fn apply(op: BinOp, l: i64, r: i64) -> (res: Result<i64, RuntimeError>)
    ensures
        match apply_op(op, l, r) {
            Ok(v) => res == Ok::<i64, RuntimeError>(v),
            Err(x) => res is Err && res->Err_0@ == x,
        },
{
    let checked = match op {
        BinOp::Add => l.checked_add(r),
        BinOp::Sub => l.checked_sub(r),
        BinOp::Mul => l.checked_mul(r),
        BinOp::Div => {
            if r == 0 {
                return Err(RuntimeError::DivisionByZero);
            }
            l.checked_div(r)
        },
        BinOp::Eq => Some(if l == r { 1 } else { 0 }),
        BinOp::Ne => Some(if l != r { 1 } else { 0 }),
        BinOp::Lt => Some(if l < r { 1 } else { 0 }),
        BinOp::Le => Some(if l <= r { 1 } else { 0 }),
        BinOp::Gt => Some(if l > r { 1 } else { 0 }),
        BinOp::Ge => Some(if l >= r { 1 } else { 0 }),
    };
    match checked {
        Some(v) => Ok(v),
        None => Err(RuntimeError::Overflow),
    }
}

} // verus!

verus! {

/// How an exec result stands to the error part of a spec outcome.
pub open spec fn fault_matches<T>(r: Result<T, RuntimeError>, s: Result<nat, RuntimeErrorV>) -> bool {
    match s {
        Ok(_) => r is Ok,
        Err(x) => r is Err && r->Err_0@ == x,
    }
}

pub open spec fn steps_match(r: Result<u64, RuntimeError>, s: Result<nat, RuntimeErrorV>) -> bool {
    match s {
        Ok(f) => r is Ok && r->Ok_0 as nat == f,
        Err(x) => r is Err && r->Err_0@ == x,
    }
}

impl Interpreter {
    fn eval(&self, expr: &Expr) -> (r: Result<i64, RuntimeError>)
        ensures
            match eval_expr(expr@, self.state().env) {
                Ok(v) => r == Ok::<i64, RuntimeError>(v),
                Err(x) => r is Err && r->Err_0@ == x,
            },
        decreases expr,
    {
        match expr {
            Expr::Number(n) => Ok(*n),
            Expr::Identifier(name) => match self.find(name) {
                Some(i) => {
                    proof {
                        lemma_bindings_found(self.env@, i as int, name@);
                    }
                    Ok(self.env[i].1)
                },
                None => {
                    proof {
                        lemma_bindings_absent(self.env@, name@);
                    }
                    Err(RuntimeError::UndefinedVariable { name: name.clone() })
                },
            },
            Expr::BinaryOp { left, op, right } => {
                let l = match self.eval(left) {
                    Ok(v) => v,
                    Err(x) => {
                        return Err(x);
                    },
                };
                let r = match self.eval(right) {
                    Ok(v) => v,
                    Err(x) => {
                        return Err(x);
                    },
                };
                apply(*op, l, r)
            },
        }
    }

    fn exec_stmt(&mut self, stmt: &Stmt, fuel: u64) -> (r: Result<u64, RuntimeError>)
        ensures
            final(self).state() == run_stmt(stmt@, old(self).state(), fuel as nat).0,
            steps_match(r, run_stmt(stmt@, old(self).state(), fuel as nat).1),
            r is Ok ==> r->Ok_0 <= fuel,
        decreases fuel, stmt,
    {
        match stmt {
            Stmt::Let { name, expr } => {
                let v = match self.eval(expr) {
                    Ok(v) => v,
                    Err(x) => {
                        return Err(x);
                    },
                };
                self.bind(name.clone(), v);
                Ok(fuel)
            },
            Stmt::Print { expr } => {
                let v = match self.eval(expr) {
                    Ok(v) => v,
                    Err(x) => {
                        return Err(x);
                    },
                };
                self.output.push(v);
                Ok(fuel)
            },
            Stmt::If { condition, then_branch, else_branch } => {
                let c = match self.eval(condition) {
                    Ok(v) => v,
                    Err(x) => {
                        return Err(x);
                    },
                };
                if c != 0 {
                    self.exec_block(then_branch, fuel)
                } else {
                    self.exec_block(else_branch, fuel)
                }
            },
            Stmt::While { condition, body } => {
                let ghost st0 = self.state();
                let mut f = fuel;
                loop
                    invariant
                        f <= fuel,
                        run_stmt(stmt@, st0, fuel as nat) == run_stmt(stmt@, self.state(), f as nat),
                        st0 == old(self).state(),
                        stmt@ == (StmtV::While { condition: condition@, body: stmts_view(body@) }),
                    decreases f,
                {
                    let c = match self.eval(condition) {
                        Ok(v) => v,
                        Err(x) => {
                            return Err(x);
                        },
                    };
                    if c == 0 {
                        return Ok(f);
                    }
                    if f == 0 {
                        return Err(RuntimeError::StepLimit);
                    }
                    match self.exec_block(body, f - 1) {
                        Ok(f2) => {
                            f = f2;
                        },
                        Err(x) => {
                            return Err(x);
                        },
                    }
                }
            },
        }
    }

    fn exec_block(&mut self, stmts: &Vec<Stmt>, fuel: u64) -> (r: Result<u64, RuntimeError>)
        ensures
            final(self).state() == run_block(stmts_view(stmts@), old(self).state(), fuel as nat).0,
            steps_match(r, run_block(stmts_view(stmts@), old(self).state(), fuel as nat).1),
            r is Ok ==> r->Ok_0 <= fuel,
        decreases fuel, stmts,
    {
        let ghost vs = stmts_view(stmts@);
        let ghost st0 = self.state();
        proof {
            lemma_stmts_view_index(stmts@);
            assert(vs.subrange(0, vs.len() as int) =~= vs);
        }
        let n = stmts.len();
        let mut i: usize = 0;
        let mut f = fuel;
        while i < n
            invariant
                n == stmts.len(),
                vs == stmts_view(stmts@),
                vs.len() == n,
                forall|k: int| 0 <= k < n ==> #[trigger] vs[k] == stmt_view(stmts@[k]),
                i <= n,
                f <= fuel,
                st0 == old(self).state(),
                run_block(vs, st0, fuel as nat) == run_block(vs.subrange(i as int, n as int), self.state(), f as nat),
            decreases n - i,
        {
            let ghost rest = vs.subrange(i as int, n as int);
            assert(rest[0] == vs[i as int]);
            assert(rest.drop_first() =~= vs.subrange(i + 1, n as int));
            let ghost pre = self.state();
            let ghost f_pre = f;
            assert(run_block(rest, pre, f_pre as nat) == match run_stmt(rest[0], pre, f_pre as nat).1 {
                Ok(f1) => if f1 <= f_pre { run_block(rest.drop_first(), run_stmt(rest[0], pre, f_pre as nat).0, f1) }
                    else { (run_stmt(rest[0], pre, f_pre as nat).0, Ok(f1)) },
                Err(x) => (run_stmt(rest[0], pre, f_pre as nat).0, Err(x)),
            });
            match self.exec_stmt(&stmts[i], f) {
                Ok(f2) => {
                    f = f2;
                },
                Err(x) => {
                    return Err(x);
                },
            }
            i += 1;
        }
        Ok(f)
    }

    /// Runs one statement against the store, printed values going to the output.
    pub fn exec(&mut self, stmt: Stmt) -> (r: Result<(), RuntimeError>)
        ensures
            final(self).state() == run_stmt(stmt@, old(self).state(), STEP_LIMIT as nat).0,
            fault_matches(r, run_stmt(stmt@, old(self).state(), STEP_LIMIT as nat).1),
    {
        match self.exec_stmt(&stmt, STEP_LIMIT) {
            Ok(_) => Ok(()),
            Err(x) => Err(x),
        }
    }

    /// Runs the statements of a program in order; the first fault stops the run.
    pub fn exec_program(&mut self, program: Vec<Stmt>) -> (r: Result<(), RuntimeError>)
        ensures
            final(self).state() == run_block(stmts_view(program@), old(self).state(), STEP_LIMIT as nat).0,
            fault_matches(r, run_block(stmts_view(program@), old(self).state(), STEP_LIMIT as nat).1),
    {
        match self.exec_block(&program, STEP_LIMIT) {
            Ok(_) => Ok(()),
            Err(x) => Err(x),
        }
    }
}

} // verus!

verus! {

/// Running a statement leaves at most the iterations it was given.
pub proof fn lemma_run_stmt_fuel(s: StmtV, st: RunState, fuel: nat)
    ensures
        run_stmt(s, st, fuel).1 matches Ok(f) ==> f <= fuel,
    decreases fuel, s,
{
    match s {
        StmtV::If { condition, then_branch, else_branch } => {
            lemma_run_block_fuel(then_branch, st, fuel);
            lemma_run_block_fuel(else_branch, st, fuel);
        },
        StmtV::While { condition, body } => {
            if fuel > 0 {
                lemma_run_block_fuel(body, st, (fuel - 1) as nat);
                let (st2, r) = run_block(body, st, (fuel - 1) as nat);
                if let Ok(f) = r {
                    if f < fuel {
                        lemma_run_stmt_fuel(s, st2, f);
                    }
                }
            }
        },
        _ => {},
    }
}

/// Running a block leaves at most the iterations it was given.
pub proof fn lemma_run_block_fuel(ss: Seq<StmtV>, st: RunState, fuel: nat)
    ensures
        run_block(ss, st, fuel).1 matches Ok(f) ==> f <= fuel,
    decreases fuel, ss,
{
    if ss.len() > 0 {
        lemma_run_stmt_fuel(ss[0], st, fuel);
        let (st1, r) = run_stmt(ss[0], st, fuel);
        if let Ok(f) = r {
            if f <= fuel {
                lemma_run_block_fuel(ss.drop_first(), st1, f);
            }
        }
    }
}

} // verus!
