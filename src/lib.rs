use vstd::prelude::*;

pub mod token;
pub mod lexer;
pub mod ast;
pub mod parser;
pub mod interpreter;

use crate::interpreter::{Interpreter, RunState, RuntimeError, RuntimeErrorV, STEP_LIMIT, run_block};
use crate::lexer::{tokenize, tokens_from};
use crate::parser::{ParseError, ParseErrorV, Parser, parse_program_at};

verus! {

/// Why a run of a source text stopped.
#[derive(Debug)]
pub enum SourceError {
    Parse(ParseError),
    Runtime(RuntimeError),
}

pub enum SourceErrorV {
    Parse(ParseErrorV),
    Runtime(RuntimeErrorV),
}

impl View for SourceError {
    type V = SourceErrorV;

    open spec fn view(&self) -> SourceErrorV {
        match self {
            SourceError::Parse(e) => SourceErrorV::Parse(e@),
            SourceError::Runtime(e) => SourceErrorV::Runtime(e@),
        }
    }
}

/// What running a source text does: the values printed, in order, and the
/// error that stopped the run, if one did. A parse error stops it before
/// anything runs.
pub open spec fn source_outcome(src: Seq<char>) -> (Seq<i64>, Option<SourceErrorV>) {
    match parse_program_at(tokens_from(src, 0), 0) {
        Err(x) => (Seq::empty(), Some(SourceErrorV::Parse(x))),
        Ok(program) => {
            let (st, r) = run_block(
                program,
                RunState { env: Map::empty(), out: Seq::empty() },
                STEP_LIMIT as nat,
            );
            match r {
                Ok(_) => (st.out, None),
                Err(x) => (st.out, Some(SourceErrorV::Runtime(x))),
            }
        },
    }
}

/// Lexes, parses and runs a source text with a fresh lexer, parser and
/// interpreter.
pub fn run_source(src: &str) -> (r: (Vec<i64>, Option<SourceError>))
    ensures
        r.0@ == source_outcome(src@).0,
        match source_outcome(src@).1 {
            Some(e) => r.1 is Some && r.1->Some_0@ == e,
            None => r.1 is None,
        },
{
    let tokens = tokenize(src);
    let mut parser = Parser::new(tokens);
    let program = match parser.parse_program() {
        Ok(p) => p,
        Err(x) => {
            return (Vec::new(), Some(SourceError::Parse(x)));
        },
    };
    let mut interpreter = Interpreter::new();
    let result = interpreter.exec_program(program);
    let output = interpreter.output().clone();
    match result {
        Ok(()) => (output, None),
        Err(x) => (output, Some(SourceError::Runtime(x))),
    }
}

/// Running the same source text again, through a fresh lexer, parser and
/// interpreter, prints the same values and stops with the same error.
pub proof fn lemma_run_deterministic(a: Seq<char>, b: Seq<char>)
    requires
        a == b,
    ensures
        source_outcome(a) == source_outcome(b),
{
}

} // verus!
