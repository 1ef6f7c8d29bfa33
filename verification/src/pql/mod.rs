//! PQL, the ledger's query language: a small SQL-like language over facts.
pub mod token;
pub mod lexer;
pub mod ast;
pub mod parser;
pub mod numeric;
pub mod eval;

use vstd::prelude::*;

use crate::error::Error;
use crate::fact::{BranchName, Fact};
use crate::merge::fv;
use ast::{Query, QueryView};
use crate::keyed::names_view;
use eval::{row_view, spec_eval_paged, Cell, Evaluator};
use lexer::{spec_tokenize, Lexer};
use parser::{spec_parse_query, Parser};

verus! {

/// The query a text spells, or the message of the first lexical or syntax
/// error.
pub open spec fn spec_parse(s: Seq<char>) -> Result<QueryView, Seq<char>> {
    match spec_tokenize(s) {
        Err(m) => Err(m),
        Ok(ts) => spec_parse_query(ts),
    }
}

/// Parses a PQL query; errors are `Error::Query` with their message.
pub fn parse(input: &str) -> (r: Result<Query, Error>)
    ensures
        match spec_parse(input@) {
            Ok(q) => r matches Ok(x) && x@ == q,
            Err(m) => r matches Err(Error::Query(x)) && x@ == m,
        },
{
    let tokens = match Lexer::new(input).tokenize() {
        Ok(t) => t,
        Err(e) => {
            return Err(e);
        },
    };
    Parser::new(tokens).parse()
}

/// Parses `input` and evaluates it over `facts` (taken as they are, not as
/// a paged scan) on `branch`, given the
/// values of the query's float literals (each literal's text with the bits
/// of the binary64 number it denotes; see `eval::float_literals`). A syntax
/// error or an unknown column is `Error::Query` with its message.
pub fn run(input: &str, branch: BranchName, facts: Vec<Fact>, floats: Vec<(String, u64)>) -> (r: Result<
    Vec<Vec<(String, Cell)>>,
    Error,
>)
    ensures
        match spec_parse(input@) {
            Err(m) => r matches Err(Error::Query(x)) && x@ == m,
            Ok(q) => match spec_eval_paged(q, fv(facts@), names_view(floats@), true) {
                Ok(rows) => r matches Ok(v) && v@.map_values(|x: Vec<(String, Cell)>| row_view(x@))
                    == rows,
                Err(m) => r matches Err(Error::Query(x)) && x@ == m,
            },
        },
{
    let query = match parse(input) {
        Ok(q) => q,
        Err(e) => {
            return Err(e);
        },
    };
    Evaluator::new(&query, branch, floats).eval_all(facts)
}

} // verus!
