//! Evaluation of a syntax tree into pages of output.

use vstd::prelude::*;
use crate::interpreter::error::{ErrorView, InterpreterError};
use crate::interpreter::eval::{after_nodes, eval_nodes};
use crate::interpreter::pages::{lemma_nodes_keep_paths_unique, unique_paths};
use crate::interpreter::program::{pages_view, Page, PageView};
use crate::interpreter::state::{State, StateView};
use crate::parser::models::{nodes_view, Node, NodeView};

pub mod assoc;
pub mod builtins;
pub mod error;
pub mod eval;
pub mod html;
pub mod laws;
pub mod models;
pub mod order;
pub mod pages;
pub mod program;
pub mod state;
pub mod util;
pub mod values;

verus! {

/// The pages that evaluating `nodes` from the state `st` gives: those of
/// the state after the last statement.
pub open spec fn spec_run(nodes: Seq<NodeView>, st: StateView) -> Result<Seq<PageView>, ErrorView> {
    match after_nodes(nodes, st) {
        Ok(after) => Ok(after.pages),
        Err((e, _)) => Err(e),
    }
}

/// Evaluates a syntax tree, and returns the pages it writes, in the order
/// in which they are started. The statements at the top level are evaluated
/// in order in one scope, which starts as that of `state`. The first error
/// ends the evaluation. The pages are a mapping: where no two pages of
/// `state` stand at one path, no two of the pages returned do.
pub fn run(nodes: &Vec<Node>, state: State) -> (r: Result<Vec<Page>, InterpreterError>)
    ensures
        match r {
            Ok(pages) => spec_run(nodes_view(nodes@), state@) == Ok::<Seq<PageView>, ErrorView>(
                pages_view(pages@),
            ),
            Err(e) => spec_run(nodes_view(nodes@), state@) == Err::<Seq<PageView>, ErrorView>(e@),
        },
        unique_paths(state@.pages) ==> (r matches Ok(pages) ==> unique_paths(pages_view(pages@))),
{
    proof {
        if unique_paths(state@.pages) {
            lemma_nodes_keep_paths_unique(nodes_view(nodes@), state@);
        }
    }
    let mut state = state;
    match eval_nodes(nodes, &mut state) {
        Ok(_) => Ok(state.into_pages()),
        Err(e) => Err(e),
    }
}

} // verus!
