//! Parsing of template source into a tree of statements.

use vstd::prelude::*;
use vstd::string::StrSliceExecFns;
use crate::parser::error::{ParserError, ParserErrorView};
use crate::parser::linesplit::{lines_view, spec_take_lines, take_lines, Line, LineView};
use crate::parser::models::{lemma_node_view, nodes_view, Node, NodeView};
use crate::parser::span::{Span, SpanView};
use crate::parser::statement::{spec_statement, statement};

pub mod chars;
pub mod element;
pub mod error;
pub mod expression;
pub mod linesplit;
pub mod models;
pub mod span;
pub mod statement;
pub mod text;
pub mod variable;

verus! {

/// The node of a line: the statement that its content holds, and the nodes
/// of the lines under it. The error is that of the first line, in the
/// order of the source, that holds no statement: a syntax error found at
/// its content.
pub open spec fn spec_parse_line(line: LineView) -> Result<NodeView, ParserErrorView>
    decreases line,
{
    match spec_statement(line.content) {
        Some(statement) => match spec_parse_lines(line.children) {
            Ok(children) => Ok(NodeView { statement, children }),
            Err(e) => Err(e),
        },
        None => Err(ParserErrorView::syntax(line.content)),
    }
}

/// The nodes of a forest of lines, in order.
pub open spec fn spec_parse_lines(lines: Seq<LineView>) -> Result<Seq<NodeView>, ParserErrorView>
    decreases lines,
{
    if lines.len() == 0 {
        Ok(Seq::empty())
    } else {
        match spec_parse_line(lines[0]) {
            Ok(node) => match spec_parse_lines(lines.drop_first()) {
                Ok(more) => Ok(seq![node] + more),
                Err(e) => Err(e),
            },
            Err(e) => Err(e),
        }
    }
}

/// The syntax tree of a source text: its lines, nested by indentation, each
/// parsed as one statement.
pub open spec fn spec_run(source: Seq<char>) -> Result<Seq<NodeView>, ParserErrorView> {
    match spec_take_lines(SpanView::start(source, Seq::empty())) {
        Ok(lines) => spec_parse_lines(lines),
        Err(e) => Err(e),
    }
}

/// Parses a line and the lines under it.
pub fn parse_line(line: &Line) -> (r: Result<Node, ParserError<Span>>)
    ensures
        match r {
            Ok(node) => spec_parse_line(line@) == Ok::<NodeView, ParserErrorView>(node@),
            Err(e) => spec_parse_line(line@) == Err::<NodeView, ParserErrorView>(e@),
        },
    decreases line,
{
    let (_, statement) = match statement(line.content.clone()) {
        Ok(r) => r,
        Err(e) => {
            return Err(e);
        },
    };
    proof {
        assert(line@.children =~= lines_view(line.children@));
    }
    match parse_lines(&line.children) {
        Ok(children) => {
            let node = Node { statement, children };
            proof {
                lemma_node_view(node);
            }
            Ok(node)
        },
        Err(e) => Err(e),
    }
}

/// Parses a forest of lines.
pub fn parse_lines(lines: &Vec<Line>) -> (r: Result<Vec<Node>, ParserError<Span>>)
    ensures
        match r {
            Ok(nodes) => spec_parse_lines(lines_view(lines@)) == Ok::<
                Seq<NodeView>,
                ParserErrorView,
            >(nodes_view(nodes@)),
            Err(e) => spec_parse_lines(lines_view(lines@)) == Err::<
                Seq<NodeView>,
                ParserErrorView,
            >(e@),
        },
    decreases lines,
{
    let mut nodes: Vec<Node> = Vec::new();
    let mut k: usize = 0;
    let ghost all = lines_view(lines@);
    proof {
        assert(all.subrange(0, all.len() as int) =~= all);
        assert(nodes_view(nodes@) =~= Seq::empty());
    }
    while k < lines.len()
        invariant
            k <= lines.len(),
            all == lines_view(lines@),
            spec_parse_lines(all) == match spec_parse_lines(all.subrange(k as int, all.len() as int)) {
                Ok(more) => Ok::<Seq<NodeView>, ParserErrorView>(nodes_view(nodes@) + more),
                Err(e) => Err(e),
            },
        decreases lines.len() - k,
    {
        let ghost tail = all.subrange(k as int, all.len() as int);
        proof {
            assert(tail[0] == lines@[k as int]@);
            assert(tail.drop_first() =~= all.subrange(k as int + 1, all.len() as int));
        }
        let node = match parse_line(&lines[k]) {
            Ok(node) => node,
            Err(e) => {
                return Err(e);
            },
        };
        proof {
            assert(nodes_view(nodes@.push(node)) =~= nodes_view(nodes@) + seq![node@]);
            if let Ok(more) = spec_parse_lines(tail.drop_first()) {
                assert((nodes_view(nodes@) + seq![node@]) + more =~= nodes_view(nodes@) + (seq![
                    node@,
                ] + more));
            }
        }
        nodes.push(node);
        k = k + 1;
    }
    proof {
        assert(all.subrange(k as int, all.len() as int) =~= Seq::empty());
        assert(nodes_view(nodes@) + Seq::<NodeView>::empty() =~= nodes_view(nodes@));
    }
    Ok(nodes)
}

/// Parses a source text into its syntax tree: the top-level statements in
/// order, each with the statements nested under it.
pub fn run(i: &str) -> (r: Result<Vec<Node>, ParserError<Span>>)
    requires
        4 * i@.len() < usize::MAX,
    ensures
        match r {
            Ok(nodes) => spec_run(i@) == Ok::<Seq<NodeView>, ParserErrorView>(nodes_view(nodes@)),
            Err(e) => spec_run(i@) == Err::<Seq<NodeView>, ParserErrorView>(e@),
        },
{
    match take_lines(i) {
        Ok((_, lines)) => parse_lines(&lines),
        Err(e) => Err(e),
    }
}

/// Whether a source of `n` characters fits: four times its length is a
/// number of the machine.
pub open spec fn fits(n: nat) -> bool {
    4 * n < usize::MAX
}

/// Parses a source text of any length: `None` where the source does not
/// fit, else what `run` returns.
pub fn parse(i: &str) -> (r: Option<Result<Vec<Node>, ParserError<Span>>>)
    ensures
        match r {
            Some(Ok(nodes)) => fits(i@.len()) && spec_run(i@) == Ok::<
                Seq<NodeView>,
                ParserErrorView,
            >(nodes_view(nodes@)),
            Some(Err(e)) => fits(i@.len()) && spec_run(i@) == Err::<Seq<NodeView>, ParserErrorView>(
                e@,
            ),
            None => !fits(i@.len()),
        },
{
    if i.unicode_len() <= (usize::MAX - 1) / 4 {
        Some(run(i))
    } else {
        None
    }
}

} // verus!
