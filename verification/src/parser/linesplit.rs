//! Splitting source text into lines, nested by their indentation.

use vstd::prelude::*;
use crate::parser::chars::{from_chars, lemma_run_end_bounds, run_end, scan, to_chars, CharClass};
use crate::parser::error::{ParserError, ParserErrorView};
use crate::parser::span::{Span, SpanView};

verus! {

/// A line of source without its indentation, and under it the lines that
/// follow it with a deeper indentation.
#[derive(Debug)]
pub struct Line {
    pub content: Span,
    pub children: Vec<Line>,
}

pub struct LineView {
    pub content: SpanView,
    pub children: Seq<LineView>,
}

impl Line {
    pub open spec fn model(self) -> LineView
        decreases self,
    {
        LineView {
            content: self.content@,
            children: Seq::new(
                self.children@.len(),
                |k: int|
                    if 0 <= k < self.children@.len() {
                        self.children@[k].model()
                    } else {
                        arbitrary()
                    },
            ),
        }
    }
}

impl View for Line {
    type V = LineView;

    open spec fn view(&self) -> LineView {
        self.model()
    }
}

/// What a vector of lines stands for.
pub open spec fn lines_view(lines: Seq<Line>) -> Seq<LineView> {
    Seq::new(lines.len(), |k: int| lines[k]@)
}

/// Where the content of the line that starts at `from` starts: behind its
/// indentation.
pub open spec fn content_start(s: Seq<char>, from: int) -> int {
    run_end(s, CharClass::Blank, from)
}

/// Where the line that starts at `from` ends: at its line feed, or at the
/// end of `s`.
pub open spec fn line_end(s: Seq<char>, from: int) -> int {
    run_end(s, CharClass::NotNewline, from)
}

/// Where the line after the one that starts at `from` starts.
pub open spec fn next_line(s: Seq<char>, from: int) -> int {
    line_end(s, from) + 1
}

/// The indentation of the line that starts at `from`: the number of spaces
/// and tabs before its content, each counting one.
pub open spec fn indent_at(s: Seq<char>, from: int) -> int {
    content_start(s, from) - from
}

/// The content of the line that starts at `from`, at its place in the
/// source, with the text of the whole line attached.
pub open spec fn content_at(i: SpanView, from: int) -> SpanView {
    i.slice(content_start(i.fragment, from), line_end(i.fragment, from)).with_extra(
        i.fragment.subrange(from, line_end(i.fragment, from)),
    )
}

/// Whether every line of `s` ends in a line feed.
pub open spec fn terminated(s: Seq<char>) -> bool {
    s.len() == 0 || s.last() == '\n'
}

/// Where the last line of `s` at or after `from` starts.
pub open spec fn last_line_start(s: Seq<char>, from: int) -> int
    decreases s.len() + 1 - from,
{
    if 0 <= from && line_end(s, from) < s.len() {
        proof {
            lemma_run_end_bounds(s, CharClass::NotNewline, from);
        }
        last_line_start(s, next_line(s, from))
    } else {
        from
    }
}

/// Where the lines end that start at `from` and are indented by more than
/// `indent`: at the first line that is not, or at the end of `s`.
pub open spec fn block_end(s: Seq<char>, from: int, indent: int) -> int
    decreases s.len() + 1 - from,
{
    if 0 <= from < s.len() && indent_at(s, from) > indent {
        proof {
            lemma_run_end_bounds(s, CharClass::NotNewline, from);
        }
        block_end(s, next_line(s, from), indent)
    } else {
        from
    }
}

/// Where the line that starts at `from` and all lines nested under it end.
pub open spec fn tree_end(s: Seq<char>, from: int) -> int {
    block_end(s, next_line(s, from), indent_at(s, from))
}

/// A block of lines ends at or behind where it starts, and inside the text.
pub proof fn lemma_block_end_bounds(s: Seq<char>, from: int, indent: int)
    requires
        0 <= from <= s.len(),
        terminated(s),
    ensures
        from <= block_end(s, from, indent) <= s.len(),
    decreases s.len() + 1 - from,
{
    if from < s.len() && indent_at(s, from) > indent {
        lemma_line_terminated(s, from);
        lemma_block_end_bounds(s, next_line(s, from), indent);
    }
}

/// In a text whose lines all end in a line feed, a line that starts inside
/// the text ends inside it.
pub proof fn lemma_line_terminated(s: Seq<char>, from: int)
    requires
        0 <= from < s.len(),
        terminated(s),
    ensures
        from <= content_start(s, from) <= line_end(s, from) < s.len(),
        s[line_end(s, from)] == '\n',
{
    lemma_run_end_bounds(s, CharClass::NotNewline, from);
    lemma_run_end_bounds(s, CharClass::Blank, from);
    let e = line_end(s, from);
    let c = content_start(s, from);
    if e == s.len() {
        assert(CharClass::NotNewline.holds(s[s.len() - 1]));
    }
    if c > e {
        assert(CharClass::Blank.holds(s[e]));
    }
}

/// The line that starts at `from`, with the lines nested under it.
pub open spec fn spec_tree(i: SpanView, from: int) -> LineView
    decreases i.fragment.len() + 1 - from, 0int,
{
    let s = i.fragment;
    if 0 <= from < s.len() {
        proof {
            lemma_run_end_bounds(s, CharClass::NotNewline, from);
        }
        LineView {
            content: content_at(i, from),
            children: spec_forest(i, next_line(s, from), indent_at(s, from)),
        }
    } else {
        LineView { content: content_at(i, from), children: Seq::empty() }
    }
}

/// The lines from `from` on that are indented by more than `indent`, each
/// with the lines nested under it.
pub open spec fn spec_forest(i: SpanView, from: int, indent: int) -> Seq<LineView>
    decreases i.fragment.len() + 1 - from, 1int,
{
    let s = i.fragment;
    if 0 <= from < s.len() && indent_at(s, from) > indent {
        proof {
            lemma_tree_end_after(s, from);
        }
        seq![spec_tree(i, from)] + spec_forest(i, tree_end(s, from), indent)
    } else {
        Seq::empty()
    }
}

/// A line with the lines under it ends behind where it starts.
pub proof fn lemma_tree_end_after(s: Seq<char>, from: int)
    requires
        0 <= from < s.len(),
    ensures
        from < tree_end(s, from) <= s.len() + 1,
{
    lemma_run_end_bounds(s, CharClass::NotNewline, from);
    lemma_block_end_ge(s, next_line(s, from), indent_at(s, from));
}

/// A block of lines ends at or behind where it starts, and no further
/// than one index behind the text.
pub proof fn lemma_block_end_ge(s: Seq<char>, from: int, indent: int)
    ensures
        from <= block_end(s, from, indent),
        from <= s.len() + 1 ==> block_end(s, from, indent) <= s.len() + 1,
    decreases s.len() + 1 - from,
{
    if 0 <= from < s.len() && indent_at(s, from) > indent {
        lemma_run_end_bounds(s, CharClass::NotNewline, from);
        lemma_block_end_ge(s, next_line(s, from), indent);
    }
}

/// The lines at the top level from `from` on: the line that starts at
/// `from` with the lines under it, then the line that ends its block, which
/// is indented by no more than it, and so on to the end.
pub open spec fn spec_top(i: SpanView, from: int) -> Seq<LineView>
    decreases i.fragment.len() + 1 - from,
{
    let s = i.fragment;
    if 0 <= from < s.len() {
        proof {
            lemma_tree_end_after(s, from);
        }
        seq![spec_tree(i, from)] + spec_top(i, tree_end(s, from))
    } else {
        Seq::empty()
    }
}

/// The tree of lines of a source text. Every source whose lines all end in
/// a line feed has one. A last line without a line feed is an error, found
/// at that line.
pub open spec fn spec_take_lines(i: SpanView) -> Result<Seq<LineView>, ParserErrorView> {
    let s = i.fragment;
    if !terminated(s) {
        Err(ParserErrorView::syntax(i.rest(last_line_start(s, 0))))
    } else {
        Ok(spec_top(i, 0))
    }
}

/// The number of spaces and tabs at the start of `i`.
pub fn indentation_level(i: &str) -> (r: (String, usize))
    ensures
        r.1 == indent_at(i@, 0),
        r.0@ == i@.subrange(r.1 as int, i@.len() as int),
{
    let chars = to_chars(i);
    let n = scan(&chars, CharClass::Blank, 0);
    (from_chars(&chars, n, chars.len()), n)
}

/// The indentation of the first line of `i`.
pub fn line_indent(i: &str) -> (n: usize)
    ensures
        n == indent_at(i@, 0),
{
    indentation_level(i).1
}

/// Whether every line of `i` ends in a line feed.
pub fn is_terminated(i: &Span) -> (b: bool)
    ensures
        b == terminated(i@.fragment),
{
    let n = i.len();
    n == 0 || i.char_at(n - 1) == '\n'
}

/// Reads the line that starts at `from`: its indentation, its content, and
/// where the next line starts. There is none where `from` is not inside the
/// text, or where a line of the text does not end in a line feed.
pub fn line(i: &Span, from: usize) -> (r: Option<(usize, Span, usize)>)
    ensures
        match r {
            Some(x) => {
                &&& from < i@.fragment.len()
                &&& terminated(i@.fragment)
                &&& x.0 == indent_at(i@.fragment, from as int)
                &&& x.1@ == content_at(i@, from as int)
                &&& x.2 == next_line(i@.fragment, from as int)
            },
            None => !(from < i@.fragment.len() && terminated(i@.fragment)),
        },
{
    if from < i.len() && is_terminated(i) {
        Some(line_at(i, from))
    } else {
        None
    }
}

/// Reads the line that starts at `from` and, as its children, the lines
/// that follow it for as long as each is indented by more than it. There is
/// none where `from` is not inside the text, or where a line of the text
/// does not end in a line feed.
pub fn take_children(i: &Span, from: usize) -> (r: Option<(Line, usize)>)
    ensures
        match r {
            Some(x) => {
                &&& from < i@.fragment.len()
                &&& terminated(i@.fragment)
                &&& x.0@ == spec_tree(i@, from as int)
                &&& x.1 == tree_end(i@.fragment, from as int)
            },
            None => !(from < i@.fragment.len() && terminated(i@.fragment)),
        },
{
    if from < i.len() && is_terminated(i) {
        Some(take_children_at(i, from))
    } else {
        None
    }
}

/// As `line`, for a start inside a text whose lines all end in a line
/// feed.
pub fn line_at(i: &Span, from: usize) -> (r: (usize, Span, usize))
    requires
        from < i@.fragment.len(),
        terminated(i@.fragment),
    ensures
        r.0 == indent_at(i@.fragment, from as int),
        r.1@ == content_at(i@, from as int),
        r.2 == next_line(i@.fragment, from as int),
        from < r.2 <= i@.fragment.len(),
{
    proof {
        lemma_line_terminated(i@.fragment, from as int);
    }
    let start = scan(i.chars(), CharClass::Blank, from);
    let end = scan(i.chars(), CharClass::NotNewline, from);
    let whole = from_chars(i.chars(), from, end);
    let content = i.slice(start, end).with_extra(whole.as_str());
    (start - from, content, end + 1)
}

/// As `take_children`, for a start inside a text whose lines all end in a
/// line feed.
pub fn take_children_at(i: &Span, from: usize) -> (r: (Line, usize))
    requires
        from < i@.fragment.len(),
        terminated(i@.fragment),
    ensures
        r.0@ == spec_tree(i@, from as int),
        r.1 == tree_end(i@.fragment, from as int),
        from < r.1 <= i@.fragment.len(),
    decreases i@.fragment.len() - from,
{
    let (indent, content, next) = line_at(i, from);
    let mut children: Vec<Line> = Vec::new();
    let mut cur = next;
    proof {
        assert(lines_view(children@) =~= Seq::empty());
    }
    while cur < i.len() && scan(i.chars(), CharClass::Blank, cur) - cur > indent
        invariant
            from < cur <= i@.fragment.len(),
            terminated(i@.fragment),
            spec_forest(i@, next as int, indent as int) == lines_view(children@) + spec_forest(
                i@,
                cur as int,
                indent as int,
            ),
            block_end(i@.fragment, next as int, indent as int) == block_end(
                i@.fragment,
                cur as int,
                indent as int,
            ),
        decreases i@.fragment.len() - cur,
    {
        let (child, after) = take_children_at(i, cur);
        proof {
            lemma_block_skip(
                i@.fragment,
                next_line(i@.fragment, cur as int),
                indent_at(i@.fragment, cur as int),
                indent as int,
            );
            assert(lines_view(children@.push(child)) =~= lines_view(children@) + seq![child@]);
        }
        children.push(child);
        cur = after;
    }
    let line = Line { content, children };
    proof {
        assert(line@.children =~= lines_view(children@));
    }
    (line, cur)
}

/// Skipping the lines that are indented by more than `inner` and then those
/// indented by more than `outer` is skipping those indented by more than
/// `outer`, where `outer` is no more than `inner`.
pub proof fn lemma_block_skip(s: Seq<char>, from: int, inner: int, outer: int)
    requires
        outer <= inner,
    ensures
        block_end(s, from, outer) == block_end(s, block_end(s, from, inner), outer),
    decreases s.len() + 1 - from,
{
    if 0 <= from < s.len() && indent_at(s, from) > inner {
        lemma_run_end_bounds(s, CharClass::NotNewline, from);
        lemma_block_skip(s, next_line(s, from), inner, outer);
    }
}

/// Splits a source text into its lines, nested by indentation.
///
/// Each line is cut into its indentation, a run of spaces and tabs that each
/// count one, and its content, up to the line feed. A line is followed, as
/// its children, by the lines after it for as long as each is indented by
/// more than it; the line that ends them is taken up by the level above, at
/// the top as the next line of the top level. Every line must end in a line
/// feed: that is the one error.
pub fn take_lines(i: &str) -> (r: Result<(Span, Vec<Line>), ParserError<Span>>)
    requires
        4 * i@.len() < usize::MAX,
    ensures
        match r {
            Ok((rest, lines)) => {
                &&& spec_take_lines(SpanView::start(i@, Seq::empty())) == Ok::<
                    Seq<LineView>,
                    ParserErrorView,
                >(lines_view(lines@))
                &&& rest@ == SpanView::start(i@, Seq::empty()).rest(i@.len() as int)
            },
            Err(e) => spec_take_lines(SpanView::start(i@, Seq::empty())) == Err::<
                Seq<LineView>,
                ParserErrorView,
            >(e@),
        },
{
    let span = Span::new(i);
    let n = span.len();
    if !is_terminated(&span) {
        let start = find_last_line(&span);
        return Err(ParserError::syntax(span.rest(start)));
    }
    let mut lines: Vec<Line> = Vec::new();
    let mut cur: usize = 0;
    proof {
        assert(lines_view(lines@) =~= Seq::empty());
    }
    while cur < n
        invariant
            cur <= n == span@.fragment.len(),
            terminated(span@.fragment),
            spec_top(span@, 0) == lines_view(lines@) + spec_top(span@, cur as int),
        decreases n - cur,
    {
        let (tree, after) = take_children_at(&span, cur);
        proof {
            assert(lines_view(lines@.push(tree)) =~= lines_view(lines@) + seq![tree@]);
            assert((lines_view(lines@) + seq![tree@]) + spec_top(span@, after as int)
                =~= lines_view(lines@) + (seq![tree@] + spec_top(span@, after as int)));
        }
        lines.push(tree);
        cur = after;
    }
    proof {
        assert(lines_view(lines@) + Seq::<LineView>::empty() =~= lines_view(lines@));
    }
    Ok((span.rest(n), lines))
}

/// Finds where the last line of `i` starts.
fn find_last_line(i: &Span) -> (r: usize)
    ensures
        r == last_line_start(i@.fragment, 0),
        r <= i@.fragment.len(),
{
    let mut cur: usize = 0;
    loop
        invariant
            cur <= i@.fragment.len(),
            last_line_start(i@.fragment, 0) == last_line_start(i@.fragment, cur as int),
        decreases i@.fragment.len() - cur,
    {
        let end = scan(i.chars(), CharClass::NotNewline, cur);
        if end < i.len() {
            cur = end + 1;
        } else {
            return cur;
        }
    }
}

/// The contents of a line and of the lines nested under it, depth first.
pub open spec fn flatten_line(l: LineView) -> Seq<SpanView>
    decreases l,
{
    seq![l.content] + flatten(l.children)
}

/// The contents of a forest of lines, depth first.
pub open spec fn flatten(ls: Seq<LineView>) -> Seq<SpanView>
    decreases ls,
{
    if ls.len() == 0 {
        Seq::empty()
    } else {
        flatten_line(ls[0]) + flatten(ls.drop_first())
    }
}

/// The contents of the lines of the source that start at `from` or later
/// and before `to`, in the order of the source.
pub open spec fn raw_lines(i: SpanView, from: int, to: int) -> Seq<SpanView>
    decreases i.fragment.len() + 1 - from,
{
    let s = i.fragment;
    if 0 <= from < to && from < s.len() {
        proof {
            lemma_run_end_bounds(s, CharClass::NotNewline, from);
        }
        seq![content_at(i, from)] + raw_lines(i, next_line(s, from), to)
    } else {
        Seq::empty()
    }
}

/// Whether a line starts at `to`, counted from the line that starts at
/// `from`.
pub open spec fn reaches(s: Seq<char>, from: int, to: int) -> bool
    decreases s.len() + 1 - from,
{
    from == to || (0 <= from < to && from < s.len() && {
        proof {
            lemma_run_end_bounds(s, CharClass::NotNewline, from);
        }
        reaches(s, next_line(s, from), to)
    })
}

/// The text that the lines with the contents `spans` came from: each line
/// as it stood, with its line feed.
pub open spec fn join_lines(spans: Seq<SpanView>) -> Seq<char>
    decreases spans.len(),
{
    if spans.len() == 0 {
        Seq::empty()
    } else {
        spans[0].extra + seq!['\n'] + join_lines(spans.drop_first())
    }
}

/// Whether the fragment of `sp` is the attached line without the spaces and
/// tabs at its start.
pub open spec fn well_cut(sp: SpanView) -> bool {
    let n = sp.extra.len() - sp.fragment.len();
    &&& n >= 0
    &&& sp.extra.subrange(n, sp.extra.len() as int) == sp.fragment
    &&& forall|j: int| 0 <= j < n ==> CharClass::Blank.holds(#[trigger] sp.extra[j])
    &&& sp.fragment.len() == 0 || !CharClass::Blank.holds(sp.fragment[0])
}

proof fn lemma_flatten_cons(x: LineView, rest: Seq<LineView>)
    ensures
        flatten(seq![x] + rest) == flatten_line(x) + flatten(rest),
{
    assert((seq![x] + rest).drop_first() =~= rest);
}

proof fn lemma_raw_lines_split(i: SpanView, a: int, b: int, c: int)
    requires
        reaches(i.fragment, a, b),
        b <= c,
    ensures
        raw_lines(i, a, c) == raw_lines(i, a, b) + raw_lines(i, b, c),
    decreases i.fragment.len() + 1 - a,
{
    let s = i.fragment;
    if a == b {
        assert(raw_lines(i, a, a) =~= Seq::empty());
        assert(raw_lines(i, a, b) + raw_lines(i, b, c) =~= raw_lines(i, b, c));
    } else {
        lemma_run_end_bounds(s, CharClass::NotNewline, a);
        lemma_raw_lines_split(i, next_line(s, a), b, c);
        assert(raw_lines(i, a, c) =~= raw_lines(i, a, b) + raw_lines(i, b, c));
    }
}

proof fn lemma_block_reaches(s: Seq<char>, from: int, indent: int)
    requires
        0 <= from <= s.len(),
        terminated(s),
    ensures
        reaches(s, from, block_end(s, from, indent)),
    decreases s.len() + 1 - from,
{
    if from < s.len() && indent_at(s, from) > indent {
        lemma_line_terminated(s, from);
        lemma_block_reaches(s, next_line(s, from), indent);
        lemma_block_end_ge(s, next_line(s, from), indent);
    }
}

proof fn lemma_tree_reaches(s: Seq<char>, from: int)
    requires
        0 <= from < s.len(),
        terminated(s),
    ensures
        reaches(s, from, tree_end(s, from)),
        from < tree_end(s, from) <= s.len(),
{
    lemma_line_terminated(s, from);
    lemma_block_reaches(s, next_line(s, from), indent_at(s, from));
    lemma_block_end_bounds(s, next_line(s, from), indent_at(s, from));
}

proof fn lemma_flatten_tree(i: SpanView, from: int)
    requires
        0 <= from < i.fragment.len(),
        terminated(i.fragment),
    ensures
        flatten_line(spec_tree(i, from)) == raw_lines(i, from, tree_end(i.fragment, from)),
    decreases i.fragment.len() + 1 - from, 0int,
{
    let s = i.fragment;
    lemma_line_terminated(s, from);
    lemma_tree_reaches(s, from);
    lemma_flatten_forest(i, next_line(s, from), indent_at(s, from));
}

proof fn lemma_flatten_forest(i: SpanView, from: int, indent: int)
    requires
        0 <= from <= i.fragment.len(),
        terminated(i.fragment),
    ensures
        flatten(spec_forest(i, from, indent)) == raw_lines(
            i,
            from,
            block_end(i.fragment, from, indent),
        ),
    decreases i.fragment.len() + 1 - from, 1int,
{
    let s = i.fragment;
    if from < s.len() && indent_at(s, from) > indent {
        let end = tree_end(s, from);
        lemma_tree_reaches(s, from);
        lemma_flatten_tree(i, from);
        lemma_flatten_forest(i, end, indent);
        lemma_flatten_cons(spec_tree(i, from), spec_forest(i, end, indent));
        lemma_block_skip(s, next_line(s, from), indent_at(s, from), indent);
        lemma_block_end_ge(s, end, indent);
        lemma_raw_lines_split(i, from, end, block_end(s, end, indent));
    } else {
        assert(raw_lines(i, from, from) =~= Seq::empty());
    }
}

proof fn lemma_flatten_top(i: SpanView, from: int)
    requires
        0 <= from <= i.fragment.len(),
        terminated(i.fragment),
    ensures
        flatten(spec_top(i, from)) == raw_lines(i, from, i.fragment.len() as int),
    decreases i.fragment.len() + 1 - from,
{
    let s = i.fragment;
    if from < s.len() {
        let end = tree_end(s, from);
        lemma_tree_reaches(s, from);
        lemma_flatten_tree(i, from);
        lemma_flatten_top(i, end);
        lemma_flatten_cons(spec_tree(i, from), spec_top(i, end));
        lemma_raw_lines_split(i, from, end, s.len() as int);
    }
}

proof fn lemma_join_raw_lines(i: SpanView, from: int)
    requires
        0 <= from <= i.fragment.len(),
        terminated(i.fragment),
    ensures
        join_lines(raw_lines(i, from, i.fragment.len() as int)) == i.fragment.subrange(
            from,
            i.fragment.len() as int,
        ),
    decreases i.fragment.len() + 1 - from,
{
    let s = i.fragment;
    let n = s.len() as int;
    if from < n {
        lemma_line_terminated(s, from);
        let next = next_line(s, from);
        lemma_join_raw_lines(i, next);
        let lines = raw_lines(i, from, n);
        assert(lines.drop_first() =~= raw_lines(i, next, n));
        assert(s.subrange(from, line_end(s, from)) + seq!['\n'] + s.subrange(next, n) =~= s.subrange(
            from,
            n,
        ));
    } else {
        assert(s.subrange(from, n) =~= Seq::empty());
    }
}

proof fn lemma_raw_lines_well_cut(i: SpanView, from: int, to: int, k: int)
    requires
        0 <= from <= i.fragment.len(),
        terminated(i.fragment),
        0 <= k < raw_lines(i, from, to).len(),
    ensures
        well_cut(raw_lines(i, from, to)[k]),
    decreases i.fragment.len() + 1 - from,
{
    let s = i.fragment;
    lemma_line_terminated(s, from);
    if k == 0 {
        let sp = content_at(i, from);
        let start = content_start(s, from);
        let end = line_end(s, from);
        lemma_run_end_bounds(s, CharClass::Blank, from);
        assert(sp.extra.subrange(start - from, end - from) =~= sp.fragment);
        assert forall|j: int| 0 <= j < start - from implies CharClass::Blank.holds(
            #[trigger] sp.extra[j],
        ) by {
            assert(sp.extra[j] == s[from + j]);
        }
        if sp.fragment.len() > 0 {
            assert(sp.fragment[0] == s[start]);
        }
    } else {
        lemma_raw_lines_well_cut(i, next_line(s, from), to, k - 1);
    }
}

/// Indentation fidelity: where a source splits into a tree of lines, the
/// contents of the tree read depth first are the contents of the lines of
/// the source in their order, each at its place and without its
/// indentation only, and the lines they were cut from, each with its line
/// feed, make up the source again.
pub proof fn lemma_flatten_preserves_lines(i: SpanView)
    requires
        spec_take_lines(i) is Ok,
    ensures
        flatten(spec_take_lines(i)->Ok_0) == raw_lines(i, 0, i.fragment.len() as int),
        join_lines(flatten(spec_take_lines(i)->Ok_0)) == i.fragment,
        forall|k: int|
            0 <= k < flatten(spec_take_lines(i)->Ok_0).len() ==> well_cut(
                #[trigger] flatten(spec_take_lines(i)->Ok_0)[k],
            ),
{
    let s = i.fragment;
    lemma_flatten_top(i, 0);
    lemma_join_raw_lines(i, 0);
    assert(s.subrange(0, s.len() as int) =~= s);
    let flat = flatten(spec_take_lines(i)->Ok_0);
    assert forall|k: int| 0 <= k < flat.len() implies well_cut(#[trigger] flat[k]) by {
        lemma_raw_lines_well_cut(i, 0, s.len() as int, k);
    }
}

/// The indentation of the line that `sp` is the content of: the length of
/// what stands before the content in the line.
pub open spec fn indent_of(sp: SpanView) -> int {
    sp.extra.len() - sp.fragment.len()
}

/// Whether every line of `lines` is indented by more than `indent`, and so
/// on for the lines under each.
pub open spec fn nested_under(lines: Seq<LineView>, indent: int) -> bool
    decreases lines,
{
    lines.len() == 0 || (indent_of(lines[0].content) > indent && nested_under(
        lines[0].children,
        indent_of(lines[0].content),
    ) && nested_under(lines.drop_first(), indent))
}

proof fn lemma_indent_of_content(i: SpanView, from: int)
    requires
        0 <= from < i.fragment.len(),
        terminated(i.fragment),
    ensures
        indent_of(content_at(i, from)) == indent_at(i.fragment, from),
{
    lemma_line_terminated(i.fragment, from);
}

proof fn lemma_forest_nested(i: SpanView, from: int, indent: int)
    requires
        0 <= from <= i.fragment.len(),
        terminated(i.fragment),
    ensures
        nested_under(spec_forest(i, from, indent), indent),
    decreases i.fragment.len() + 1 - from,
{
    let s = i.fragment;
    if from < s.len() && indent_at(s, from) > indent {
        let forest = spec_forest(i, from, indent);
        lemma_tree_reaches(s, from);
        lemma_line_terminated(s, from);
        lemma_indent_of_content(i, from);
        lemma_forest_nested(i, next_line(s, from), indent_at(s, from));
        lemma_forest_nested(i, tree_end(s, from), indent);
        assert(forest[0] == spec_tree(i, from));
        assert(forest.drop_first() =~= spec_forest(i, tree_end(s, from), indent));
    }
}

/// Whether each line of `lines` but the first is indented by no more than
/// the line before it.
pub open spec fn steps_down(lines: Seq<LineView>) -> bool {
    forall|k: int|
        0 <= k < lines.len() - 1 ==> indent_of((#[trigger] lines[k + 1]).content) <= indent_of(
            lines[k].content,
        )
}

/// A block ends at the end of the text or at a line that is indented by no
/// more than the block asks.
proof fn lemma_block_end_stops(s: Seq<char>, from: int, indent: int)
    requires
        0 <= from <= s.len(),
        terminated(s),
    ensures
        block_end(s, from, indent) == s.len() || indent_at(s, block_end(s, from, indent))
            <= indent,
    decreases s.len() + 1 - from,
{
    if from < s.len() && indent_at(s, from) > indent {
        lemma_line_terminated(s, from);
        lemma_block_end_stops(s, next_line(s, from), indent);
    }
}

proof fn lemma_top_nested(i: SpanView, from: int)
    requires
        0 <= from <= i.fragment.len(),
        terminated(i.fragment),
    ensures
        nested_under(spec_top(i, from), -1),
        steps_down(spec_top(i, from)),
        from < i.fragment.len() ==> spec_top(i, from).len() > 0 && spec_top(i, from)[0]
            == spec_tree(i, from),
    decreases i.fragment.len() + 1 - from,
{
    let s = i.fragment;
    if from < s.len() {
        let top = spec_top(i, from);
        let end = tree_end(s, from);
        let rest = spec_top(i, end);
        lemma_tree_reaches(s, from);
        lemma_line_terminated(s, from);
        lemma_indent_of_content(i, from);
        lemma_run_end_bounds(s, CharClass::Blank, from);
        lemma_forest_nested(i, next_line(s, from), indent_at(s, from));
        lemma_top_nested(i, end);
        lemma_block_end_stops(s, next_line(s, from), indent_at(s, from));
        assert(top[0] == spec_tree(i, from));
        assert(top.drop_first() =~= rest);
        assert forall|k: int| 0 <= k < top.len() - 1 implies indent_of(
            (#[trigger] top[k + 1]).content,
        ) <= indent_of(top[k].content) by {
            if k == 0 {
                assert(top[1] == rest[0]);
                lemma_indent_of_content(i, end);
            } else {
                assert(top[k + 1] == rest[k]);
                assert(top[k] == rest[k - 1]);
            }
        }
    }
}

/// Indentation decides nesting: in the tree of lines of a source, every
/// line under another is indented by more than it, and every line at the
/// top but the first is indented by no more than the one before it.
pub proof fn lemma_lines_nest(i: SpanView)
    requires
        spec_take_lines(i) is Ok,
    ensures
        nested_under(spec_take_lines(i)->Ok_0, -1),
        steps_down(spec_take_lines(i)->Ok_0),
{
    lemma_top_nested(i, 0);
}

} // verus!
