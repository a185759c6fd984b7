//! The output of evaluation: pages of instructions.

use vstd::prelude::*;
use vstd::string::StringExecFns;

verus! {

/// One step of output. Each holds the text to write.
#[derive(Debug)]
pub enum ProgramInstruction {
    OpenTag(String),
    CloseTag(String),
    Text(String),
}

pub enum InstructionView {
    OpenTag(Seq<char>),
    CloseTag(Seq<char>),
    Text(Seq<char>),
}

impl View for ProgramInstruction {
    type V = InstructionView;

    open spec fn view(&self) -> InstructionView {
        match self {
            ProgramInstruction::OpenTag(s) => InstructionView::OpenTag(s@),
            ProgramInstruction::CloseTag(s) => InstructionView::CloseTag(s@),
            ProgramInstruction::Text(s) => InstructionView::Text(s@),
        }
    }
}

impl InstructionView {
    /// The text that the instruction writes.
    pub open spec fn text(self) -> Seq<char> {
        match self {
            InstructionView::OpenTag(s) => s,
            InstructionView::CloseTag(s) => s,
            InstructionView::Text(s) => s,
        }
    }
}

impl ProgramInstruction {
    /// The text that the instruction writes.
    pub fn text(&self) -> (r: String)
        ensures
            r@ == self@.text(),
    {
        match self {
            ProgramInstruction::OpenTag(s) => s.clone(),
            ProgramInstruction::CloseTag(s) => s.clone(),
            ProgramInstruction::Text(s) => s.clone(),
        }
    }
}

/// What a vector of instructions stands for.
pub open spec fn program_view(program: Seq<ProgramInstruction>) -> Seq<InstructionView> {
    Seq::new(program.len(), |k: int| program[k]@)
}

/// The output for one path: its instructions in the order of the source.
#[derive(Debug)]
pub struct Page {
    pub path: String,
    pub program: Vec<ProgramInstruction>,
}

pub struct PageView {
    pub path: Seq<char>,
    pub program: Seq<InstructionView>,
}

impl View for Page {
    type V = PageView;

    open spec fn view(&self) -> PageView {
        PageView { path: self.path@, program: program_view(self.program@) }
    }
}

/// What a vector of pages stands for.
pub open spec fn pages_view(pages: Seq<Page>) -> Seq<PageView> {
    Seq::new(pages.len(), |k: int| pages[k]@)
}

/// The pages without those at `path`.
pub open spec fn without_path(pages: Seq<PageView>, path: Seq<char>) -> Seq<PageView>
    decreases pages.len(),
{
    if pages.len() == 0 {
        Seq::empty()
    } else if pages[0].path == path {
        without_path(pages.drop_first(), path)
    } else {
        seq![pages[0]] + without_path(pages.drop_first(), path)
    }
}

/// The pages with `instruction` added at the end of the last one.
pub open spec fn append_to_last(pages: Seq<PageView>, instruction: InstructionView) -> Seq<
    PageView,
>
    recommends
        pages.len() > 0,
{
    pages.drop_last().push(
        PageView { path: pages.last().path, program: pages.last().program.push(instruction) },
    )
}

/// The text that a program writes: the texts of its instructions, one
/// behind the other.
pub open spec fn rendered(program: Seq<InstructionView>) -> Seq<char>
    decreases program.len(),
{
    if program.len() == 0 {
        Seq::empty()
    } else {
        rendered(program.drop_last()) + program.last().text()
    }
}

/// Each of `pages` as its path and the text that its program writes.
pub open spec fn rendered_pages(pages: Seq<PageView>) -> Seq<(Seq<char>, Seq<char>)> {
    Seq::new(pages.len(), |k: int| (pages[k].path, rendered(pages[k].program)))
}

/// What a vector of pairs of strings stands for.
pub open spec fn pairs_view(pairs: Seq<(String, String)>) -> Seq<(Seq<char>, Seq<char>)> {
    Seq::new(pairs.len(), |k: int| (pairs[k].0@, pairs[k].1@))
}

impl Page {
    /// The text that the page holds.
    pub fn render(&self) -> (r: String)
        ensures
            r@ == rendered(self@.program),
    {
        let mut text = String::new();
        let ghost all = program_view(self.program@);
        let mut k: usize = 0;
        proof {
            assert(all.subrange(0, 0) =~= Seq::<InstructionView>::empty());
        }
        while k < self.program.len()
            invariant
                k <= self.program.len(),
                all == program_view(self.program@),
                text@ == rendered(all.subrange(0, k as int)),
            decreases self.program.len() - k,
        {
            proof {
                let next = all.subrange(0, k as int + 1);
                assert(next.drop_last() =~= all.subrange(0, k as int));
                assert(next.last() == self.program@[k as int]@);
            }
            let piece = self.program[k].text();
            text.append(piece.as_str());
            k = k + 1;
        }
        proof {
            assert(all.subrange(0, k as int) =~= all);
        }
        text
    }
}

/// Renders every page: its path, and the text that it holds.
pub fn render_project(pages: &Vec<Page>) -> (r: Vec<(String, String)>)
    ensures
        pairs_view(r@) == rendered_pages(pages_view(pages@)),
{
    let mut out: Vec<(String, String)> = Vec::new();
    let ghost goal = rendered_pages(pages_view(pages@));
    let mut k: usize = 0;
    proof {
        assert(pairs_view(out@) =~= goal.subrange(0, 0));
    }
    while k < pages.len()
        invariant
            k <= pages.len(),
            out@.len() == k,
            goal == rendered_pages(pages_view(pages@)),
            pairs_view(out@) == goal.subrange(0, k as int),
        decreases pages.len() - k,
    {
        let entry = (pages[k].path.clone(), pages[k].render());
        proof {
            let next = pairs_view(out@.push(entry));
            let want = goal.subrange(0, k as int + 1);
            assert forall|j: int| 0 <= j < next.len() implies next[j] == want[j] by {
                if j < k {
                    assert(next[j] == pairs_view(out@)[j]);
                    assert(goal.subrange(0, k as int)[j] == want[j]);
                } else {
                    assert(pages_view(pages@)[k as int] == pages@[k as int]@);
                }
            }
            assert(next =~= want);
        }
        out.push(entry);
        k = k + 1;
    }
    proof {
        assert(goal.subrange(0, k as int) =~= goal);
    }
    out
}

} // verus!
