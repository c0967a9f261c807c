//! Command steps: one program invocation each, read from a shell-style
//! command line and rendered for a changed path.

use crate::template::{substitute, substituted, PathParts, PathPartsView};
use vstd::prelude::*;

verus! {

/// The words into which `shlex::Shlex` splits a command line: what its
/// iterator yields, in order, until it ends.
pub uninterp spec fn shell_words(line: Seq<char>) -> Seq<Seq<char>>;

/// Runs a `shlex::Shlex` over `line` and collects the words it yields. The
/// contract only names the result: the words are a function of the line.
#[verifier::external_body]
fn split_words(line: &str) -> (words: Vec<String>)
    ensures
        words.deep_view() == shell_words(line@),
{
    shlex::Shlex::new(line).collect()
}

/// One external program invocation: a program and its arguments, which may
/// hold placeholders.
#[derive(Debug)]
pub struct Step {
    pub program: String,
    pub args: Vec<String>,
}

/// The mathematical value of a `Step`.
pub struct StepView {
    pub program: Seq<char>,
    pub args: Seq<Seq<char>>,
}

impl View for Step {
    type V = StepView;

    open spec fn view(&self) -> StepView {
        StepView { program: self.program@, args: self.args.deep_view() }
    }
}

/// The values of a list of steps.
pub open spec fn step_views(steps: Seq<Step>) -> Seq<StepView> {
    steps.map_values(|s: Step| s@)
}

/// The step that a list of words stands for: the first word is the program,
/// the others are its arguments. No words, no step.
pub open spec fn step_of_words(words: Seq<Seq<char>>) -> Option<StepView> {
    if words.len() == 0 {
        None
    } else {
        Some(StepView { program: words[0], args: words.skip(1) })
    }
}

/// The step that a command line stands for.
pub open spec fn step_of_line(line: Seq<char>) -> Option<StepView> {
    step_of_words(shell_words(line))
}

/// A step with the placeholders of every argument substituted. The program
/// is taken as it is written.
pub open spec fn rendered(step: StepView, parts: PathPartsView) -> StepView {
    StepView {
        program: step.program,
        args: Seq::new(step.args.len(), |i: int| substituted(step.args[i], parts)),
    }
}

impl Step {
    /// Builds a step from the words of a command line.
    pub fn from_words(words: Vec<String>) -> (step: Option<Step>)
        ensures
            match step {
                Some(s) => step_of_words(words.deep_view()) == Some(s@),
                None => step_of_words(words.deep_view()) is None,
            },
    {
        let mut args = words;
        if args.len() == 0 {
            return None;
        }
        let program = args.remove(0);
        assert(args.deep_view() =~= words.deep_view().skip(1));
        Some(Step { program, args })
    }

    /// Reads a step from a shell-style command line.
    pub fn parse(line: &str) -> (step: Option<Step>)
        ensures
            match step {
                Some(s) => step_of_line(line@) == Some(s@),
                None => step_of_line(line@) is None,
            },
    {
        Step::from_words(split_words(line))
    }

    /// The step as it is launched for a changed path.
    pub fn render(&self, parts: &PathParts) -> (out: Step)
        ensures
            out@ == rendered(self@, parts@),
    {
        let mut args: Vec<String> = Vec::new();
        let mut i: usize = 0;
        while i < self.args.len()
            invariant
                i <= self.args.len(),
                args.len() == i,
                forall|j: int| 0 <= j < i ==> args[j]@ == substituted(self.args[j]@, parts@),
            decreases self.args.len() - i,
        {
            args.push(substitute(self.args[i].as_str(), parts));
            i += 1;
        }
        let out = Step { program: self.program.clone(), args };
        assert(out@.args =~= rendered(self@, parts@).args);
        out
    }
}

} // verus!
