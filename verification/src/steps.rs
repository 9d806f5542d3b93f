//! What a procedure does on the system, as data.
//!
//! A procedure is worked out as a list of steps. Carrying them out, in order
//! and up to the first that fails, is left to the caller.

use vstd::prelude::*;

use crate::text::compose::owned_all;

verus! {

/// One step.
#[derive(Debug, Clone, PartialEq, Eq)]
pub enum Step {
    /// Tell the user.
    Say(String),
    /// Run a command. Where it cannot be started, stop with `context`; where it
    /// fails, stop with `failure`.
    Run { argv: Vec<String>, context: String, failure: String },
    /// Run a command. Where it fails, tell the user `warning` and go on; an
    /// empty one is not told.
    Attempt { argv: Vec<String>, warning: String },
    /// Make a directory with those above it, or stop with `context`. Here and
    /// below an empty context adds nothing to the error.
    MakeDir { path: String, context: String },
    /// Write a file, or stop with `context`.
    Write { path: String, contents: String, context: String },
    /// Copy a file, or stop with `context`.
    Copy { from: String, to: String, context: String },
    /// Rename a file, or stop with `context`.
    Rename { from: String, to: String, context: String },
    /// Make a symbolic link at `path`, or stop with `context`.
    Link { target: String, path: String, context: String },
    /// Let everybody execute a file, or stop with `context`.
    MakeExecutable { path: String, context: String },
    /// Remove a file, or stop with `context`.
    Delete { path: String, context: String },
    /// Remove a file, where there is one.
    Remove(String),
    /// Remove a directory with what is in it, where there is one.
    RemoveTree(String),
}

/// What a [`Step`] holds.
#[verifier::ext_equal]
pub enum StepView {
    Say(Seq<char>),
    Run { argv: Seq<Seq<char>>, context: Seq<char>, failure: Seq<char> },
    Attempt { argv: Seq<Seq<char>>, warning: Seq<char> },
    MakeDir { path: Seq<char>, context: Seq<char> },
    Write { path: Seq<char>, contents: Seq<char>, context: Seq<char> },
    Copy { from: Seq<char>, to: Seq<char>, context: Seq<char> },
    Rename { from: Seq<char>, to: Seq<char>, context: Seq<char> },
    Link { target: Seq<char>, path: Seq<char>, context: Seq<char> },
    MakeExecutable { path: Seq<char>, context: Seq<char> },
    Delete { path: Seq<char>, context: Seq<char> },
    Remove(Seq<char>),
    RemoveTree(Seq<char>),
}

impl DeepView for Step {
    type V = StepView;

    open spec fn deep_view(&self) -> StepView {
        match self {
            Step::Say(s) => StepView::Say(s@),
            Step::Run { argv, context, failure } => StepView::Run {
                argv: argv.deep_view(),
                context: context@,
                failure: failure@,
            },
            Step::Attempt { argv, warning } => StepView::Attempt {
                argv: argv.deep_view(),
                warning: warning@,
            },
            Step::MakeDir { path, context } => StepView::MakeDir {
                path: path@,
                context: context@,
            },
            Step::Write { path, contents, context } => StepView::Write {
                path: path@,
                contents: contents@,
                context: context@,
            },
            Step::Copy { from, to, context } => StepView::Copy {
                from: from@,
                to: to@,
                context: context@,
            },
            Step::Rename { from, to, context } => StepView::Rename {
                from: from@,
                to: to@,
                context: context@,
            },
            Step::Link { target, path, context } => StepView::Link {
                target: target@,
                path: path@,
                context: context@,
            },
            Step::MakeExecutable { path, context } => StepView::MakeExecutable {
                path: path@,
                context: context@,
            },
            Step::Delete { path, context } => StepView::Delete { path: path@, context: context@ },
            Step::Remove(p) => StepView::Remove(p@),
            Step::RemoveTree(p) => StepView::RemoveTree(p@),
        }
    }
}

/// Whether the step changes nothing.
pub open spec fn is_harmless(s: StepView) -> bool {
    s is Say
}

/// Whether none of the steps changes anything.
pub open spec fn all_harmless(steps: Seq<StepView>) -> bool {
    forall|i: int| 0 <= i < steps.len() ==> is_harmless(#[trigger] steps[i])
}

/// The step that tells the user `text`.
pub(crate) fn say(text: &str) -> (r: Step)
    ensures
        r.deep_view() == StepView::Say(text@),
{
    Step::Say(text.to_owned())
}

/// The step that runs a command.
pub(crate) fn run(argv: &[&str], context: &str, failure: &str) -> (r: Step)
    ensures
        r.deep_view() == (StepView::Run {
            argv: argv.deep_view(),
            context: context@,
            failure: failure@,
        }),
{
    let argv: Vec<String> = owned_all(argv);
    Step::Run { argv, context: context.to_owned(), failure: failure.to_owned() }
}

/// The step that runs a command, whether it succeeds or not.
pub(crate) fn attempt(argv: &[&str], warning: &str) -> (r: Step)
    ensures
        r.deep_view() == (StepView::Attempt { argv: argv.deep_view(), warning: warning@ }),
{
    let argv: Vec<String> = owned_all(argv);
    Step::Attempt { argv, warning: warning.to_owned() }
}

/// The step that makes a directory.
pub(crate) fn make_dir(path: &str, context: &str) -> (r: Step)
    ensures
        r.deep_view() == (StepView::MakeDir { path: path@, context: context@ }),
{
    Step::MakeDir { path: path.to_owned(), context: context.to_owned() }
}

/// The step that writes a file.
pub(crate) fn write_file(path: &str, contents: &str, context: &str) -> (r: Step)
    ensures
        r.deep_view() == (StepView::Write {
            path: path@,
            contents: contents@,
            context: context@,
        }),
{
    Step::Write {
        path: path.to_owned(),
        contents: contents.to_owned(),
        context: context.to_owned(),
    }
}

/// The step that copies a file.
pub(crate) fn copy(from: &str, to: &str, context: &str) -> (r: Step)
    ensures
        r.deep_view() == (StepView::Copy { from: from@, to: to@, context: context@ }),
{
    Step::Copy { from: from.to_owned(), to: to.to_owned(), context: context.to_owned() }
}

/// The step that renames a file.
pub(crate) fn rename(from: &str, to: &str, context: &str) -> (r: Step)
    ensures
        r.deep_view() == (StepView::Rename { from: from@, to: to@, context: context@ }),
{
    Step::Rename { from: from.to_owned(), to: to.to_owned(), context: context.to_owned() }
}

/// The step that makes a symbolic link.
pub(crate) fn link(target: &str, path: &str, context: &str) -> (r: Step)
    ensures
        r.deep_view() == (StepView::Link { target: target@, path: path@, context: context@ }),
{
    Step::Link { target: target.to_owned(), path: path.to_owned(), context: context.to_owned() }
}

} // verus!
