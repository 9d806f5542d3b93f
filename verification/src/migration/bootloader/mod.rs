//! Entries for the boot menu, and the steps that put them in place.

pub mod live;

use vstd::prelude::*;

use crate::steps::{Step, StepView};

verus! {

/// One entry of the boot menu.
#[derive(Debug, Clone, PartialEq, Eq)]
pub struct BlsEntry {
    pub title: String,
    pub version: String,
    pub linux: String,
    pub initrds: Vec<String>,
    pub options: String,
    pub filename: String,
    pub sort_key: String,
}

/// What a [`BlsEntry`] holds.
#[verifier::ext_equal]
pub struct BlsEntryView {
    pub title: Seq<char>,
    pub version: Seq<char>,
    pub linux: Seq<char>,
    pub initrds: Seq<Seq<char>>,
    pub options: Seq<char>,
    pub filename: Seq<char>,
    pub sort_key: Seq<char>,
}

impl DeepView for BlsEntry {
    type V = BlsEntryView;

    open spec fn deep_view(&self) -> BlsEntryView {
        BlsEntryView {
            title: self.title@,
            version: self.version@,
            linux: self.linux@,
            initrds: self.initrds.deep_view(),
            options: self.options@,
            filename: self.filename@,
            sort_key: self.sort_key@,
        }
    }
}

/// A step of a change of bootloader.
#[derive(Debug, Clone, PartialEq, Eq)]
pub enum BootStep {
    /// An ordinary step.
    Do(Step),
    /// Write the entry as a file, or stop with `context`.
    WriteEntry { path: String, entry: BlsEntry, context: String },
    /// Take a file out of a container image, or stop with `context`.
    Extract { image: String, file: String, to: String, context: String },
    /// Run the first command, and the other where it fails.
    Either { first: Vec<String>, otherwise: Vec<String> },
    /// Register systemd-boot with the firmware.
    Register { esp: String },
    /// Stop with the message.
    Stop(String),
}

/// What a [`BootStep`] holds.
#[verifier::ext_equal]
pub enum BootStepView {
    Do(StepView),
    WriteEntry { path: Seq<char>, entry: BlsEntryView, context: Seq<char> },
    Extract { image: Seq<char>, file: Seq<char>, to: Seq<char>, context: Seq<char> },
    Either { first: Seq<Seq<char>>, otherwise: Seq<Seq<char>> },
    Register { esp: Seq<char> },
    Stop(Seq<char>),
}

impl DeepView for BootStep {
    type V = BootStepView;

    open spec fn deep_view(&self) -> BootStepView {
        match self {
            BootStep::Do(s) => BootStepView::Do(s.deep_view()),
            BootStep::WriteEntry { path, entry, context } => BootStepView::WriteEntry {
                path: path@,
                entry: entry.deep_view(),
                context: context@,
            },
            BootStep::Extract { image, file, to, context } => BootStepView::Extract {
                image: image@,
                file: file@,
                to: to@,
                context: context@,
            },
            BootStep::Either { first, otherwise } => BootStepView::Either {
                first: first.deep_view(),
                otherwise: otherwise.deep_view(),
            },
            BootStep::Register { esp } => BootStepView::Register { esp: esp@ },
            BootStep::Stop(m) => BootStepView::Stop(m@),
        }
    }
}

/// Whether the step changes nothing.
pub open spec fn is_quiet(s: BootStepView) -> bool {
    match s {
        BootStepView::Do(d) => d is Say,
        BootStepView::Stop(_) => true,
        _ => false,
    }
}

/// Adds a step to the list.
pub(crate) fn push_step(steps: &mut Vec<BootStep>, step: BootStep)
    ensures
        final(steps).deep_view() == old(steps).deep_view() + seq![step.deep_view()],
{
    let ghost before = steps.deep_view();
    steps.push(step);
    assert(steps.deep_view() =~= before + seq![step.deep_view()]);
}

/// Adds an ordinary step to the list.
pub(crate) fn push_do(steps: &mut Vec<BootStep>, step: Step)
    ensures
        final(steps).deep_view() == old(steps).deep_view() + seq![
            BootStepView::Do(step.deep_view()),
        ],
{
    push_step(steps, BootStep::Do(step));
}

/// Ordinary steps.
pub open spec fn done(steps: Seq<StepView>) -> Seq<BootStepView> {
    Seq::new(steps.len(), |i: int| BootStepView::Do(steps[i]))
}

/// Adds ordinary steps to the list.
pub(crate) fn push_all(steps: &mut Vec<BootStep>, more: Vec<Step>)
    ensures
        final(steps).deep_view() == old(steps).deep_view() + done(more.deep_view()),
{
    let ghost before = steps.deep_view();
    let ghost all = more.deep_view();
    let ghost n = more@.len();
    let mut more: Vec<Step> = more;
    let mut reversed: Vec<Step> = Vec::new();
    while more.len() > 0
        invariant
            more@.len() + reversed@.len() == n,
            all.len() == n,
            forall|i: int| 0 <= i < more@.len() ==> (#[trigger] more@[i]).deep_view() == all[i],
            forall|i: int|
                0 <= i < reversed@.len() ==> (#[trigger] reversed@[i]).deep_view() == all[n - 1 - i],
        decreases more@.len(),
    {
        if let Some(s) = more.pop() {
            reversed.push(s);
        }
    }
    while reversed.len() > 0
        invariant
            reversed@.len() <= n,
            all.len() == n,
            forall|i: int|
                0 <= i < reversed@.len() ==> (#[trigger] reversed@[i]).deep_view() == all[n - 1 - i],
            steps.deep_view() == before + done(all.take(n - reversed@.len())),
        decreases reversed@.len(),
    {
        let ghost k = n - reversed@.len();
        if let Some(s) = reversed.pop() {
            push_step(steps, BootStep::Do(s));
            assert(done(all.take(k + 1)) =~= done(all.take(k)) + seq![BootStepView::Do(all[k])]);
        }
    }
    assert(all.take(n as int) =~= all);
}

/// A copy of the entry.
pub(crate) fn copy_entry(e: &BlsEntry) -> (r: BlsEntry)
    ensures
        r.deep_view() == e.deep_view(),
{
    BlsEntry {
        title: e.title.clone(),
        version: e.version.clone(),
        linux: e.linux.clone(),
        initrds: crate::text::compose::cloned_all(e.initrds.as_slice()),
        options: e.options.clone(),
        filename: e.filename.clone(),
        sort_key: e.sort_key.clone(),
    }
}

} // verus!
