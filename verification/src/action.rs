//! What the gateway asks of the world, and what the world answers.
//!
//! The library decides; a driver acts. It performs each action that it is
//! handed and reports back with an event.

use crate::error::Error;
use crate::error::ErrorView;
use vstd::prelude::*;

verus! {

/// Something for the driver to do.
#[derive(Clone, Debug, PartialEq, Eq)]
pub enum Action {
    /// Find out whether `path` exists. Answer: `Exists`.
    Probe { path: String },
    /// Create the directory `path` and its parents where they are missing.
    CreateDirs { path: String },
    /// Open or create the file `path` and take its exclusive lock, waiting
    /// as long as it takes. The lock is held until the run is over.
    Lock { path: String },
    /// Remove `path` and all below it. Whether that worked counts for
    /// nothing.
    RemoveTree { path: String },
    /// Get the artifacts of a job from its server and write them to `to`.
    DownloadJob { source_name: String, project: String, job_id: u64, to: String },
    /// Get the text at `url`. Answer: `Text`.
    FetchList { url: String },
    /// Get what is at `url` and write it to `to`.
    Download { url: String, to: String },
    /// Run a shell command line and wait for it.
    Run { command: String },
    /// Write `contents` to the file `path`.
    WriteFile { path: String, contents: String },
    /// Remove the file `path`.
    RemoveFile { path: String },
    /// Rename `from` to `to` in one step.
    Rename { from: String, to: String },
}

pub enum ActionView {
    Probe { path: Seq<char> },
    CreateDirs { path: Seq<char> },
    Lock { path: Seq<char> },
    RemoveTree { path: Seq<char> },
    DownloadJob { source_name: Seq<char>, project: Seq<char>, job_id: u64, to: Seq<char> },
    FetchList { url: Seq<char> },
    Download { url: Seq<char>, to: Seq<char> },
    Run { command: Seq<char> },
    WriteFile { path: Seq<char>, contents: Seq<char> },
    RemoveFile { path: Seq<char> },
    Rename { from: Seq<char>, to: Seq<char> },
}

impl View for Action {
    type V = ActionView;

    open spec fn view(&self) -> ActionView {
        match self {
            Action::Probe { path } => ActionView::Probe { path: path@ },
            Action::CreateDirs { path } => ActionView::CreateDirs { path: path@ },
            Action::Lock { path } => ActionView::Lock { path: path@ },
            Action::RemoveTree { path } => ActionView::RemoveTree { path: path@ },
            Action::DownloadJob { source_name, project, job_id, to } => ActionView::DownloadJob {
                source_name: source_name@,
                project: project@,
                job_id: *job_id,
                to: to@,
            },
            Action::FetchList { url } => ActionView::FetchList { url: url@ },
            Action::Download { url, to } => ActionView::Download { url: url@, to: to@ },
            Action::Run { command } => ActionView::Run { command: command@ },
            Action::WriteFile { path, contents } => ActionView::WriteFile {
                path: path@,
                contents: contents@,
            },
            Action::RemoveFile { path } => ActionView::RemoveFile { path: path@ },
            Action::Rename { from, to } => ActionView::Rename { from: from@, to: to@ },
        }
    }
}

/// The views of a list of actions.
pub open spec fn action_views(actions: Seq<Action>) -> Seq<ActionView> {
    Seq::new(actions.len(), |i: int| actions[i]@)
}

impl Action {
    /// The same action once more.
    pub fn duplicate(&self) -> (copy: Action)
        ensures
            copy@ == self@,
    {
        match self {
            Action::Probe { path } => Action::Probe { path: path.clone() },
            Action::CreateDirs { path } => Action::CreateDirs { path: path.clone() },
            Action::Lock { path } => Action::Lock { path: path.clone() },
            Action::RemoveTree { path } => Action::RemoveTree { path: path.clone() },
            Action::DownloadJob { source_name, project, job_id, to } => Action::DownloadJob {
                source_name: source_name.clone(),
                project: project.clone(),
                job_id: *job_id,
                to: to.clone(),
            },
            Action::FetchList { url } => Action::FetchList { url: url.clone() },
            Action::Download { url, to } => Action::Download { url: url.clone(), to: to.clone() },
            Action::Run { command } => Action::Run { command: command.clone() },
            Action::WriteFile { path, contents } => Action::WriteFile {
                path: path.clone(),
                contents: contents.clone(),
            },
            Action::RemoveFile { path } => Action::RemoveFile { path: path.clone() },
            Action::Rename { from, to } => Action::Rename { from: from.clone(), to: to.clone() },
        }
    }
}

/// What came of the last action.
#[derive(Clone, Debug, PartialEq, Eq)]
pub enum Event {
    /// The answer to `Probe`.
    Exists(bool),
    /// The action was carried out.
    Done,
    /// The answer to `FetchList`.
    Text(String),
    /// The action failed.
    Failed(Error),
}

pub enum EventView {
    Exists(bool),
    Done,
    Text(Seq<char>),
    Failed(ErrorView),
}

impl View for Event {
    type V = EventView;

    open spec fn view(&self) -> EventView {
        match self {
            Event::Exists(b) => EventView::Exists(*b),
            Event::Done => EventView::Done,
            Event::Text(t) => EventView::Text(t@),
            Event::Failed(e) => EventView::Failed(e@),
        }
    }
}

} // verus!
