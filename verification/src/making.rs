//! The making of a cache entry, step by step.
//!
//! An entry is put together in a directory beside its final place and renamed
//! into it at the very end, under a lock that keeps other makers of the same
//! entry waiting. A run begins with a look at the final place and goes on
//! with whatever the world answers, until it is finished.

use crate::action::Action;
use crate::action::action_views;
use crate::action::ActionView;
use crate::action::Event;
use crate::action::EventView;
use crate::error::Error;
use crate::error::ErrorView;
use crate::fetch::lemma_remote_script_within;
use crate::fetch::lines_of;
use crate::fetch::list_url;
use crate::fetch::list_url_of;
use crate::fetch::remote_actions;
use crate::fetch::remote_script;
use crate::fetch::target_of;
use crate::fetch::targets_within;
use crate::layout::Entry;
use crate::layout::entry_in;
use crate::layout::EntryView;
use crate::layout::lock_name;
use crate::layout::stays_below;
use crate::layout::tmp_suffix;
use vstd::prelude::*;

verus! {

/// How far the making of an entry has come: what the machine is waiting to
/// hear about.
#[derive(Clone, Copy, Debug, PartialEq, Eq, Structural)]
pub enum Phase {
    /// Whether the entry is there already.
    FastCheck,
    /// The directory of the lock file.
    LockDir,
    /// The lock.
    Locking,
    /// Whether the entry is there by now.
    Recheck,
    /// The removal of what an earlier run left behind.
    Clearing,
    /// The fresh temporary directory.
    TmpDir,
    /// The list of files of the remote tree.
    Listing,
    /// A step of the script.
    Filling,
    /// The renaming into the final place.
    Publishing,
    /// Nothing: the run is over.
    Finished,
}

/// A remote tree that fills an entry.
#[derive(Clone, Debug, PartialEq, Eq)]
pub struct RemoteTree {
    pub base_url: String,
    pub subpath: String,
}

pub struct RemoteTreeView {
    pub base_url: Seq<char>,
    pub subpath: Seq<char>,
}

impl View for RemoteTree {
    type V = RemoteTreeView;

    open spec fn view(&self) -> RemoteTreeView {
        RemoteTreeView { base_url: self.base_url@, subpath: self.subpath@ }
    }
}

/// The making of one entry.
#[derive(Clone, Debug, PartialEq, Eq)]
pub struct Making {
    /// The paths of the entry.
    pub entry: Entry,
    /// Set for an entry that a remote tree fills: the script is written once
    /// the list of the tree has come.
    pub remote: Option<RemoteTree>,
    /// What the machine is waiting to hear about.
    pub phase: Phase,
    /// Whether this run holds the lock.
    pub locked: bool,
    /// The steps that fill the temporary directory.
    pub script: Vec<Action>,
    /// How many steps of the script were handed out.
    pub next: usize,
}

pub struct MakingView {
    pub entry: EntryView,
    pub remote: Option<RemoteTreeView>,
    pub phase: Phase,
    pub locked: bool,
    pub script: Seq<ActionView>,
    pub next: nat,
}

impl View for Making {
    type V = MakingView;

    open spec fn view(&self) -> MakingView {
        MakingView {
            entry: self.entry@,
            remote: match self.remote {
                Some(tree) => Some(tree@),
                None => None,
            },
            phase: self.phase,
            locked: self.locked,
            script: action_views(self.script@),
            next: self.next as nat,
        }
    }
}

/// What the machine says after an event.
#[derive(Debug, PartialEq, Eq)]
pub enum Next {
    /// Do this and report.
    Do(Action),
    /// The run is over; the lock, if it was taken, is to be let go.
    Finished(Result<(), Error>),
}

pub enum NextView {
    Do(ActionView),
    Finished(Result<(), ErrorView>),
}

impl View for Next {
    type V = NextView;

    open spec fn view(&self) -> NextView {
        match self {
            Next::Do(action) => NextView::Do(action@),
            Next::Finished(Ok(_)) => NextView::Finished(Ok(())),
            Next::Finished(Err(e)) => NextView::Finished(Err(e@)),
        }
    }
}

/// The error for an event that answers no question the machine asked.
pub open spec fn unexpected() -> ErrorView {
    ErrorView::Internal("unexpected event"@)
}

/// The machine before its first event. It has asked whether the entry is
/// there.
pub open spec fn fresh(
    entry: EntryView,
    remote: Option<RemoteTreeView>,
    script: Seq<ActionView>,
) -> MakingView {
    MakingView { entry, remote, phase: Phase::FastCheck, locked: false, script, next: 0 }
}

/// The question that a run begins with.
pub open spec fn first_action(entry: EntryView) -> ActionView {
    ActionView::Probe { path: entry.path }
}

/// The run ends.
pub open spec fn finish(m: MakingView, result: Result<(), ErrorView>) -> (MakingView, NextView) {
    (MakingView { phase: Phase::Finished, locked: false, ..m }, NextView::Finished(result))
}

/// The machine asks for `action` and waits in `phase`.
pub open spec fn ask(m: MakingView, phase: Phase, action: ActionView) -> (MakingView, NextView) {
    (MakingView { phase, ..m }, NextView::Do(action))
}

/// The next step of the script, or, when none is left, the renaming of the
/// temporary directory into the final place.
pub open spec fn fill(m: MakingView) -> (MakingView, NextView) {
    if m.next < m.script.len() {
        (
            MakingView { phase: Phase::Filling, next: m.next + 1, ..m },
            NextView::Do(m.script[m.next as int]),
        )
    } else {
        ask(m, Phase::Publishing, ActionView::Rename { from: m.entry.tmp, to: m.entry.path })
    }
}

/// What the machine does with an event.
pub open spec fn step(m: MakingView, event: EventView) -> (MakingView, NextView) {
    match (m.phase, event) {
        (Phase::Finished, _) => finish(m, Err(unexpected())),
        (Phase::FastCheck, EventView::Exists(true)) => finish(m, Ok(())),
        (Phase::FastCheck, EventView::Exists(false)) => ask(
            m,
            Phase::LockDir,
            ActionView::CreateDirs { path: m.entry.lock_dir },
        ),
        (Phase::LockDir, EventView::Done) => ask(
            m,
            Phase::Locking,
            ActionView::Lock { path: m.entry.lock },
        ),
        (Phase::Locking, EventView::Done) => ask(
            MakingView { locked: true, ..m },
            Phase::Recheck,
            ActionView::Probe { path: m.entry.path },
        ),
        (Phase::Recheck, EventView::Exists(true)) => finish(m, Ok(())),
        (Phase::Recheck, EventView::Exists(false)) => ask(
            m,
            Phase::Clearing,
            ActionView::RemoveTree { path: m.entry.tmp },
        ),
        (Phase::Clearing, EventView::Done) | (Phase::Clearing, EventView::Failed(_)) => ask(
            m,
            Phase::TmpDir,
            ActionView::CreateDirs { path: m.entry.tmp },
        ),
        (Phase::TmpDir, EventView::Done) => match m.remote {
            Some(tree) => ask(
                m,
                Phase::Listing,
                ActionView::FetchList { url: list_url(tree.base_url, tree.subpath) },
            ),
            None => fill(m),
        },
        (Phase::Listing, EventView::Text(list)) => match m.remote {
            Some(tree) => fill(
                MakingView {
                    script: remote_script(m.entry.tmp, tree.base_url, tree.subpath, lines_of(list)),
                    next: 0,
                    ..m
                },
            ),
            None => finish(m, Err(unexpected())),
        },
        (Phase::Filling, EventView::Done) => fill(m),
        (Phase::Publishing, EventView::Done) => finish(m, Ok(())),
        (_, EventView::Failed(e)) => finish(m, Err(e)),
        (_, _) => finish(m, Err(unexpected())),
    }
}

/// The state after a run of events.
pub open spec fn state_after(m: MakingView, events: Seq<EventView>) -> MakingView
    decreases events.len(),
{
    if events.len() == 0 {
        m
    } else {
        step(state_after(m, events.drop_last()), events.last()).0
    }
}

/// What holds of the machine at every moment of a run: it holds the lock
/// from the moment it got it until the run is over, and hands out no more
/// steps than the script has.
pub open spec fn in_order(m: MakingView) -> bool {
    &&& m.locked <==> (m.phase == Phase::Recheck || m.phase == Phase::Clearing || m.phase
        == Phase::TmpDir || m.phase == Phase::Listing || m.phase == Phase::Filling || m.phase
        == Phase::Publishing)
    &&& m.next <= m.script.len()
    &&& m.phase == Phase::Publishing ==> m.next == m.script.len()
}

/// A step keeps the machine in order.
pub proof fn lemma_step_in_order(m: MakingView, event: EventView)
    requires
        in_order(m),
    ensures
        in_order(step(m, event).0),
{
}

/// A run from the beginning keeps the machine in order, whatever the world
/// answers.
pub proof fn lemma_run_in_order(
    entry: EntryView,
    remote: Option<RemoteTreeView>,
    script: Seq<ActionView>,
    events: Seq<EventView>,
)
    ensures
        in_order(state_after(fresh(entry, remote, script), events)),
    decreases events.len(),
{
    if events.len() > 0 {
        lemma_run_in_order(entry, remote, script, events.drop_last());
        lemma_step_in_order(
            state_after(fresh(entry, remote, script), events.drop_last()),
            events.last(),
        );
    }
}

/// Atomic publication. At any moment of any run, the temporary directory is
/// renamed into the final place only by a machine that holds the lock, has
/// handed out every step of the script and has heard that the last one was
/// carried out; and while the machine does not hold the lock it asks for
/// nothing but a look at the final place, the directory of the lock file, and
/// the lock.
pub proof fn lemma_publication_is_atomic(
    entry: EntryView,
    remote: Option<RemoteTreeView>,
    script: Seq<ActionView>,
    events: Seq<EventView>,
    event: EventView,
)
    ensures
        ({
            let m = state_after(fresh(entry, remote, script), events);
            let (after, next) = step(m, event);
            &&& m.entry == entry
            &&& after.phase == Phase::Publishing ==> {
                &&& next == NextView::Do(ActionView::Rename { from: entry.tmp, to: entry.path })
                &&& m.locked
                &&& after.next == after.script.len()
                &&& event is Done || event is Text
            }
            &&& !m.locked ==> {
                ||| next is Finished
                ||| next == NextView::Do(ActionView::Probe { path: entry.path })
                ||| next == NextView::Do(ActionView::CreateDirs { path: entry.lock_dir })
                ||| next == NextView::Do(ActionView::Lock { path: entry.lock })
            }
        }),
{
    lemma_run_in_order(entry, remote, script, events);
    lemma_entry_stays(fresh(entry, remote, script), events);
}

/// Whether `target` is `path` or, as a text, a path below it.
pub open spec fn touches(target: Seq<char>, path: Seq<char>) -> bool {
    target == path || (target.len() > path.len() && target.take(path.len() as int) == path
        && target[path.len() as int] == '/')
}

/// Nothing within the temporary directory touches the final place.
pub proof fn lemma_tmp_is_beside(path: Seq<char>, target: Seq<char>)
    requires
        target == path + tmp_suffix() || stays_below(path + tmp_suffix(), target),
    ensures
        !touches(target, path),
{
    let tmp = path + tmp_suffix();
    assert(tmp[path.len() as int] == '.');
    if target != tmp {
        assert(target.take(tmp.len() as int)[path.len() as int] == target[path.len() as int]);
    }
}

/// Atomic publication on disk. Take an entry whose lock file is in its own
/// directory and whose name is not that of the lock file, and a script that
/// stays within the temporary directory. Then at any moment of any run, the
/// only action that names the final place, or a path below it, as its target
/// is the renaming of the temporary directory into it.
pub proof fn lemma_only_rename_touches_entry(
    dir: Seq<char>,
    name: Seq<char>,
    remote: Option<RemoteTreeView>,
    script: Seq<ActionView>,
    events: Seq<EventView>,
    event: EventView,
)
    requires
        name != lock_name(),
        targets_within(script, entry_in(dir, dir, name).tmp),
    ensures
        ({
            let entry = entry_in(dir, dir, name);
            let m = state_after(fresh(entry, remote, script), events);
            step(m, event).1 matches NextView::Do(action) ==> (target_of(action) matches Some(
                target,
            ) ==> touches(target, entry.path) ==> action == ActionView::Rename {
                from: entry.tmp,
                to: entry.path,
            })
        }),
{
    let entry = entry_in(dir, dir, name);
    let m = state_after(fresh(entry, remote, script), events);
    lemma_run_in_order(entry, remote, script, events);
    lemma_entry_stays(fresh(entry, remote, script), events);
    lemma_script_stays_within(fresh(entry, remote, script), events);
    let path = entry.path;
    match step(m, event).1 {
        NextView::Do(action) => {
            match target_of(action) {
                Some(target) => {
                    if touches(target, path) && action != (ActionView::Rename {
                        from: entry.tmp,
                        to: entry.path,
                    }) {
                        if target == entry.lock_dir {
                            assert(dir.len() < path.len());
                        } else if target == entry.lock {
                            assert(target.skip(dir.len() as int + 1) =~= lock_name());
                            assert(path.skip(dir.len() as int + 1) =~= name);
                            if target != path {
                                assert(target[path.len() as int] == lock_name()[name.len() as int]);
                            }
                        } else {
                            if m.phase == Phase::Listing {
                                let tree = m.remote->0;
                                match event {
                                    EventView::Text(list) => {
                                        lemma_remote_script_within(
                                            entry.tmp,
                                            tree.base_url,
                                            tree.subpath,
                                            lines_of(list),
                                        );
                                    },
                                    _ => {},
                                }
                            }
                            lemma_tmp_is_beside(path, target);
                        }
                    }
                },
                None => {},
            }
        },
        _ => {},
    }
}

/// A script that stays within the temporary directory does so throughout a
/// run.
pub proof fn lemma_script_stays_within(m: MakingView, events: Seq<EventView>)
    requires
        targets_within(m.script, m.entry.tmp),
    ensures
        targets_within(state_after(m, events).script, m.entry.tmp),
    decreases events.len(),
{
    if events.len() > 0 {
        lemma_script_stays_within(m, events.drop_last());
        lemma_entry_stays(m, events.drop_last());
        let before = state_after(m, events.drop_last());
        if before.phase == Phase::Listing {
            match (events.last(), before.remote) {
                (EventView::Text(list), Some(tree)) => {
                    lemma_remote_script_within(
                        before.entry.tmp,
                        tree.base_url,
                        tree.subpath,
                        lines_of(list),
                    );
                },
                _ => {},
            }
        }
    }
}

/// The machine never changes the paths of its entry.
pub proof fn lemma_entry_stays(m: MakingView, events: Seq<EventView>)
    ensures
        state_after(m, events).entry == m.entry,
        state_after(m, events).remote == m.remote,
    decreases events.len(),
{
    if events.len() > 0 {
        lemma_entry_stays(m, events.drop_last());
    }
}

/// Idempotent materialization. Where the entry is there already, a run is
/// over after its first question, with success and without any other action;
/// and a run that finds the entry once it holds the lock ends the same way.
pub proof fn lemma_existing_entry_ends_run(m: MakingView)
    requires
        m.phase == Phase::FastCheck || m.phase == Phase::Recheck,
    ensures
        step(m, EventView::Exists(true)).1 == NextView::Finished(Ok(())),
        step(m, EventView::Exists(true)).0.phase == Phase::Finished,
        !step(m, EventView::Exists(true)).0.locked,
{
}

/// A failure ends the run with that failure, except where an earlier run's
/// leftovers could not be removed; nothing is tried again, and the entry is
/// not renamed into place.
pub proof fn lemma_failure_ends_run(m: MakingView, e: ErrorView)
    requires
        m.phase != Phase::Clearing,
        m.phase != Phase::Finished,
    ensures
        step(m, EventView::Failed(e)).1 == NextView::Finished(Err(e)),
        step(m, EventView::Failed(e)).0.phase == Phase::Finished,
{
}

/// Once a run is over, the machine asks for nothing more.
pub proof fn lemma_finished_stays(m: MakingView, event: EventView)
    requires
        m.phase == Phase::Finished,
    ensures
        step(m, event).1 is Finished,
        step(m, event).0.phase == Phase::Finished,
{
}

impl Making {
    /// Begins the making of `entry` with a script that is known. The action
    /// returned is the first to carry out.
    pub fn begin(entry: Entry, script: Vec<Action>) -> (started: (Making, Action))
        ensures
            started.0@ == fresh(entry@, None, action_views(script@)),
            started.1@ == first_action(entry@),
    {
        let path = entry.path.clone();
        (
            Making { entry, remote: None, phase: Phase::FastCheck, locked: false, script, next: 0 },
            Action::Probe { path },
        )
    }

    /// Begins the making of `entry` from a remote tree, whose list of files
    /// decides the script.
    pub fn begin_remote(entry: Entry, tree: RemoteTree) -> (started: (Making, Action))
        ensures
            started.0@ == fresh(entry@, Some(tree@), Seq::empty()),
            started.1@ == first_action(entry@),
    {
        let path = entry.path.clone();
        let m = Making {
            entry,
            remote: Some(tree),
            phase: Phase::FastCheck,
            locked: false,
            script: Vec::new(),
            next: 0,
        };
        assert(action_views(m.script@) =~= Seq::<ActionView>::empty());
        (m, Action::Probe { path })
    }

    fn finish(&mut self, result: Result<(), Error>) -> (next: Next)
        ensures
            (final(self)@, next@) == finish(
                old(self)@,
                match result {
                    Ok(_) => Ok(()),
                    Err(e) => Err(e@),
                },
            ),
    {
        self.phase = Phase::Finished;
        self.locked = false;
        Next::Finished(result)
    }

    fn fail_unexpected(&mut self) -> (next: Next)
        ensures
            (final(self)@, next@) == finish(old(self)@, Err(unexpected())),
    {
        self.finish(Err(Error::Internal("unexpected event".to_owned())))
    }

    fn fill(&mut self) -> (next: Next)
        ensures
            (final(self)@, next@) == fill(old(self)@),
    {
        if self.next < self.script.len() {
            let action = self.script[self.next].duplicate();
            self.phase = Phase::Filling;
            self.next = self.next + 1;
            Next::Do(action)
        } else {
            self.phase = Phase::Publishing;
            Next::Do(Action::Rename { from: self.entry.tmp.clone(), to: self.entry.path.clone() })
        }
    }

    /// Takes what came of the last action and says what to do next.
    pub fn advance(&mut self, event: Event) -> (next: Next)
        ensures
            (final(self)@, next@) == step(old(self)@, event@),
    {
        match self.phase {
            Phase::Finished => self.fail_unexpected(),
            Phase::FastCheck => match event {
                Event::Exists(true) => self.finish(Ok(())),
                Event::Exists(false) => {
                    self.phase = Phase::LockDir;
                    Next::Do(Action::CreateDirs { path: self.entry.lock_dir.clone() })
                },
                Event::Failed(e) => self.finish(Err(e)),
                _ => self.fail_unexpected(),
            },
            Phase::LockDir => match event {
                Event::Done => {
                    self.phase = Phase::Locking;
                    Next::Do(Action::Lock { path: self.entry.lock.clone() })
                },
                Event::Failed(e) => self.finish(Err(e)),
                _ => self.fail_unexpected(),
            },
            Phase::Locking => match event {
                Event::Done => {
                    self.phase = Phase::Recheck;
                    self.locked = true;
                    Next::Do(Action::Probe { path: self.entry.path.clone() })
                },
                Event::Failed(e) => self.finish(Err(e)),
                _ => self.fail_unexpected(),
            },
            Phase::Recheck => match event {
                Event::Exists(true) => self.finish(Ok(())),
                Event::Exists(false) => {
                    self.phase = Phase::Clearing;
                    Next::Do(Action::RemoveTree { path: self.entry.tmp.clone() })
                },
                Event::Failed(e) => self.finish(Err(e)),
                _ => self.fail_unexpected(),
            },
            Phase::Clearing => match event {
                Event::Done | Event::Failed(_) => {
                    self.phase = Phase::TmpDir;
                    Next::Do(Action::CreateDirs { path: self.entry.tmp.clone() })
                },
                _ => self.fail_unexpected(),
            },
            Phase::TmpDir => match event {
                Event::Done => {
                    let url = match &self.remote {
                        Some(tree) => Some(
                            list_url_of(tree.base_url.as_str(), tree.subpath.as_str()),
                        ),
                        None => None,
                    };
                    match url {
                        Some(url) => {
                            self.phase = Phase::Listing;
                            Next::Do(Action::FetchList { url })
                        },
                        None => self.fill(),
                    }
                },
                Event::Failed(e) => self.finish(Err(e)),
                _ => self.fail_unexpected(),
            },
            Phase::Listing => match event {
                Event::Text(list) => {
                    let script = match &self.remote {
                        Some(tree) => Some(
                            remote_actions(
                                self.entry.tmp.as_str(),
                                tree.base_url.as_str(),
                                tree.subpath.as_str(),
                                list.as_str(),
                            ),
                        ),
                        None => None,
                    };
                    match script {
                        Some(script) => {
                            self.script = script;
                            self.next = 0;
                            self.fill()
                        },
                        None => self.fail_unexpected(),
                    }
                },
                Event::Failed(e) => self.finish(Err(e)),
                _ => self.fail_unexpected(),
            },
            Phase::Filling => match event {
                Event::Done => self.fill(),
                Event::Failed(e) => self.finish(Err(e)),
                _ => self.fail_unexpected(),
            },
            Phase::Publishing => match event {
                Event::Done => self.finish(Ok(())),
                Event::Failed(e) => self.finish(Err(e)),
                _ => self.fail_unexpected(),
            },
        }
    }
}

} // verus!
