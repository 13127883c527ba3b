//! One request, from its path to the reply.
//!
//! The artifacts of the plan are made one after another, in the order of the
//! plan; then the composite is made; then the file that the request asked for
//! is served from the composite. Whatever fails before that is answered with
//! status 400 and the error written out.

use crate::action::Action;
use crate::action::ActionView;
use crate::action::Event;
use crate::action::EventView;
use crate::canonical::canonical_text;
use crate::composite::composite_name;
use crate::composite::composite_script;
use crate::composite::lemma_composite_script_within;
use crate::composite::sources_of;
use crate::config::Config;
use crate::digest::sha256;
use crate::error::Error;
use crate::error::ErrorView;
use crate::error::rendered;
use crate::fetch::job_actions;
use crate::fetch::job_script;
use crate::fetch::lemma_job_script_within;
use crate::fetch::target_of;
use crate::layout::cache_entry_of;
use crate::layout::child;
use crate::layout::composite_entry;
use crate::layout::composite_entry_of;
use crate::layout::Entry;
use crate::layout::EntryView;
use crate::layout::lemma_composite_entry_stays_below;
use crate::layout::lock_name;
use crate::making::first_action;
use crate::making::fresh;
use crate::making::lemma_only_rename_touches_entry;
use crate::making::Making;
use crate::making::MakingView;
use crate::making::Next;
use crate::making::NextView;
use crate::making::Phase;
use crate::making::RemoteTree;
use crate::making::RemoteTreeView;
use crate::making::state_after;
use crate::making::step;
use crate::making::touches;
use crate::making::unexpected;
use crate::plan::Artifact;
use crate::plan::ArtifactView;
use crate::plan::parse_uri;
use crate::plan::Plan;
use crate::plan::PlanView;
use crate::text::decimal_text;
use crate::text::is_digit;
use crate::text::lemma_decimal_text_digits;
use vstd::prelude::*;
use vstd::utf8::encode_utf8;

verus! {

/// What a request is busy with.
#[derive(Clone, Copy, Debug, PartialEq, Eq, Structural)]
pub enum Stage {
    /// The making of an artifact.
    Artifacts,
    /// The making of the composite.
    Composite,
    /// Nothing: the reply was given.
    Over,
}

/// A reply that refuses the request.
#[derive(Clone, Debug, PartialEq, Eq)]
pub struct Refusal {
    pub status: u16,
    pub body: String,
}

pub struct RefusalView {
    pub status: u16,
    pub body: Seq<char>,
}

impl View for Refusal {
    type V = RefusalView;

    open spec fn view(&self) -> RefusalView {
        RefusalView { status: self.status, body: self.body@ }
    }
}

/// What the handler says after an event.
#[derive(Clone, Debug, PartialEq, Eq)]
pub enum Reply {
    /// Do this and report.
    Do(Action),
    /// Serve the file at `path` from the tree at `root`, and pass on whatever
    /// comes of it.
    Serve { root: String, path: String },
    /// Refuse the request.
    Refuse(Refusal),
}

pub enum ReplyView {
    Do(ActionView),
    Serve { root: Seq<char>, path: Seq<char> },
    Refuse(RefusalView),
}

impl View for Reply {
    type V = ReplyView;

    open spec fn view(&self) -> ReplyView {
        match self {
            Reply::Do(action) => ReplyView::Do(action@),
            Reply::Serve { root, path } => ReplyView::Serve { root: root@, path: path@ },
            Reply::Refuse(refusal) => ReplyView::Refuse(refusal@),
        }
    }
}

/// A request on its way.
#[derive(Clone, Debug, PartialEq, Eq)]
pub struct Request {
    /// The path as it came.
    pub uri: String,
    /// What it asks for.
    pub plan: Plan,
    /// The paths of the composite of the plan.
    pub composite: Entry,
    /// What the request is busy with.
    pub stage: Stage,
    /// The place in the plan of the artifact that is being made.
    pub index: usize,
    /// The making that is under way.
    pub making: Making,
}

pub struct RequestView {
    pub uri: Seq<char>,
    pub plan: PlanView,
    pub composite: EntryView,
    pub stage: Stage,
    pub index: nat,
    pub making: MakingView,
}

impl View for Request {
    type V = RequestView;

    open spec fn view(&self) -> RequestView {
        RequestView {
            uri: self.uri@,
            plan: self.plan@,
            composite: self.composite@,
            stage: self.stage,
            index: self.index as nat,
            making: self.making@,
        }
    }
}

/// The status of every refusal.
pub open spec fn refusal_status() -> u16 {
    400
}

/// The refusal for an error: the error written out is the body.
pub open spec fn refusal_of(e: ErrorView) -> RefusalView {
    RefusalView { status: refusal_status(), body: rendered(e) }
}

/// The place of the first artifact from `from` on that has a cache entry, or
/// the number of artifacts where none has.
pub open spec fn next_cached(artifacts: Seq<ArtifactView>, config: Config, from: int) -> int
    decreases artifacts.len() - from,
{
    if from < 0 || from >= artifacts.len() {
        artifacts.len() as int
    } else if cache_entry_of(artifacts[from], config.local_cache@, config.source_names()) is Some {
        from
    } else {
        next_cached(artifacts, config, from + 1)
    }
}

/// The making of an artifact's cache entry, before its first event.
pub open spec fn making_of(artifact: ArtifactView, entry: EntryView, config: Config) -> MakingView {
    match artifact {
        ArtifactView::GitlabJob { source_name, project, job_id } => fresh(
            entry,
            None,
            job_script(entry.tmp, source_name, project, job_id),
        ),
        ArtifactView::Remote { source_name, subpath } => fresh(
            entry,
            Some(
                RemoteTreeView { base_url: config.remote_source@[source_name].base_url@, subpath },
            ),
            Seq::empty(),
        ),
        ArtifactView::Local { .. } => fresh(entry, None, Seq::empty()),
    }
}

/// The making of the composite of a plan, before its first event.
pub open spec fn making_of_composite(
    uri: Seq<char>,
    plan: PlanView,
    composite: EntryView,
    config: Config,
) -> MakingView {
    fresh(
        composite,
        None,
        composite_script(composite.tmp, sources_of(plan.artifacts, config), uri, plan.kind),
    )
}

/// The request turns to the first artifact from `from` on that has a cache
/// entry, or to the composite where none is left.
pub open spec fn enter(
    uri: Seq<char>,
    plan: PlanView,
    composite: EntryView,
    config: Config,
    from: int,
) -> (RequestView, ActionView) {
    let i = next_cached(plan.artifacts, config, from);
    if i < plan.artifacts.len() {
        let entry = cache_entry_of(
            plan.artifacts[i],
            config.local_cache@,
            config.source_names(),
        )->0;
        (
            RequestView {
                uri,
                plan,
                composite,
                stage: Stage::Artifacts,
                index: i as nat,
                making: making_of(plan.artifacts[i], entry, config),
            },
            first_action(entry),
        )
    } else {
        (
            RequestView {
                uri,
                plan,
                composite,
                stage: Stage::Composite,
                index: plan.artifacts.len(),
                making: making_of_composite(uri, plan, composite, config),
            },
            first_action(composite),
        )
    }
}

/// How a request begins: with the first action of its first making, or with
/// a refusal where its path gives no plan.
pub open spec fn begin(uri: Seq<char>, config: Config) -> Result<
    (RequestView, ActionView),
    RefusalView,
> {
    match parse_uri(uri, config.source_names()) {
        Ok(plan) => Ok(
            enter(
                uri,
                plan,
                composite_entry_of(config.composites_cache@, composite_name(plan)),
                config,
                0,
            ),
        ),
        Err(e) => Err(refusal_of(e)),
    }
}

/// The request is over.
pub open spec fn over(r: RequestView, making: MakingView, reply: ReplyView) -> (
    RequestView,
    ReplyView,
) {
    (RequestView { stage: Stage::Over, making, ..r }, reply)
}

/// What the handler does with an event. The making that is under way takes
/// it. While that asks for more, the request passes it on; when it fails, the
/// request is refused; when it has succeeded, the request turns to the next
/// making, and after the composite to the file that was asked for.
pub open spec fn handle(r: RequestView, config: Config, event: EventView) -> (
    RequestView,
    ReplyView,
) {
    let (making, next) = step(r.making, event);
    match (r.stage, next) {
        (Stage::Over, _) => over(r, making, ReplyView::Refuse(refusal_of(unexpected()))),
        (_, NextView::Do(action)) => (RequestView { making, ..r }, ReplyView::Do(action)),
        (_, NextView::Finished(Err(e))) => over(r, making, ReplyView::Refuse(refusal_of(e))),
        (Stage::Artifacts, NextView::Finished(Ok(_))) => {
            let (entered, action) = enter(r.uri, r.plan, r.composite, config, r.index as int + 1);
            (entered, ReplyView::Do(action))
        },
        (Stage::Composite, NextView::Finished(Ok(_))) => over(
            r,
            making,
            ReplyView::Serve { root: r.composite.path, path: r.plan.sub_uri },
        ),
    }
}

/// Every refusal has status 400.
pub proof fn lemma_refusals_are_400(r: RequestView, config: Config, event: EventView)
    ensures
        handle(r, config, event).1 matches ReplyView::Refuse(refusal) ==> refusal.status == 400,
        begin(r.uri, config) matches Err(refusal) ==> refusal.status == 400,
{
}

/// A file is served only when the making of the composite has just ended
/// with success, and then from the composite's final place.
pub proof fn lemma_served_from_finished_composite(
    r: RequestView,
    config: Config,
    event: EventView,
)
    ensures
        handle(r, config, event).1 matches ReplyView::Serve { root, path } ==> {
            &&& r.stage == Stage::Composite
            &&& step(r.making, event).1 == NextView::Finished(Ok(()))
            &&& root == r.composite.path
            &&& path == r.plan.sub_uri
        },
{
}

/// The artifacts are made in the order of the plan: a request turns to a
/// later place in the plan, or to the composite, only when the making under
/// way has ended with success, and never turns back.
pub proof fn lemma_artifacts_in_order(r: RequestView, config: Config, event: EventView)
    requires
        r.stage == Stage::Artifacts,
        r.index < r.plan.artifacts.len(),
    ensures
        ({
            let after = handle(r, config, event).0;
            &&& after.stage == Stage::Artifacts ==> after.index >= r.index
            &&& (after.stage == Stage::Artifacts && after.index != r.index) || after.stage
                == Stage::Composite ==> {
                &&& step(r.making, event).1 == NextView::Finished(Ok(()))
                &&& after.index > r.index
                &&& forall|k: int|
                    r.index < k < after.index ==> cache_entry_of(
                        #[trigger] r.plan.artifacts[k],
                        config.local_cache@,
                        config.source_names(),
                    ) is None
            }
        }),
{
    lemma_next_cached(r.plan.artifacts, config, r.index as int + 1);
}

/// A request begins with a look at the final place of the first thing it
/// has to make.
pub proof fn lemma_request_begins_with_a_look(uri: Seq<char>, config: Config)
    ensures
        begin(uri, config) matches Ok((r, action)) ==> {
            &&& r.stage != Stage::Over
            &&& r.making.phase == Phase::FastCheck
            &&& action == first_action(r.making.entry)
        },
{
}

/// Idempotent materialization of what a request makes. A request that finds
/// the thing it looks for turns to the next one with nothing but a look at
/// its final place, and after the composite to the file that was asked for:
/// where all is there already, a request asks for nothing but looks.
pub proof fn lemma_cached_request_only_looks(r: RequestView, config: Config)
    requires
        r.stage != Stage::Over,
        r.making.phase == Phase::FastCheck,
    ensures
        ({
            let (after, reply) = handle(r, config, EventView::Exists(true));
            match reply {
                ReplyView::Serve { root, path } => {
                    &&& r.stage == Stage::Composite
                    &&& root == r.composite.path
                    &&& path == r.plan.sub_uri
                },
                ReplyView::Do(action) => {
                    &&& r.stage == Stage::Artifacts
                    &&& after.stage != Stage::Over
                    &&& after.making.phase == Phase::FastCheck
                    &&& action == first_action(after.making.entry)
                },
                ReplyView::Refuse(_) => false,
            }
        }),
{
}

/// Atomic publication of what a request makes. In the making of the cache
/// entry of a job, of a remote tree whose subpath is not the name of the lock
/// file, and of a composite, at any moment and whatever the world answers,
/// the only action that names the entry's final place, or a path below it,
/// as its target is the renaming of the finished temporary directory.
pub proof fn lemma_request_publishes_atomically(
    uri: Seq<char>,
    plan: PlanView,
    config: Config,
    i: int,
    events: Seq<EventView>,
    event: EventView,
)
    requires
        0 <= i <= plan.artifacts.len(),
        i < plan.artifacts.len() ==> cache_entry_of(
            plan.artifacts[i],
            config.local_cache@,
            config.source_names(),
        ) is Some,
        i < plan.artifacts.len() ==> (plan.artifacts[i] matches ArtifactView::Remote {
            subpath,
            ..
        } ==> subpath != lock_name()),
    ensures
        ({
            let composite = composite_entry_of(config.composites_cache@, composite_name(plan));
            let entry = if i < plan.artifacts.len() {
                cache_entry_of(plan.artifacts[i], config.local_cache@, config.source_names())->0
            } else {
                composite
            };
            let making = if i < plan.artifacts.len() {
                making_of(plan.artifacts[i], entry, config)
            } else {
                making_of_composite(uri, plan, composite, config)
            };
            step(state_after(making, events), event).1 matches NextView::Do(action) ==> (target_of(
                action,
            ) matches Some(target) ==> touches(target, entry.path) ==> action
                == ActionView::Rename { from: entry.tmp, to: entry.path })
        }),
{
    let composite = composite_entry_of(config.composites_cache@, composite_name(plan));
    if i < plan.artifacts.len() {
        let entry = cache_entry_of(
            plan.artifacts[i],
            config.local_cache@,
            config.source_names(),
        )->0;
        match plan.artifacts[i] {
            ArtifactView::GitlabJob { source_name, project, job_id } => {
                let dir = child(child(config.local_cache@, source_name), project);
                let name = decimal_text(job_id as nat);
                lemma_decimal_text_digits(job_id as nat);
                assert(name != lock_name()) by {
                    assert(is_digit(name[0]));
                    assert(lock_name()[0] == 'l');
                }
                lemma_job_script_within(entry.tmp, source_name, project, job_id);
                lemma_only_rename_touches_entry(
                    dir,
                    name,
                    None,
                    job_script(entry.tmp, source_name, project, job_id),
                    events,
                    event,
                );
            },
            ArtifactView::Remote { source_name, subpath } => {
                let dir = child(config.local_cache@, source_name);
                lemma_only_rename_touches_entry(
                    dir,
                    subpath,
                    Some(
                        RemoteTreeView {
                            base_url: config.remote_source@[source_name].base_url@,
                            subpath,
                        },
                    ),
                    Seq::empty(),
                    events,
                    event,
                );
            },
            ArtifactView::Local { .. } => {},
        }
    } else {
        let digest = sha256(encode_utf8(canonical_text(plan)));
        lemma_composite_entry_stays_below(config.composites_cache@, digest);
        let script = composite_script(
            composite.tmp,
            sources_of(plan.artifacts, config),
            uri,
            plan.kind,
        );
        lemma_composite_script_within(
            composite.tmp,
            sources_of(plan.artifacts, config),
            uri,
            plan.kind,
        );
        lemma_only_rename_touches_entry(
            config.composites_cache@,
            composite_name(plan),
            None,
            script,
            events,
            event,
        );
    }
}

/// The place that `next_cached` gives is the first with a cache entry.
pub proof fn lemma_next_cached(artifacts: Seq<ArtifactView>, config: Config, from: int)
    requires
        0 <= from <= artifacts.len(),
    ensures
        from <= next_cached(artifacts, config, from) <= artifacts.len(),
        next_cached(artifacts, config, from) < artifacts.len() ==> cache_entry_of(
            artifacts[next_cached(artifacts, config, from)],
            config.local_cache@,
            config.source_names(),
        ) is Some,
        forall|k: int|
            from <= k < next_cached(artifacts, config, from) ==> cache_entry_of(
                #[trigger] artifacts[k],
                config.local_cache@,
                config.source_names(),
            ) is None,
    decreases artifacts.len() - from,
{
    if from < artifacts.len() && cache_entry_of(
        artifacts[from],
        config.local_cache@,
        config.source_names(),
    ) is None {
        lemma_next_cached(artifacts, config, from + 1);
    }
}

/// The refusal for an error.
pub fn refuse(e: &Error) -> (refusal: Refusal)
    ensures
        refusal@ == refusal_of(e@),
{
    Refusal { status: 400, body: e.render() }
}

/// The same paths once more.
fn duplicate_entry(entry: &Entry) -> (copy: Entry)
    ensures
        copy@ == entry@,
{
    Entry {
        path: entry.path.clone(),
        tmp: entry.tmp.clone(),
        lock: entry.lock.clone(),
        lock_dir: entry.lock_dir.clone(),
    }
}

/// The making of an artifact's cache entry, with its first action.
fn begin_artifact(artifact: &Artifact, entry: Entry, config: &Config) -> (started: (Making, Action))
    requires
        cache_entry_of(artifact@, config.local_cache@, config.source_names()) == Some(entry@),
    ensures
        started.0@ == making_of(artifact@, entry@, *config),
        started.1@ == first_action(entry@),
{
    match artifact {
        Artifact::GitlabJob(job) => {
            let script = job_actions(
                entry.tmp.as_str(),
                job.source_name.as_str(),
                job.project.as_str(),
                job.job_id,
            );
            Making::begin(entry, script)
        },
        Artifact::Remote(remote) => {
            match config.remote_source.get(&remote.source_name) {
                Some(source) => Making::begin_remote(
                    entry,
                    RemoteTree {
                        base_url: source.base_url.clone(),
                        subpath: remote.subpath.clone(),
                    },
                ),
                None => {
                    proof {
                        assert(false);
                    }
                    Making::begin(entry, Vec::new())
                },
            }
        },
        Artifact::Local(_) => {
            proof {
                assert(false);
            }
            Making::begin(entry, Vec::new())
        },
    }
}

/// The first making from place `from` of the plan on, with its first action.
fn enter_from(uri: String, plan: Plan, composite: Entry, config: &Config, from: usize) -> (entered: (
    Request,
    Action,
))
    requires
        from <= plan.artifacts@.len(),
    ensures
        (entered.0@, entered.1@) == enter(uri@, plan@, composite@, *config, from as int),
{
    let mut i: usize = from;
    let ghost artifacts = plan@.artifacts;
    let ghost target = next_cached(artifacts, *config, from as int);
    while i < plan.artifacts.len()
        invariant
            from <= i <= plan.artifacts@.len(),
            artifacts == plan@.artifacts,
            target == next_cached(artifacts, *config, from as int),
            target == next_cached(artifacts, *config, i as int),
        decreases plan.artifacts@.len() - i,
    {
        assert(artifacts[i as int] == plan.artifacts@[i as int]@);
        match plan.artifacts[i].cache_entry(config) {
            Some(entry) => {
                let (making, action) = begin_artifact(&plan.artifacts[i], entry, config);
                return (
                    Request { uri, plan, composite, stage: Stage::Artifacts, index: i, making },
                    action,
                );
            },
            None => {},
        }
        i += 1;
    }
    let script = plan.composite_actions(config, composite.tmp.as_str(), uri.as_str());
    let (making, action) = Making::begin(duplicate_entry(&composite), script);
    (Request { uri, plan, composite, stage: Stage::Composite, index: i, making }, action)
}

impl Request {
    /// Takes a request path and says how to begin: with an action, or with a
    /// refusal.
    pub fn begin(uri: &str, config: &Config) -> (started: Result<(Request, Action), Refusal>)
        ensures
            match started {
                Ok((request, action)) => begin(uri@, *config) == Ok::<
                    (RequestView, ActionView),
                    RefusalView,
                >((request@, action@)),
                Err(refusal) => begin(uri@, *config) == Err::<
                    (RequestView, ActionView),
                    RefusalView,
                >(refusal@),
            },
    {
        match Plan::from_uri(uri, config) {
            Ok(plan) => {
                let name = plan.to_composite_path();
                let composite = composite_entry(config, name.as_str());
                Ok(enter_from(uri.to_owned(), plan, composite, config, 0))
            },
            Err(e) => Err(refuse(&e)),
        }
    }

    /// Takes what came of the last action and says what to do next.
    pub fn advance(self, config: &Config, event: Event) -> (next: (Request, Reply))
        ensures
            (next.0@, next.1@) == handle(self@, *config, event@),
    {
        let Request { uri, plan, composite, stage, index, making } = self;
        let mut making = making;
        let next = making.advance(event);
        match stage {
            Stage::Over => {
                let refusal = refuse(&Error::Internal("unexpected event".to_owned()));
                (
                    Request { uri, plan, composite, stage: Stage::Over, index, making },
                    Reply::Refuse(refusal),
                )
            },
            Stage::Artifacts => match next {
                Next::Do(action) => (
                    Request { uri, plan, composite, stage, index, making },
                    Reply::Do(action),
                ),
                Next::Finished(Err(e)) => (
                    Request { uri, plan, composite, stage: Stage::Over, index, making },
                    Reply::Refuse(refuse(&e)),
                ),
                Next::Finished(Ok(_)) => {
                    let from = if index < plan.artifacts.len() {
                        index + 1
                    } else {
                        plan.artifacts.len()
                    };
                    proof {
                        if index >= plan.artifacts@.len() {
                            assert(next_cached(plan@.artifacts, *config, index + 1)
                                == plan@.artifacts.len());
                            assert(next_cached(plan@.artifacts, *config, from as int)
                                == plan@.artifacts.len());
                        }
                    }
                    let (request, action) = enter_from(uri, plan, composite, config, from);
                    (request, Reply::Do(action))
                },
            },
            Stage::Composite => match next {
                Next::Do(action) => (
                    Request { uri, plan, composite, stage, index, making },
                    Reply::Do(action),
                ),
                Next::Finished(Err(e)) => (
                    Request { uri, plan, composite, stage: Stage::Over, index, making },
                    Reply::Refuse(refuse(&e)),
                ),
                Next::Finished(Ok(_)) => {
                    let root = composite.path.clone();
                    let path = plan.sub_uri.clone();
                    (
                        Request { uri, plan, composite, stage: Stage::Over, index, making },
                        Reply::Serve { root, path },
                    )
                },
            },
        }
    }
}

} // verus!
