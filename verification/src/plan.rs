//! Plans: what a request path asks for.
//!
//! A request path is cut at `/-/` into items. An item that begins with `rpm`
//! gives the path inside the composite; every other item begins with the name
//! of a configured source and names one artifact of it.

use crate::config::Config;
use crate::config::SourceNames;
use crate::error::Error;
use crate::error::ErrorView;
use crate::pattern::regex_search;
use crate::pattern::search;
use crate::text::append_chars;
use crate::text::chars_of;
use crate::text::copy_chars;
use crate::text::join;
use crate::text::join_between;
use crate::text::join_text;
use crate::text::lemma_split_nonempty;
use crate::text::parse_decimal;
use crate::text::parse_u64;
use crate::text::split;
use crate::text::split_text;
use crate::text::string_of;
use crate::text::views;
use vstd::prelude::*;

verus! {

/// A repository flavour that a composite can be indexed as.
#[derive(Clone, Copy, Debug, PartialEq, Eq, Structural)]
pub enum Kind {
    RPM,
}

/// The artifacts of one CI job.
#[derive(Clone, Debug, PartialEq, Eq)]
pub struct JobArtifact {
    pub source_name: String,
    pub project: String,
    pub job_id: u64,
}

/// A subtree of a local directory.
#[derive(Clone, Debug, PartialEq, Eq)]
pub struct LocalArtifact {
    pub source_name: String,
    pub key: String,
}

/// A tree below a static remote source.
#[derive(Clone, Debug, PartialEq, Eq)]
pub struct StaticRemoteArtifact {
    pub source_name: String,
    pub subpath: String,
}

/// One contribution to a composite.
#[derive(Clone, Debug, PartialEq, Eq)]
pub enum Artifact {
    GitlabJob(JobArtifact),
    Local(LocalArtifact),
    Remote(StaticRemoteArtifact),
}

/// What a request asks for: the artifacts in the order of the request, the
/// path to read inside the composite, and the kind of repository.
#[derive(Clone, Debug, PartialEq, Eq)]
pub struct Plan {
    pub artifacts: Vec<Artifact>,
    pub sub_uri: String,
    pub kind: Kind,
}

/// An artifact with its texts as sequences of characters.
pub enum ArtifactView {
    GitlabJob { source_name: Seq<char>, project: Seq<char>, job_id: u64 },
    Local { source_name: Seq<char>, key: Seq<char> },
    Remote { source_name: Seq<char>, subpath: Seq<char> },
}

/// A plan with its texts as sequences of characters.
pub struct PlanView {
    pub artifacts: Seq<ArtifactView>,
    pub sub_uri: Seq<char>,
    pub kind: Kind,
}

impl View for Artifact {
    type V = ArtifactView;

    open spec fn view(&self) -> ArtifactView {
        match self {
            Artifact::GitlabJob(job) => ArtifactView::GitlabJob {
                source_name: job.source_name@,
                project: job.project@,
                job_id: job.job_id,
            },
            Artifact::Local(local) => ArtifactView::Local {
                source_name: local.source_name@,
                key: local.key@,
            },
            Artifact::Remote(remote) => ArtifactView::Remote {
                source_name: remote.source_name@,
                subpath: remote.subpath@,
            },
        }
    }
}

/// The views of a list of artifacts.
pub open spec fn artifact_views(artifacts: Seq<Artifact>) -> Seq<ArtifactView> {
    Seq::new(artifacts.len(), |i: int| artifacts[i]@)
}

impl View for Plan {
    type V = PlanView;

    open spec fn view(&self) -> PlanView {
        PlanView {
            artifacts: artifact_views(self.artifacts@),
            sub_uri: self.sub_uri@,
            kind: self.kind,
        }
    }
}

/// What one item of a request path means.
#[derive(Clone, Debug, PartialEq, Eq)]
pub enum Item {
    /// The path to read inside the composite.
    SubUri(String),
    /// One more artifact.
    Artifact(Artifact),
    /// A source name with nothing behind it: the item adds nothing.
    Nothing,
    /// The item has no meaning.
    Reject(Error),
}

pub enum ItemView {
    SubUri(Seq<char>),
    Artifact(ArtifactView),
    Nothing,
    Reject(ErrorView),
}

impl View for Item {
    type V = ItemView;

    open spec fn view(&self) -> ItemView {
        match self {
            Item::SubUri(s) => ItemView::SubUri(s@),
            Item::Artifact(a) => ItemView::Artifact(a@),
            Item::Nothing => ItemView::Nothing,
            Item::Reject(e) => ItemView::Reject(e@),
        }
    }
}

/// The separator of path segments.
pub open spec fn slash() -> Seq<char> {
    seq!['/']
}

/// The separator of the items of a request path.
pub open spec fn item_separator() -> Seq<char> {
    seq!['/', '-', '/']
}

/// The segment that names the parent directory.
pub open spec fn dotdot() -> Seq<char> {
    seq!['.', '.']
}

/// The first part of the item that gives the path inside the composite.
pub open spec fn sub_uri_prefix() -> Seq<char> {
    seq!['r', 'p', 'm']
}

/// The regular expression that a project name has to match somewhere.
pub open spec fn project_pattern() -> Seq<char> {
    "[/a-z0-9_-]+"@
}

pub open spec fn not_dotdot() -> spec_fn(Seq<char>) -> bool {
    |part: Seq<char>| part != dotdot()
}

/// The parts that are not `..`, in their order.
pub open spec fn without_dotdot(parts: Seq<Seq<char>>) -> Seq<Seq<char>> {
    parts.filter(not_dotdot())
}

/// What an item of a job server means, given the project, the text of the
/// job's number, and what the search for the project pattern in the project
/// found. The project is looked at first.
pub open spec fn job_item(
    source_name: Seq<char>,
    project: Seq<char>,
    job: Seq<char>,
    verdict: Option<bool>,
) -> ItemView {
    if verdict != Some(true) {
        ItemView::Reject(ErrorView::PlanParse(project + " invalid project name"@))
    } else {
        match parse_decimal(job) {
            Some(job_id) => ItemView::Artifact(
                ArtifactView::GitlabJob { source_name, project, job_id },
            ),
            None => ItemView::Reject(ErrorView::PlanParse(job + " invalid job id"@)),
        }
    }
}

/// What one item means. Its parts are what stands between its slashes; the
/// first names the source, and of the others those that are `..` count for
/// nothing.
pub open spec fn item_meaning(item: Seq<char>, names: SourceNames) -> ItemView {
    let parts = split_text(item, slash());
    let prefix = parts[0];
    let rest = without_dotdot(parts.skip(1));
    if prefix == sub_uri_prefix() {
        ItemView::SubUri(slash() + join_text(rest, slash()))
    } else if names.gitlabs.contains(prefix) {
        if rest.len() == 0 {
            ItemView::Nothing
        } else {
            let project = join_text(rest.drop_last(), slash());
            job_item(prefix, project, rest.last(), regex_search(project_pattern(), project))
        }
    } else if names.local_source.contains(prefix) {
        if rest.len() == 0 {
            ItemView::Nothing
        } else {
            ItemView::Artifact(ArtifactView::Local { source_name: prefix, key: rest.last() })
        }
    } else if names.remote_source.contains(prefix) {
        ItemView::Artifact(
            ArtifactView::Remote { source_name: prefix, subpath: join_text(rest, slash()) },
        )
    } else {
        ItemView::Reject(ErrorView::UnknownSource(prefix))
    }
}

/// The plan with nothing asked for.
pub open spec fn empty_plan() -> PlanView {
    PlanView { artifacts: Seq::empty(), sub_uri: Seq::empty(), kind: Kind::RPM }
}

/// A plan after one more item.
pub open spec fn plan_with(plan: PlanView, item: ItemView) -> Result<PlanView, ErrorView> {
    match item {
        ItemView::SubUri(sub_uri) => Ok(PlanView { sub_uri, ..plan }),
        ItemView::Artifact(a) => Ok(PlanView { artifacts: plan.artifacts.push(a), ..plan }),
        ItemView::Nothing => Ok(plan),
        ItemView::Reject(e) => Err(e),
    }
}

/// The plan that the items give, taken in their order. The first item without
/// a meaning decides the error.
pub open spec fn plan_of_items(items: Seq<Seq<char>>, names: SourceNames) -> Result<
    PlanView,
    ErrorView,
>
    decreases items.len(),
{
    if items.len() == 0 {
        Ok(empty_plan())
    } else {
        match plan_of_items(items.drop_last(), names) {
            Ok(plan) => plan_with(plan, item_meaning(items.last(), names)),
            Err(e) => Err(e),
        }
    }
}

/// The plan that a request path gives. What stands before the first slash is
/// left aside; a path with fewer than two slashes gives no plan.
pub open spec fn parse_uri(uri: Seq<char>, names: SourceNames) -> Result<PlanView, ErrorView> {
    let comps = split_text(uri, slash());
    if comps.len() <= 2 {
        Err(ErrorView::PlanParse("not enough components"@))
    } else {
        plan_of_items(split_text(join_text(comps.skip(1), slash()), item_separator()), names)
    }
}

/// Once the items so far have given an error, more items do not change it.
pub proof fn lemma_error_stays(items: Seq<Seq<char>>, names: SourceNames, upto: int)
    requires
        0 <= upto <= items.len(),
        plan_of_items(items.take(upto), names) is Err,
    ensures
        plan_of_items(items, names) == plan_of_items(items.take(upto), names),
    decreases items.len() - upto,
{
    if upto == items.len() {
        assert(items.take(upto) =~= items);
    } else {
        assert(items.take(upto + 1).drop_last() =~= items.take(upto));
        lemma_error_stays(items, names, upto + 1);
    }
}

/// Every error of the parser is of one of two kinds.
pub proof fn lemma_parse_errors_classified(uri: Seq<char>, names: SourceNames)
    ensures
        parse_uri(uri, names) matches Err(e) ==> e is PlanParse || e is UnknownSource,
{
    let comps = split_text(uri, slash());
    if comps.len() > 2 {
        lemma_items_errors_classified(
            split_text(join_text(comps.skip(1), slash()), item_separator()),
            names,
        );
    }
}

proof fn lemma_items_errors_classified(items: Seq<Seq<char>>, names: SourceNames)
    ensures
        plan_of_items(items, names) matches Err(e) ==> e is PlanParse || e is UnknownSource,
    decreases items.len(),
{
    if items.len() > 0 {
        lemma_items_errors_classified(items.drop_last(), names);
    }
}

pub fn slash_chars() -> (v: Vec<char>)
    ensures
        v@ == slash(),
{
    let mut v: Vec<char> = Vec::new();
    v.push('/');
    assert(v@ =~= slash());
    v
}

fn item_separator_chars() -> (v: Vec<char>)
    ensures
        v@ == item_separator(),
{
    let mut v: Vec<char> = Vec::new();
    v.push('/');
    v.push('-');
    v.push('/');
    assert(v@ =~= item_separator());
    v
}

fn is_dotdot(part: &[char]) -> (yes: bool)
    ensures
        yes == (part@ == dotdot()),
{
    let yes = part.len() == 2 && part[0] == '.' && part[1] == '.';
    assert(yes ==> part@ =~= dotdot());
    yes
}

fn is_sub_uri_prefix(part: &[char]) -> (yes: bool)
    ensures
        yes == (part@ == sub_uri_prefix()),
{
    let yes = part.len() == 3 && part[0] == 'r' && part[1] == 'p' && part[2] == 'm';
    assert(yes ==> part@ =~= sub_uri_prefix());
    yes
}

/// The parts from `from` on that are not `..`.
pub(crate) fn keep_without_dotdot(parts: &Vec<Vec<char>>, from: usize) -> (kept: Vec<Vec<char>>)
    requires
        from <= parts@.len(),
    ensures
        views(kept@) == without_dotdot(views(parts@).skip(from as int)),
{
    let mut kept: Vec<Vec<char>> = Vec::new();
    let mut i: usize = from;
    proof {
        reveal(Seq::filter);
        assert(views(parts@).subrange(from as int, i as int) =~= Seq::<Seq<char>>::empty());
        assert(views(kept@) =~= Seq::<Seq<char>>::empty());
    }
    while i < parts.len()
        invariant
            from <= i <= parts@.len(),
            views(kept@) == without_dotdot(views(parts@).subrange(from as int, i as int)),
        decreases parts@.len() - i,
    {
        let ghost seen = views(parts@).subrange(from as int, i as int);
        let ghost more = views(parts@).subrange(from as int, i + 1);
        assert(more =~= seen.push(parts@[i as int]@));
        proof {
            seen.lemma_filter_push(parts@[i as int]@, not_dotdot());
        }
        let ghost before = views(kept@);
        if !is_dotdot(parts[i].as_slice()) {
            kept.push(copy_chars(parts[i].as_slice()));
            assert(views(kept@) =~= before.push(parts@[i as int]@));
        }
        i += 1;
    }
    assert(views(parts@).subrange(from as int, parts@.len() as int) =~= views(parts@).skip(
        from as int,
    ));
    kept
}

/// `head` followed by `tail`, as a string.
fn concat(head: &[char], tail: &str) -> (out: String)
    ensures
        out@ == head@ + tail@,
{
    let mut chars = copy_chars(head);
    let more = chars_of(tail);
    append_chars(&mut chars, more.as_slice());
    string_of(chars.as_slice())
}

/// What an item of a job server means, given the project, the text of the
/// job's number, and what the search for the project pattern in the project
/// found.
pub fn job_item_of(source_name: String, project: String, job: &[char], verdict: Option<bool>) -> (item:
    Item)
    ensures
        item@ == job_item(source_name@, project@, job@, verdict),
{
    let accepted = match verdict {
        Some(found) => found,
        None => false,
    };
    if !accepted {
        let project_chars = chars_of(project.as_str());
        return Item::Reject(
            Error::PlanParse(concat(project_chars.as_slice(), " invalid project name")),
        );
    }
    match parse_u64(job) {
        Some(job_id) => Item::Artifact(
            Artifact::GitlabJob(JobArtifact { source_name, project, job_id }),
        ),
        None => Item::Reject(Error::PlanParse(concat(job, " invalid job id"))),
    }
}

/// What one item of a request path means under a configuration.
pub fn item_of(item: &[char], config: &Config) -> (meaning: Item)
    ensures
        meaning@ == item_meaning(item@, config.source_names()),
{
    let sep = slash_chars();
    let parts = split(item, sep.as_slice());
    proof {
        lemma_split_nonempty(item@, slash());
    }
    let kept = keep_without_dotdot(&parts, 1);
    let ghost rest = without_dotdot(views(parts@).skip(1));
    if is_sub_uri_prefix(parts[0].as_slice()) {
        let path = join(kept.as_slice(), sep.as_slice());
        let mut sub_uri = copy_chars(sep.as_slice());
        append_chars(&mut sub_uri, path.as_slice());
        return Item::SubUri(string_of(sub_uri.as_slice()));
    }
    let source_name = string_of(parts[0].as_slice());
    if config.gitlabs.contains(&source_name) {
        if kept.len() == 0 {
            return Item::Nothing;
        }
        let last = kept.len() - 1;
        assert(views(kept@).subrange(0, last as int) =~= rest.drop_last());
        let project = string_of(join_between(kept.as_slice(), 0, last, sep.as_slice()).as_slice());
        let verdict = search("[/a-z0-9_-]+", project.as_str());
        job_item_of(source_name, project, kept[last].as_slice(), verdict)
    } else if config.local_source.contains(&source_name) {
        if kept.len() == 0 {
            return Item::Nothing;
        }
        let last = kept.len() - 1;
        Item::Artifact(
            Artifact::Local(LocalArtifact { source_name, key: string_of(kept[last].as_slice()) }),
        )
    } else if config.remote_source.contains(&source_name) {
        let subpath = string_of(join(kept.as_slice(), sep.as_slice()).as_slice());
        Item::Artifact(Artifact::Remote(StaticRemoteArtifact { source_name, subpath }))
    } else {
        Item::Reject(Error::UnknownSource(source_name))
    }
}

impl Plan {
    /// The plan that a request path gives under a configuration, or why it
    /// gives none.
    pub fn from_uri(uri: &str, config: &Config) -> (result: Result<Plan, Error>)
        ensures
            match result {
                Ok(plan) => parse_uri(uri@, config.source_names()) == Ok::<PlanView, ErrorView>(
                    plan@,
                ),
                Err(e) => parse_uri(uri@, config.source_names()) == Err::<PlanView, ErrorView>(e@),
            },
    {
        let chars = chars_of(uri);
        let sep = slash_chars();
        let comps = split(chars.as_slice(), sep.as_slice());
        if comps.len() <= 2 {
            return Err(Error::PlanParse("not enough components".to_owned()));
        }
        assert(views(comps@).subrange(1, comps@.len() as int) =~= views(comps@).skip(1));
        let rest = join_between(comps.as_slice(), 1, comps.len(), sep.as_slice());
        let separator = item_separator_chars();
        let items = split(rest.as_slice(), separator.as_slice());
        let ghost names = config.source_names();
        let ghost all = views(items@);
        let mut artifacts: Vec<Artifact> = Vec::new();
        let mut sub_uri = String::new();
        let mut i: usize = 0;
        assert(all.take(0) =~= Seq::<Seq<char>>::empty());
        assert(artifact_views(artifacts@) =~= Seq::<ArtifactView>::empty());
        while i < items.len()
            invariant
                i <= items@.len(),
                all == views(items@),
                names == config.source_names(),
                parse_uri(uri@, names) == plan_of_items(all, names),
                plan_of_items(all.take(i as int), names) == Ok::<PlanView, ErrorView>(
                    PlanView {
                        artifacts: artifact_views(artifacts@),
                        sub_uri: sub_uri@,
                        kind: Kind::RPM,
                    },
                ),
            decreases items@.len() - i,
        {
            assert(all.take(i + 1).drop_last() =~= all.take(i as int));
            assert(all.take(i + 1).last() == items@[i as int]@);
            let ghost before = artifact_views(artifacts@);
            match item_of(items[i].as_slice(), config) {
                Item::SubUri(path) => {
                    sub_uri = path;
                },
                Item::Artifact(artifact) => {
                    artifacts.push(artifact);
                    assert(artifact_views(artifacts@) =~= before.push(artifact@));
                },
                Item::Nothing => {},
                Item::Reject(e) => {
                    proof {
                        lemma_error_stays(all, names, i + 1);
                    }
                    return Err(e);
                },
            }
            i += 1;
        }
        assert(all.take(items@.len() as int) =~= all);
        Ok(Plan { artifacts, sub_uri, kind: Kind::RPM })
    }
}

} // verus!
