//! Where things are on disk: the entries of the two caches, and why no path
//! that a request shapes leaves the directory it belongs under.

use crate::config::Config;
use crate::config::SourceNames;
use crate::digest::hex_text;
use crate::digest::lemma_hex_text_digits;
use crate::error::ErrorView;
use crate::plan::Artifact;
use crate::plan::ArtifactView;
use crate::plan::dotdot;
use crate::plan::item_meaning;
use crate::plan::item_separator;
use crate::plan::ItemView;
use crate::plan::not_dotdot;
use crate::plan::parse_uri;
use crate::plan::plan_of_items;
use crate::plan::PlanView;
use crate::plan::slash;
use crate::plan::without_dotdot;
use crate::text::append_str;
use crate::text::chars_of;
use crate::text::decimal;
use crate::text::decimal_text;
use crate::text::is_digit;
use crate::text::join_text;
use crate::text::lemma_decimal_text_digits;
use crate::text::lemma_split_append_plain;
use crate::text::lemma_split_concat;
use crate::text::lemma_split_join;
use crate::text::lemma_split_nonempty;
use crate::text::lemma_split_parts_plain;
use crate::text::lemma_split_plain;
use crate::text::split_text;
use crate::text::string_of;
use vstd::prelude::*;

verus! {

/// The path of `name` inside the directory `dir`.
pub open spec fn child(dir: Seq<char>, name: Seq<char>) -> Seq<char> {
    dir + slash() + name
}

/// What is written behind the name of an entry while it is being made.
pub open spec fn tmp_suffix() -> Seq<char> {
    seq!['.', 't', 'm', 'p']
}

/// The name of the file that is locked while an entry is being made.
pub open spec fn lock_name() -> Seq<char> {
    seq!['l', 'o', 'c', 'k']
}

/// The paths of one cache entry.
#[derive(Clone, Debug, PartialEq, Eq)]
pub struct Entry {
    /// Where the finished entry stands.
    pub path: String,
    /// Where it is put together.
    pub tmp: String,
    /// The file whose lock guards the making.
    pub lock: String,
    /// The directory of the lock file.
    pub lock_dir: String,
}

pub struct EntryView {
    pub path: Seq<char>,
    pub tmp: Seq<char>,
    pub lock: Seq<char>,
    pub lock_dir: Seq<char>,
}

impl View for Entry {
    type V = EntryView;

    open spec fn view(&self) -> EntryView {
        EntryView {
            path: self.path@,
            tmp: self.tmp@,
            lock: self.lock@,
            lock_dir: self.lock_dir@,
        }
    }
}

/// The entry named `name` in the directory `dir`, with its lock in
/// `lock_dir`.
pub open spec fn entry_in(lock_dir: Seq<char>, dir: Seq<char>, name: Seq<char>) -> EntryView {
    EntryView {
        path: child(dir, name),
        tmp: child(dir, name) + tmp_suffix(),
        lock: child(lock_dir, lock_name()),
        lock_dir,
    }
}

/// The name of the source of an artifact.
pub open spec fn source_name_of(artifact: ArtifactView) -> Seq<char> {
    match artifact {
        ArtifactView::GitlabJob { source_name, .. } => source_name,
        ArtifactView::Local { source_name, .. } => source_name,
        ArtifactView::Remote { source_name, .. } => source_name,
    }
}

/// The cache entry of an artifact: for a job, its number below its project
/// below its source, locked beside it; for a remote tree, its subpath below
/// its source, locked in the source's directory. A local artifact has none,
/// nor has an artifact whose source is not configured.
pub open spec fn cache_entry_of(
    artifact: ArtifactView,
    local_cache: Seq<char>,
    names: SourceNames,
) -> Option<EntryView> {
    match artifact {
        ArtifactView::GitlabJob { source_name, project, job_id } => {
            if names.gitlabs.contains(source_name) {
                let dir = child(child(local_cache, source_name), project);
                Some(entry_in(dir, dir, decimal_text(job_id as nat)))
            } else {
                None
            }
        },
        ArtifactView::Local { .. } => None,
        ArtifactView::Remote { source_name, subpath } => {
            if names.remote_source.contains(source_name) {
                let dir = child(local_cache, source_name);
                Some(entry_in(dir, dir, subpath))
            } else {
                None
            }
        },
    }
}

/// Where the files of an artifact are once it is there: its cache entry, or
/// for a local artifact its key below the root of its source. `None` where
/// the source is not configured.
pub open spec fn source_path_of(artifact: ArtifactView, config: Config) -> Option<Seq<char>> {
    match artifact {
        ArtifactView::Local { source_name, key } => {
            if config.local_source@.contains_key(source_name) {
                Some(child(config.local_source@[source_name].root@, key))
            } else {
                None
            }
        },
        _ => match cache_entry_of(artifact, config.local_cache@, config.source_names()) {
            Some(entry) => Some(entry.path),
            None => None,
        },
    }
}

/// The directory that the paths of an artifact must stay below.
pub open spec fn root_of(artifact: ArtifactView, config: Config) -> Seq<char> {
    match artifact {
        ArtifactView::Local { source_name, .. } => config.local_source@[source_name].root@,
        _ => child(config.local_cache@, source_name_of(artifact)),
    }
}

/// The entry of the composite of that name.
pub open spec fn composite_entry_of(composites_cache: Seq<char>, name: Seq<char>) -> EntryView {
    entry_in(composites_cache, composites_cache, name)
}

/// The segments of a relative path.
pub open spec fn segments(rel: Seq<char>) -> Seq<Seq<char>> {
    split_text(rel, slash())
}

/// Whether a relative path only goes down: none of its segments is `..`.
pub open spec fn descends(rel: Seq<char>) -> bool {
    !segments(rel).contains(dotdot())
}

/// Whether `path` is `root`, a slash, and a relative path that only goes
/// down.
pub open spec fn stays_below(root: Seq<char>, path: Seq<char>) -> bool {
    &&& path.len() > root.len()
    &&& path.take(root.len() as int) == root
    &&& path[root.len() as int] == '/'
    &&& descends(path.skip(root.len() as int + 1))
}

/// Whether the texts of an artifact that come from a request only go down.
pub open spec fn artifact_descends(artifact: ArtifactView) -> bool {
    match artifact {
        ArtifactView::GitlabJob { project, .. } => descends(project),
        ArtifactView::Local { key, .. } => !key.contains('/') && key != dotdot(),
        ArtifactView::Remote { subpath, .. } => descends(subpath),
    }
}

/// Whether the path inside the composite is empty, or a slash and a relative
/// path that only goes down.
pub open spec fn sub_uri_descends(sub_uri: Seq<char>) -> bool {
    sub_uri.len() == 0 || (sub_uri[0] == '/' && descends(sub_uri.skip(1)))
}

/// A path written as a directory, a slash and a relative path that only goes
/// down stays below the directory.
pub proof fn lemma_child_stays_below(root: Seq<char>, rel: Seq<char>)
    requires
        descends(rel),
    ensures
        stays_below(root, child(root, rel)),
{
    let path = child(root, rel);
    assert(path.take(root.len() as int) =~= root);
    assert(path.skip(root.len() as int + 1) =~= rel);
}

/// A single segment that is not `..` only goes down.
pub proof fn lemma_descends_plain(name: Seq<char>)
    requires
        !name.contains('/'),
        name != dotdot(),
    ensures
        descends(name),
        segments(name) == seq![name],
{
    lemma_split_plain(name, '/');
    assert(slash() =~= seq!['/']);
}

/// Two relative paths that only go down, with a slash between them, only go
/// down.
pub proof fn lemma_descends_join(a: Seq<char>, b: Seq<char>)
    requires
        descends(a),
        descends(b),
    ensures
        descends(a + slash() + b),
{
    lemma_split_concat(a, b, '/');
    assert(slash() =~= seq!['/']);
    let whole = segments(a) + segments(b);
    if whole.contains(dotdot()) {
        let i = choose|i: int| 0 <= i < whole.len() && whole[i] == dotdot();
        if i < segments(a).len() {
            assert(segments(a)[i] == dotdot());
        } else {
            assert(segments(b)[i - segments(a).len()] == dotdot());
        }
    }
}

/// A relative path that only goes down still does with a suffix of three or
/// more characters, none of them a slash, written behind it.
pub proof fn lemma_descends_suffix(rel: Seq<char>, suffix: Seq<char>)
    requires
        descends(rel),
        !suffix.contains('/'),
        suffix.len() > 2,
    ensures
        descends(rel + suffix),
{
    lemma_split_append_plain(rel, suffix, '/');
    assert(slash() =~= seq!['/']);
    let parts = segments(rel);
    let grown = parts.drop_last().push(parts.last() + suffix);
    if grown.contains(dotdot()) {
        let i = choose|i: int| 0 <= i < grown.len() && grown[i] == dotdot();
        if i < parts.len() - 1 {
            assert(parts[i] == dotdot());
        } else {
            assert(grown[i].len() > 2);
        }
    }
}

/// Parts without a slash, none of them `..`, joined with slashes, only go
/// down.
pub proof fn lemma_descends_joined(parts: Seq<Seq<char>>)
    requires
        forall|i: int| 0 <= i < parts.len() ==> !(#[trigger] parts[i]).contains('/'),
        !parts.contains(dotdot()),
    ensures
        descends(join_text(parts, slash())),
{
    assert(slash() =~= seq!['/']);
    if parts.len() == 0 {
        let nothing = Seq::<char>::empty();
        assert(join_text(parts, slash()) == nothing);
        assert(!nothing.contains('/'));
        lemma_descends_plain(nothing);
    } else {
        lemma_split_join(parts, '/');
    }
}

/// What is left of the parts of an item once `..` is taken out: no part has a
/// slash, none is `..`.
proof fn lemma_kept_parts(item: Seq<char>, from: int)
    requires
        0 <= from <= split_text(item, slash()).len(),
    ensures
        ({
            let kept = without_dotdot(split_text(item, slash()).skip(from));
            &&& forall|i: int| 0 <= i < kept.len() ==> !(#[trigger] kept[i]).contains('/')
            &&& !kept.contains(dotdot())
        }),
{
    let parts = split_text(item, slash());
    let rest = parts.skip(from);
    let kept = without_dotdot(rest);
    assert(slash() =~= seq!['/']);
    lemma_split_parts_plain(item, '/');
    assert forall|i: int| 0 <= i < kept.len() implies !(#[trigger] kept[i]).contains('/') by {
        assert(kept.contains(kept[i]));
        rest.lemma_filter_contains_rev(not_dotdot(), kept[i]);
        let k = choose|k: int| 0 <= k < rest.len() && rest[k] == kept[i];
        assert(rest[k] == parts[k + from]);
    }
    if kept.contains(dotdot()) {
        let i = choose|i: int| 0 <= i < kept.len() && kept[i] == dotdot();
        rest.lemma_filter_pred(not_dotdot(), i);
    }
}

/// The artifact of an item only goes down, and so does the path inside the
/// composite that an item gives.
pub proof fn lemma_item_descends(item: Seq<char>, names: SourceNames)
    ensures
        match item_meaning(item, names) {
            ItemView::Artifact(artifact) => artifact_descends(artifact),
            ItemView::SubUri(sub_uri) => sub_uri_descends(sub_uri) && sub_uri.len() > 0,
            _ => true,
        },
{
    let parts = split_text(item, slash());
    lemma_split_nonempty(item, slash());
    lemma_kept_parts(item, 1);
    let kept = without_dotdot(parts.skip(1));
    match item_meaning(item, names) {
        ItemView::Artifact(ArtifactView::GitlabJob { project, .. }) => {
            let front = kept.drop_last();
            assert forall|i: int| 0 <= i < front.len() implies !(#[trigger] front[i]).contains(
                '/',
            ) by {
                assert(front[i] == kept[i]);
            }
            if front.contains(dotdot()) {
                let i = choose|i: int| 0 <= i < front.len() && front[i] == dotdot();
                assert(kept[i] == dotdot());
            }
            lemma_descends_joined(front);
        },
        ItemView::Artifact(ArtifactView::Local { key, .. }) => {
            assert(key == kept[kept.len() - 1]);
        },
        ItemView::Artifact(ArtifactView::Remote { subpath, .. }) => {
            lemma_descends_joined(kept);
        },
        ItemView::SubUri(sub_uri) => {
            lemma_descends_joined(kept);
            assert(sub_uri.skip(1) =~= join_text(kept, slash()));
        },
        _ => {},
    }
}

/// The artifacts of a plan that items give only go down, and so does its
/// path inside the composite.
pub proof fn lemma_items_descend(items: Seq<Seq<char>>, names: SourceNames)
    ensures
        plan_of_items(items, names) matches Ok(plan) ==> {
            &&& forall|i: int|
                0 <= i < plan.artifacts.len() ==> artifact_descends(#[trigger] plan.artifacts[i])
            &&& sub_uri_descends(plan.sub_uri)
        },
    decreases items.len(),
{
    if items.len() > 0 {
        lemma_items_descend(items.drop_last(), names);
        lemma_item_descends(items.last(), names);
    }
}

/// Path safety of the parser: in every plan that a request path gives, under
/// any configuration, the texts that come from the path only go down.
pub proof fn lemma_plan_descends(uri: Seq<char>, names: SourceNames)
    ensures
        parse_uri(uri, names) matches Ok(plan) ==> {
            &&& forall|i: int|
                0 <= i < plan.artifacts.len() ==> artifact_descends(#[trigger] plan.artifacts[i])
            &&& sub_uri_descends(plan.sub_uri)
        },
{
    let comps = split_text(uri, slash());
    if comps.len() > 2 {
        lemma_items_descend(split_text(join_text(comps.skip(1), slash()), item_separator()), names);
    }
}

/// The decimal text of a number is one segment that only goes down.
pub proof fn lemma_decimal_descends(n: nat)
    ensures
        !decimal_text(n).contains('/'),
        decimal_text(n) != dotdot(),
        descends(decimal_text(n)),
{
    lemma_decimal_text_digits(n);
    let t = decimal_text(n);
    if t.contains('/') {
        let i = choose|i: int| 0 <= i < t.len() && t[i] == '/';
        assert(is_digit(t[i]));
    }
    if t == dotdot() {
        assert(is_digit(t[0]));
        assert(dotdot()[0] == '.');
    }
    lemma_descends_plain(t);
}

/// Path safety of the artifact cache: the entry of an artifact that only
/// goes down stands, is put together and is locked below the directory of
/// its source in the cache.
pub proof fn lemma_cache_entry_stays_below(
    artifact: ArtifactView,
    local_cache: Seq<char>,
    names: SourceNames,
)
    requires
        artifact_descends(artifact),
    ensures
        cache_entry_of(artifact, local_cache, names) matches Some(entry) ==> {
            let root = child(local_cache, source_name_of(artifact));
            &&& stays_below(root, entry.path)
            &&& stays_below(root, entry.tmp)
            &&& stays_below(root, entry.lock)
        },
{
    let root = child(local_cache, source_name_of(artifact));
    assert(!tmp_suffix().contains('/'));
    assert(!lock_name().contains('/'));
    assert(lock_name() != dotdot()) by {
        assert(lock_name().len() == 4);
    }
    lemma_descends_plain(lock_name());
    match artifact {
        ArtifactView::GitlabJob { source_name, project, job_id } => {
            if names.gitlabs.contains(source_name) {
                let number = decimal_text(job_id as nat);
                let dir = child(root, project);
                lemma_decimal_descends(job_id as nat);
                lemma_descends_join(project, number);
                lemma_descends_suffix(project + slash() + number, tmp_suffix());
                lemma_descends_join(project, lock_name());
                lemma_child_stays_below(root, project + slash() + number);
                lemma_child_stays_below(root, project + slash() + number + tmp_suffix());
                lemma_child_stays_below(root, project + slash() + lock_name());
                assert(child(dir, number) =~= child(root, project + slash() + number));
                assert(child(dir, number) + tmp_suffix() =~= child(
                    root,
                    project + slash() + number + tmp_suffix(),
                ));
                assert(child(dir, lock_name()) =~= child(root, project + slash() + lock_name()));
            }
        },
        ArtifactView::Local { .. } => {},
        ArtifactView::Remote { source_name, subpath } => {
            if names.remote_source.contains(source_name) {
                lemma_descends_suffix(subpath, tmp_suffix());
                lemma_child_stays_below(root, subpath);
                lemma_child_stays_below(root, subpath + tmp_suffix());
                lemma_child_stays_below(root, lock_name());
                assert(child(root, subpath) + tmp_suffix() =~= child(root, subpath + tmp_suffix()));
            }
        },
    }
}

/// Path safety of the composite cache: a composite named by the hexadecimal
/// text of a digest stands, is put together and is locked below the
/// directory of the composites, and its name is not that of the lock file.
pub proof fn lemma_composite_entry_stays_below(composites_cache: Seq<char>, digest: Seq<u8>)
    ensures
        ({
            let entry = composite_entry_of(composites_cache, hex_text(digest));
            &&& stays_below(composites_cache, entry.path)
            &&& stays_below(composites_cache, entry.tmp)
            &&& stays_below(composites_cache, entry.lock)
            &&& hex_text(digest) != lock_name()
        }),
{
    let name = hex_text(digest);
    lemma_hex_text_digits(digest);
    if name.contains('/') {
        let i = choose|i: int| 0 <= i < name.len() && name[i] == '/';
        assert(name[i] != '/');
    }
    if name == dotdot() {
        assert(name[0] != '.');
        assert(dotdot()[0] == '.');
    }
    if name == lock_name() {
        assert(name[0] != 'l');
        assert(lock_name()[0] == 'l');
    }
    assert(!tmp_suffix().contains('/'));
    assert(!lock_name().contains('/'));
    assert(lock_name() != dotdot()) by {
        assert(lock_name().len() == 4);
    }
    lemma_descends_plain(name);
    lemma_descends_plain(lock_name());
    lemma_descends_suffix(name, tmp_suffix());
    lemma_child_stays_below(composites_cache, name);
    lemma_child_stays_below(composites_cache, name + tmp_suffix());
    lemma_child_stays_below(composites_cache, lock_name());
    assert(child(composites_cache, name) + tmp_suffix() =~= child(
        composites_cache,
        name + tmp_suffix(),
    ));
}

/// Path safety of what a composite is made from: the files of an artifact
/// that only goes down are read below the directory of its source in the
/// cache, or for a local artifact below the root of its source.
pub proof fn lemma_source_path_stays_below(artifact: ArtifactView, config: Config)
    requires
        artifact_descends(artifact),
    ensures
        source_path_of(artifact, config) matches Some(path) ==> stays_below(
            root_of(artifact, config),
            path,
        ),
{
    match artifact {
        ArtifactView::Local { source_name, key } => {
            lemma_descends_plain(key);
            lemma_child_stays_below(config.local_source@[source_name].root@, key);
        },
        _ => {
            lemma_cache_entry_stays_below(artifact, config.local_cache@, config.source_names());
        },
    }
}

/// Path safety of what is served: a path inside the composite that only
/// goes down, written behind the composite's place, stays below it.
pub proof fn lemma_served_path_stays_below(root: Seq<char>, sub_uri: Seq<char>)
    requires
        sub_uri_descends(sub_uri),
        sub_uri.len() > 0,
    ensures
        stays_below(root, root + sub_uri),
{
    lemma_child_stays_below(root, sub_uri.skip(1));
    assert(root + sub_uri =~= child(root, sub_uri.skip(1)));
}

/// Path safety from request to disk: whatever the request path and the
/// configuration, the cache entry of every artifact of the plan, and the
/// place its files are read from, stay below the directory of its source.
pub proof fn lemma_request_paths_stay_below(uri: Seq<char>, config: Config, plan: PlanView, i: int)
    requires
        parse_uri(uri, config.source_names()) == Ok::<PlanView, ErrorView>(plan),
        0 <= i < plan.artifacts.len(),
    ensures
        cache_entry_of(plan.artifacts[i], config.local_cache@, config.source_names()) matches Some(
            entry,
        ) ==> {
            let root = child(config.local_cache@, source_name_of(plan.artifacts[i]));
            &&& stays_below(root, entry.path)
            &&& stays_below(root, entry.tmp)
            &&& stays_below(root, entry.lock)
        },
        source_path_of(plan.artifacts[i], config) matches Some(path) ==> stays_below(
            root_of(plan.artifacts[i], config),
            path,
        ),
        sub_uri_descends(plan.sub_uri),
{
    lemma_plan_descends(uri, config.source_names());
    lemma_cache_entry_stays_below(plan.artifacts[i], config.local_cache@, config.source_names());
    lemma_source_path_stays_below(plan.artifacts[i], config);
}

/// The path of `name` inside the directory `dir`.
pub fn child_path(dir: &str, name: &str) -> (path: String)
    ensures
        path@ == child(dir@, name@),
{
    let mut out = chars_of(dir);
    out.push('/');
    append_str(&mut out, name);
    assert(out@ =~= child(dir@, name@));
    string_of(out.as_slice())
}

/// The entry named `name` in the directory `dir`, with its lock in
/// `lock_dir`.
pub fn entry_at(lock_dir: String, dir: &str, name: &str) -> (entry: Entry)
    ensures
        entry@ == entry_in(lock_dir@, dir@, name@),
{
    let path = child_path(dir, name);
    let mut tmp = chars_of(path.as_str());
    tmp.push('.');
    tmp.push('t');
    tmp.push('m');
    tmp.push('p');
    assert(tmp@ =~= path@ + tmp_suffix());
    let mut lock = chars_of(lock_dir.as_str());
    lock.push('/');
    lock.push('l');
    lock.push('o');
    lock.push('c');
    lock.push('k');
    assert(lock@ =~= child(lock_dir@, lock_name()));
    Entry {
        path,
        tmp: string_of(tmp.as_slice()),
        lock: string_of(lock.as_slice()),
        lock_dir,
    }
}

impl Artifact {
    /// The cache entry of this artifact, if it has one.
    pub fn cache_entry(&self, config: &Config) -> (entry: Option<Entry>)
        ensures
            match entry {
                Some(e) => cache_entry_of(self@, config.local_cache@, config.source_names())
                    == Some(e@),
                None => cache_entry_of(self@, config.local_cache@, config.source_names()) is None,
            },
    {
        match self {
            Artifact::GitlabJob(job) => {
                if config.gitlabs.contains(&job.source_name) {
                    let source_dir = child_path(
                        config.local_cache.as_str(),
                        job.source_name.as_str(),
                    );
                    let dir = child_path(source_dir.as_str(), job.project.as_str());
                    let number = string_of(decimal(job.job_id).as_slice());
                    let lock_dir = dir.clone();
                    Some(entry_at(lock_dir, dir.as_str(), number.as_str()))
                } else {
                    None
                }
            },
            Artifact::Local(_) => None,
            Artifact::Remote(remote) => {
                if config.remote_source.contains(&remote.source_name) {
                    let dir = child_path(config.local_cache.as_str(), remote.source_name.as_str());
                    let lock_dir = dir.clone();
                    Some(entry_at(lock_dir, dir.as_str(), remote.subpath.as_str()))
                } else {
                    None
                }
            },
        }
    }

    /// Where the files of this artifact are once it is there.
    pub fn source_path(&self, config: &Config) -> (path: Option<String>)
        ensures
            match path {
                Some(p) => source_path_of(self@, *config) == Some(p@),
                None => source_path_of(self@, *config) is None,
            },
    {
        match self {
            Artifact::Local(local) => {
                match config.local_source.get(&local.source_name) {
                    Some(source) => Some(child_path(source.root.as_str(), local.key.as_str())),
                    None => None,
                }
            },
            _ => {
                match self.cache_entry(config) {
                    Some(entry) => Some(entry.path),
                    None => None,
                }
            },
        }
    }
}

/// The entry of the composite of that name.
pub fn composite_entry(config: &Config, name: &str) -> (entry: Entry)
    ensures
        entry@ == composite_entry_of(config.composites_cache@, name@),
{
    let lock_dir = config.composites_cache.clone();
    entry_at(lock_dir, config.composites_cache.as_str(), name)
}

} // verus!
