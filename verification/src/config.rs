//! The configuration of the gateway: where the caches are, where to listen,
//! and the sources by name.

use crate::error::Error;
use crate::error::ErrorView;
use crate::text::append_str;
use crate::text::chars_of;
use crate::text::string_of;
use vstd::prelude::*;

verus! {

/// A job server: artifacts of its CI jobs are fetched with `api_key` from
/// `hostname`.
#[derive(Clone, Debug, PartialEq, Eq)]
pub struct GitlabJobSource {
    pub api_key: String,
    pub hostname: String,
}

/// A local directory whose subtrees are served as they are.
#[derive(Clone, Debug, PartialEq, Eq)]
pub struct LocalPathSource {
    pub root: String,
}

/// A static remote tree, described by a list of its files.
#[derive(Clone, Debug, PartialEq, Eq)]
pub struct RemoteSource {
    pub base_url: String,
}

/// The source that the first entry of that name gives, if there is one.
pub open spec fn lookup<T>(entries: Seq<(String, T)>, name: Seq<char>) -> Option<T>
    decreases entries.len(),
{
    if entries.len() == 0 {
        None
    } else if entries[0].0@ == name {
        Some(entries[0].1)
    } else {
        lookup(entries.skip(1), name)
    }
}

/// Whether no two entries have one name.
pub open spec fn distinct<T>(entries: Seq<(String, T)>) -> bool {
    forall|i: int, j: int|
        0 <= i < j < entries.len() ==> (#[trigger] entries[i]).0@ != (#[trigger] entries[j]).0@
}

/// The entries as a map from name to source.
pub open spec fn as_map<T>(entries: Seq<(String, T)>) -> Map<Seq<char>, T> {
    Map::new(
        |name: Seq<char>| lookup(entries, name) is Some,
        |name: Seq<char>| lookup(entries, name)->0,
    )
}

/// Where the entries before `at` do not have the name, the lookup goes by
/// the entries from `at` on.
proof fn lemma_lookup_skip<T>(entries: Seq<(String, T)>, name: Seq<char>, at: int)
    requires
        0 <= at <= entries.len(),
        forall|k: int| 0 <= k < at ==> (#[trigger] entries[k]).0@ != name,
    ensures
        lookup(entries, name) == lookup(entries.skip(at), name),
    decreases at,
{
    if at == 0 {
        assert(entries.skip(0) =~= entries);
    } else {
        lemma_lookup_skip(entries, name, at - 1);
        let rest = entries.skip(at - 1);
        assert(rest[0] == entries[at - 1]);
        assert(rest.skip(1) =~= entries.skip(at));
    }
}

/// A lookup after one more entry was added at the end.
proof fn lemma_lookup_push<T>(entries: Seq<(String, T)>, entry: (String, T), name: Seq<char>)
    ensures
        lookup(entries.push(entry), name) == if lookup(entries, name) is Some {
            lookup(entries, name)
        } else if entry.0@ == name {
            Some(entry.1)
        } else {
            None
        },
    decreases entries.len(),
{
    let more = entries.push(entry);
    if entries.len() == 0 {
        assert(more.skip(1) =~= Seq::<(String, T)>::empty());
        assert(lookup(more.skip(1), name) is None);
        assert(more[0] == entry);
    } else {
        assert(more[0] == entries[0]);
        assert(more.skip(1) =~= entries.skip(1).push(entry));
        lemma_lookup_push(entries.skip(1), entry, name);
    }
}

/// A lookup after the first entry of a name got another source.
proof fn lemma_lookup_update<T>(
    entries: Seq<(String, T)>,
    at: int,
    entry: (String, T),
    name: Seq<char>,
)
    requires
        0 <= at < entries.len(),
        entries[at].0@ == entry.0@,
        forall|k: int| 0 <= k < at ==> (#[trigger] entries[k]).0@ != entry.0@,
    ensures
        lookup(entries.update(at, entry), name) == if name == entry.0@ {
            Some(entry.1)
        } else {
            lookup(entries, name)
        },
    decreases at,
{
    let changed = entries.update(at, entry);
    if at == 0 {
        assert(changed.skip(1) =~= entries.skip(1));
    } else {
        assert(changed[0] == entries[0]);
        assert(changed.skip(1) =~= entries.skip(1).update(at - 1, entry));
        assert forall|k: int| 0 <= k < at - 1 implies (#[trigger] entries.skip(1)[k]).0@
            != entry.0@ by {
            assert(entries.skip(1)[k] == entries[k + 1]);
        }
        lemma_lookup_update(entries.skip(1), at - 1, entry, name);
    }
}

/// The name of every entry is looked up with success.
proof fn lemma_lookup_some<T>(entries: Seq<(String, T)>, at: int)
    requires
        0 <= at < entries.len(),
    ensures
        lookup(entries, entries[at].0@) is Some,
    decreases at,
{
    if at > 0 && entries[0].0@ != entries[at].0@ {
        assert(entries.skip(1)[at - 1] == entries[at]);
        lemma_lookup_some(entries.skip(1), at - 1);
    }
}

/// A name that is looked up with success is the name of an entry.
proof fn lemma_lookup_place<T>(entries: Seq<(String, T)>, name: Seq<char>) -> (at: int)
    requires
        lookup(entries, name) is Some,
    ensures
        0 <= at < entries.len(),
        entries[at].0@ == name,
    decreases entries.len(),
{
    if entries[0].0@ == name {
        0
    } else {
        let at = lemma_lookup_place(entries.skip(1), name);
        assert(entries.skip(1)[at] == entries[at + 1]);
        at + 1
    }
}

/// Sources of one kind by name. A name stands for the source that was
/// inserted under it last.
#[derive(Clone, Debug, PartialEq, Eq)]
pub struct Sources<T> {
    entries: Vec<(String, T)>,
}

impl<T> View for Sources<T> {
    type V = Map<Seq<char>, T>;

    closed spec fn view(&self) -> Map<Seq<char>, T> {
        as_map(self.entries@)
    }
}

impl<T> Sources<T> {
    /// Whether no name occurs twice among the entries. `new` and `insert`
    /// keep it so.
    pub closed spec fn wf(&self) -> bool {
        distinct(self.entries@)
    }

    /// No sources.
    pub fn new() -> (sources: Self)
        ensures
            sources@ == Map::<Seq<char>, T>::empty(),
            sources.wf(),
    {
        let sources = Sources { entries: Vec::new() };
        assert(sources@ =~= Map::<Seq<char>, T>::empty());
        sources
    }

    /// The place of the first entry of that name.
    fn find(&self, name: &String) -> (at: Option<usize>)
        ensures
            match at {
                Some(i) => {
                    &&& i < self.entries@.len()
                    &&& self.entries@[i as int].0@ == name@
                    &&& forall|k: int| 0 <= k < i ==> (#[trigger] self.entries@[k]).0@ != name@
                    &&& lookup(self.entries@, name@) == Some(self.entries@[i as int].1)
                },
                None => {
                    &&& forall|k: int|
                        0 <= k < self.entries@.len() ==> (#[trigger] self.entries@[k]).0@ != name@
                    &&& lookup(self.entries@, name@) is None
                },
            },
    {
        let mut i: usize = 0;
        while i < self.entries.len()
            invariant
                i <= self.entries@.len(),
                forall|k: int| 0 <= k < i ==> (#[trigger] self.entries@[k]).0@ != name@,
            decreases self.entries@.len() - i,
        {
            if self.entries[i].0 == *name {
                proof {
                    lemma_lookup_skip(self.entries@, name@, i as int);
                    assert(self.entries@.skip(i as int)[0] == self.entries@[i as int]);
                }
                return Some(i);
            }
            i += 1;
        }
        proof {
            lemma_lookup_skip(self.entries@, name@, i as int);
        }
        None
    }

    /// The source of that name, if there is one.
    pub fn get(&self, name: &String) -> (found: Option<&T>)
        ensures
            match found {
                Some(source) => self@.contains_key(name@) && *source == self@[name@],
                None => !self@.contains_key(name@),
            },
    {
        match self.find(name) {
            Some(i) => Some(&self.entries[i].1),
            None => None,
        }
    }

    /// Whether there is a source of that name.
    pub fn contains(&self, name: &String) -> (found: bool)
        ensures
            found == self@.contains_key(name@),
    {
        self.find(name).is_some()
    }

    /// The names that stand for a source.
    pub fn names(&self) -> (names: Vec<String>)
        ensures
            forall|i: int| 0 <= i < names@.len() ==> self@.contains_key((#[trigger] names@[i])@),
            forall|name: Seq<char>|
                self@.contains_key(name) ==> exists|i: int|
                    0 <= i < names@.len() && (#[trigger] names@[i])@ == name,
            self.wf() ==> forall|i: int, j: int|
                0 <= i < j < names@.len() ==> (#[trigger] names@[i])@ != (#[trigger] names@[j])@,
    {
        let mut names: Vec<String> = Vec::new();
        let mut i: usize = 0;
        while i < self.entries.len()
            invariant
                i <= self.entries@.len(),
                names@.len() == i,
                forall|k: int| 0 <= k < i ==> (#[trigger] names@[k])@ == self.entries@[k].0@,
            decreases self.entries@.len() - i,
        {
            names.push(self.entries[i].0.clone());
            i += 1;
        }
        proof {
            assert forall|k: int| 0 <= k < names@.len() implies self@.contains_key(
                (#[trigger] names@[k])@,
            ) by {
                lemma_lookup_some(self.entries@, k);
            }
            assert forall|name: Seq<char>| self@.contains_key(name) implies exists|k: int|
                0 <= k < names@.len() && (#[trigger] names@[k])@ == name by {
                let k = lemma_lookup_place(self.entries@, name);
                assert(names@[k]@ == name);
            }
        }
        names
    }

    /// A name that both have, if there is one.
    pub fn shared_name<U>(&self, other: &Sources<U>) -> (shared: Option<String>)
        ensures
            match shared {
                Some(name) => self@.contains_key(name@) && other@.contains_key(name@),
                None => self@.dom().disjoint(other@.dom()),
            },
    {
        let mut i: usize = 0;
        while i < self.entries.len()
            invariant
                i <= self.entries@.len(),
                forall|k: int|
                    0 <= k < i ==> !other@.contains_key((#[trigger] self.entries@[k]).0@),
            decreases self.entries@.len() - i,
        {
            if other.contains(&self.entries[i].0) {
                proof {
                    lemma_lookup_some(self.entries@, i as int);
                }
                return Some(self.entries[i].0.clone());
            }
            i += 1;
        }
        proof {
            assert forall|name: Seq<char>|
                !(self@.dom().contains(name) && other@.dom().contains(name)) by {
                if self@.dom().contains(name) {
                    let k = lemma_lookup_place(self.entries@, name);
                }
            }
        }
        None
    }

    /// Puts `source` under `name`, in place of the source that had the name
    /// before, which is returned.
    pub fn insert(&mut self, name: String, source: T) -> (before: Option<T>)
        ensures
            final(self)@ == old(self)@.insert(name@, source),
            match before {
                Some(s) => old(self)@.contains_key(name@) && s == old(self)@[name@],
                None => !old(self)@.contains_key(name@),
            },
            old(self).wf() ==> final(self).wf(),
    {
        let ghost was = self.entries@;
        let ghost entry = (name, source);
        match self.find(&name) {
            Some(i) => {
                let gone = self.entries.remove(i);
                self.entries.insert(i, (name, source));
                proof {
                    assert(self.entries@ =~= was.update(i as int, entry));
                    assert forall|k: Seq<char>| #[trigger]
                        lookup(self.entries@, k) == if k == entry.0@ {
                            Some(entry.1)
                        } else {
                            lookup(was, k)
                        } by {
                        lemma_lookup_update(was, i as int, entry, k);
                    }
                    assert(as_map(self.entries@) =~= as_map(was).insert(entry.0@, entry.1));
                    if distinct(was) {
                        assert forall|a: int, b: int|
                            0 <= a < b < self.entries@.len() implies (#[trigger] self.entries@[a]).0@
                            != (#[trigger] self.entries@[b]).0@ by {
                            assert(was[a].0@ != was[b].0@);
                        }
                    }
                }
                Some(gone.1)
            },
            None => {
                self.entries.push((name, source));
                proof {
                    assert(self.entries@ =~= was.push(entry));
                    assert forall|k: Seq<char>| #[trigger]
                        lookup(self.entries@, k) == if lookup(was, k) is Some {
                            lookup(was, k)
                        } else if entry.0@ == k {
                            Some(entry.1)
                        } else {
                            None
                        } by {
                        lemma_lookup_push(was, entry, k);
                    }
                    assert(as_map(self.entries@) =~= as_map(was).insert(entry.0@, entry.1));
                    if distinct(was) {
                        assert forall|a: int, b: int|
                            0 <= a < b < self.entries@.len() implies (#[trigger] self.entries@[a]).0@
                            != (#[trigger] self.entries@[b]).0@ by {
                            if b < was.len() {
                                assert(was[a].0@ != was[b].0@);
                            } else {
                                assert(self.entries@[a] == was[a]);
                            }
                        }
                    }
                }
                None
            },
        }
    }
}

/// The configuration: fixed once it is loaded.
#[derive(Clone, Debug, PartialEq, Eq)]
pub struct Config {
    /// The directory of the composites.
    pub composites_cache: String,
    /// The directory of the cached artifacts.
    pub local_cache: String,
    /// The address to listen on.
    pub listen_addr: String,
    /// The job servers.
    pub gitlabs: Sources<GitlabJobSource>,
    /// The local directories.
    pub local_source: Sources<LocalPathSource>,
    /// The static remote trees.
    pub remote_source: Sources<RemoteSource>,
}

/// The names of the configured sources, kind by kind.
pub struct SourceNames {
    pub gitlabs: Set<Seq<char>>,
    pub local_source: Set<Seq<char>>,
    pub remote_source: Set<Seq<char>>,
}

/// What is written behind a name that two kinds of sources share.
pub open spec fn collision_note() -> Seq<char> {
    " names sources of two kinds"@
}

impl Config {
    pub open spec fn source_names(&self) -> SourceNames {
        SourceNames {
            gitlabs: self.gitlabs@.dom(),
            local_source: self.local_source@.dom(),
            remote_source: self.remote_source@.dom(),
        }
    }

    /// Whether no name stands for sources of two kinds.
    pub open spec fn names_apart(&self) -> bool {
        &&& self.gitlabs@.dom().disjoint(self.local_source@.dom())
        &&& self.gitlabs@.dom().disjoint(self.remote_source@.dom())
        &&& self.local_source@.dom().disjoint(self.remote_source@.dom())
    }

    /// Finds a name that stands for sources of two kinds, which is an error
    /// of the configuration.
    pub fn check(&self) -> (checked: Result<(), Error>)
        ensures
            checked is Ok <==> self.names_apart(),
            checked matches Err(e) ==> exists|name: Seq<char>|
                e@ == ErrorView::Config(name + collision_note()) && (#[trigger] self.names_twice(
                    name,
                )),
    {
        let shared = match self.gitlabs.shared_name(&self.local_source) {
            Some(name) => Some(name),
            None => match self.gitlabs.shared_name(&self.remote_source) {
                Some(name) => Some(name),
                None => self.local_source.shared_name(&self.remote_source),
            },
        };
        match shared {
            Some(name) => {
                let mut note = chars_of(name.as_str());
                append_str(&mut note, " names sources of two kinds");
                let e = Error::Config(string_of(note.as_slice()));
                assert(self.names_twice(name@));
                Err(e)
            },
            None => Ok(()),
        }
    }

    /// Whether `name` stands for sources of two kinds.
    pub open spec fn names_twice(&self, name: Seq<char>) -> bool {
        ||| self.gitlabs@.contains_key(name) && self.local_source@.contains_key(name)
        ||| self.gitlabs@.contains_key(name) && self.remote_source@.contains_key(name)
        ||| self.local_source@.contains_key(name) && self.remote_source@.contains_key(name)
    }

    /// A configuration to show what one looks like.
    pub fn example() -> (config: Config)
        ensures
            config.listen_addr@ == "127.0.0.1:4444"@,
            config.composites_cache@ == "/storage/for/repo-composites"@,
            config.local_cache@ == "/storage/for/cached-job-artifacts"@,
            config.gitlabs@.dom() == set!["myserver"@],
            config.gitlabs@["myserver"@].api_key@ == "SomeAPIKEYObtainedFromGitlab"@,
            config.gitlabs@["myserver"@].hostname@ == "git.myserver.com"@,
            config.local_source@.dom() == set!["local"@],
            config.local_source@["local"@].root@ == "/opt/repo/build-output"@,
            config.remote_source@ == Map::<Seq<char>, RemoteSource>::empty(),
    {
        let mut gitlabs = Sources::new();
        gitlabs.insert(
            "myserver".to_owned(),
            GitlabJobSource {
                api_key: "SomeAPIKEYObtainedFromGitlab".to_owned(),
                hostname: "git.myserver.com".to_owned(),
            },
        );
        let mut local_source = Sources::new();
        local_source.insert(
            "local".to_owned(),
            LocalPathSource { root: "/opt/repo/build-output".to_owned() },
        );
        assert(gitlabs@.dom() =~= set!["myserver"@]);
        assert(local_source@.dom() =~= set!["local"@]);
        Config {
            composites_cache: "/storage/for/repo-composites".to_owned(),
            local_cache: "/storage/for/cached-job-artifacts".to_owned(),
            listen_addr: "127.0.0.1:4444".to_owned(),
            gitlabs,
            local_source,
            remote_source: Sources::new(),
        }
    }
}

} // verus!
