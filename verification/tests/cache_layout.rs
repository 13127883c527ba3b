use speardrive::config::Config;
use speardrive::config::GitlabJobSource;
use speardrive::config::LocalPathSource;
use speardrive::config::RemoteSource;
use speardrive::config::Sources;
use speardrive::layout::child_path;
use speardrive::layout::composite_entry;
use speardrive::layout::entry_at;
use speardrive::layout::Entry;
use speardrive::plan::Artifact;
use speardrive::plan::JobArtifact;
use speardrive::plan::LocalArtifact;
use speardrive::plan::Plan;
use speardrive::plan::StaticRemoteArtifact;

fn layout_config() -> Config {
    let mut gitlabs = Sources::new();
    gitlabs.insert(
        "gl".to_string(),
        GitlabJobSource { api_key: "key".to_string(), hostname: "git.example.com".to_string() },
    );
    let mut local_source = Sources::new();
    local_source.insert("local".to_string(), LocalPathSource { root: "/opt/out".to_string() });
    let mut remote_source = Sources::new();
    remote_source.insert(
        "mirror".to_string(),
        RemoteSource { base_url: "http://mirror.example.com/pub".to_string() },
    );
    Config {
        composites_cache: "/var/cache/composites".to_string(),
        local_cache: "/var/cache/artifacts".to_string(),
        listen_addr: "127.0.0.1:4444".to_string(),
        gitlabs,
        local_source,
        remote_source,
    }
}

fn cached_job(source_name: &str, project: &str, job_id: u64) -> Artifact {
    Artifact::GitlabJob(JobArtifact {
        source_name: source_name.to_string(),
        project: project.to_string(),
        job_id,
    })
}

fn stays_below(root: &str, path: &str) -> bool {
    match path.strip_prefix(root) {
        Some(rest) => match rest.strip_prefix('/') {
            Some(rel) => rel.split('/').all(|segment| segment != ".."),
            None => false,
        },
        None => false,
    }
}

#[test]
fn child_path_puts_a_slash_between() {
    assert_eq!(child_path("/a", "b"), "/a/b");
    assert_eq!(child_path("/a/", "b"), "/a//b");
    assert_eq!(child_path("/a", "/etc"), "/a//etc");
    assert_eq!(child_path("", ""), "/");
}

#[test]
fn entry_has_its_temporary_place_beside_it() {
    assert_eq!(
        entry_at("/locks".to_string(), "/dir", "name"),
        Entry {
            path: "/dir/name".to_string(),
            tmp: "/dir/name.tmp".to_string(),
            lock: "/locks/lock".to_string(),
            lock_dir: "/locks".to_string(),
        }
    );
}

#[test]
fn job_entry_is_number_below_project_below_source() {
    let entry = cached_job("gl", "group/proj", 42).cache_entry(&layout_config()).unwrap();
    assert_eq!(
        entry,
        Entry {
            path: "/var/cache/artifacts/gl/group/proj/42".to_string(),
            tmp: "/var/cache/artifacts/gl/group/proj/42.tmp".to_string(),
            lock: "/var/cache/artifacts/gl/group/proj/lock".to_string(),
            lock_dir: "/var/cache/artifacts/gl/group/proj".to_string(),
        }
    );
}

#[test]
fn remote_entry_is_subpath_below_source() {
    let remote = Artifact::Remote(StaticRemoteArtifact {
        source_name: "mirror".to_string(),
        subpath: "el9/x86_64".to_string(),
    });
    assert_eq!(
        remote.cache_entry(&layout_config()).unwrap(),
        Entry {
            path: "/var/cache/artifacts/mirror/el9/x86_64".to_string(),
            tmp: "/var/cache/artifacts/mirror/el9/x86_64.tmp".to_string(),
            lock: "/var/cache/artifacts/mirror/lock".to_string(),
            lock_dir: "/var/cache/artifacts/mirror".to_string(),
        }
    );
}

#[test]
fn local_artifact_has_no_entry() {
    let local = Artifact::Local(LocalArtifact {
        source_name: "local".to_string(),
        key: "key1".to_string(),
    });
    assert_eq!(local.cache_entry(&layout_config()), None);
    assert_eq!(local.source_path(&layout_config()), Some("/opt/out/key1".to_string()));
}

#[test]
fn artifacts_of_sources_that_are_not_configured_have_no_place() {
    let config = layout_config();
    assert_eq!(cached_job("other", "group", 1).cache_entry(&config), None);
    assert_eq!(cached_job("other", "group", 1).source_path(&config), None);
    assert_eq!(cached_job("local", "group", 1).cache_entry(&config), None);
    let remote = Artifact::Remote(StaticRemoteArtifact {
        source_name: "gl".to_string(),
        subpath: "x".to_string(),
    });
    assert_eq!(remote.cache_entry(&config), None);
    assert_eq!(remote.source_path(&config), None);
    let local = Artifact::Local(LocalArtifact {
        source_name: "gl".to_string(),
        key: "key1".to_string(),
    });
    assert_eq!(local.source_path(&config), None);
}

#[test]
fn cached_artifacts_are_read_from_their_entries() {
    let config = layout_config();
    assert_eq!(
        cached_job("gl", "group/proj", 42).source_path(&config),
        Some("/var/cache/artifacts/gl/group/proj/42".to_string())
    );
    let remote = Artifact::Remote(StaticRemoteArtifact {
        source_name: "mirror".to_string(),
        subpath: "el9".to_string(),
    });
    assert_eq!(remote.source_path(&config), Some("/var/cache/artifacts/mirror/el9".to_string()));
}

#[test]
fn composite_entry_is_locked_in_the_composites_cache() {
    assert_eq!(
        composite_entry(&layout_config(), "00ff"),
        Entry {
            path: "/var/cache/composites/00ff".to_string(),
            tmp: "/var/cache/composites/00ff.tmp".to_string(),
            lock: "/var/cache/composites/lock".to_string(),
            lock_dir: "/var/cache/composites".to_string(),
        }
    );
}

#[test]
fn paths_from_requests_stay_below_their_roots() {
    let config = layout_config();
    let uris = [
        "/gl/../../../etc/shadow/1",
        "/gl/a/../../b/../7",
        "/gl//etc/passwd/1",
        "/gl/..a/b../.../1",
        "/mirror/../../../etc",
        "/mirror/..",
        "/mirror//abs/path",
        "/local/../../etc/passwd",
        "/local/a/../b",
        "/gl/x/1/-/mirror/../y/-/local/../z/-/rpm/../../w",
    ];
    for uri in uris {
        let plan = Plan::from_uri(uri, &config).unwrap();
        for artifact in plan.artifacts.iter() {
            let (root, name) = match artifact {
                Artifact::GitlabJob(job) => ("/var/cache/artifacts", job.source_name.clone()),
                Artifact::Remote(remote) => ("/var/cache/artifacts", remote.source_name.clone()),
                Artifact::Local(_) => ("/opt", "out".to_string()),
            };
            let root = child_path(root, &name);
            if let Some(entry) = artifact.cache_entry(&config) {
                assert!(stays_below(&root, &entry.path), "{} for {}", entry.path, uri);
                assert!(stays_below(&root, &entry.tmp), "{} for {}", entry.tmp, uri);
                assert!(stays_below(&root, &entry.lock), "{} for {}", entry.lock, uri);
            }
            let source = artifact.source_path(&config).unwrap();
            assert!(stays_below(&root, &source), "{} for {}", source, uri);
        }
        assert!(plan.sub_uri.split('/').all(|segment| segment != ".."));
    }
}
