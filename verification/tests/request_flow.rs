use speardrive::action::Action;
use speardrive::action::Event;
use speardrive::config::Config;
use speardrive::config::GitlabJobSource;
use speardrive::config::LocalPathSource;
use speardrive::config::RemoteSource;
use speardrive::config::Sources;
use speardrive::error::Error;
use speardrive::request::refuse;
use speardrive::request::Refusal;
use speardrive::request::Reply;
use speardrive::request::Request;
use speardrive::request::Stage;

const JOB_42: &str = "/var/cache/artifacts/gl/group/proj/42";
const JOB_7: &str = "/var/cache/artifacts/gl/other/proj/7";
const ONE_JOB: &str =
    "/var/cache/composites/732f3d7e16ce5dd6f9ccf68d41fa846b32f08f31c116525f8a63b69b26501717";
const TWO_JOBS: &str =
    "/var/cache/composites/b6a664d86767512233f81aa291bfcdca89657d36851cfaab9a16cf1ef5c23a94";
const LOCAL_KEY: &str =
    "/var/cache/composites/c228258ac230b0fa0822eac18a0b926e497c3b51a1db1ec323d631f69d809c1c";

fn flow_config() -> Config {
    let mut gitlabs = Sources::new();
    gitlabs.insert(
        "gl".to_string(),
        GitlabJobSource { api_key: "key".to_string(), hostname: "git.example.com".to_string() },
    );
    let mut local_source = Sources::new();
    local_source.insert("local".to_string(), LocalPathSource { root: "/opt/out".to_string() });
    let mut remote_source = Sources::new();
    remote_source.insert(
        "mirror".to_string(),
        RemoteSource { base_url: "http://mirror.example.com/pub".to_string() },
    );
    Config {
        composites_cache: "/var/cache/composites".to_string(),
        local_cache: "/var/cache/artifacts".to_string(),
        listen_addr: "127.0.0.1:4444".to_string(),
        gitlabs,
        local_source,
        remote_source,
    }
}

fn is_network(action: &Action) -> bool {
    matches!(
        action,
        Action::DownloadJob { .. } | Action::FetchList { .. } | Action::Download { .. }
    )
}

/// Serves one request in a world where the paths of `existing` exist and
/// every action succeeds. Gives the actions that were asked for and the
/// reply.
fn serve(uri: &str, existing: &mut Vec<String>) -> (Vec<Action>, Reply) {
    let config = flow_config();
    let (mut request, first) = match Request::begin(uri, &config) {
        Ok(started) => started,
        Err(refusal) => return (vec![], Reply::Refuse(refusal)),
    };
    let mut actions = vec![];
    let mut action = first;
    loop {
        assert!(actions.len() < 1000);
        let event = match &action {
            Action::Probe { path } => Event::Exists(existing.contains(path)),
            Action::Rename { to, .. } => {
                existing.push(to.clone());
                Event::Done
            }
            Action::FetchList { .. } => Event::Text("a.rpm\n".to_string()),
            _ => Event::Done,
        };
        actions.push(action);
        let (after, reply) = request.advance(&config, event);
        request = after;
        match reply {
            Reply::Do(next) => action = next,
            other => {
                assert_eq!(request.stage, Stage::Over);
                return (actions, other);
            }
        }
    }
}

#[test]
fn one_job_is_fetched_composed_and_served() {
    let mut existing = vec![];
    let (actions, reply) = serve("/gl/group/proj/42/-/rpm/repodata/repomd.xml", &mut existing);
    assert_eq!(
        reply,
        Reply::Serve { root: ONE_JOB.to_string(), path: "/repodata/repomd.xml".to_string() }
    );
    assert_eq!(existing, vec![JOB_42.to_string(), ONE_JOB.to_string()]);
    let tmp = format!("{}.tmp", ONE_JOB);
    assert_eq!(
        actions,
        vec![
            Action::Probe { path: JOB_42.to_string() },
            Action::CreateDirs { path: "/var/cache/artifacts/gl/group/proj".to_string() },
            Action::Lock { path: "/var/cache/artifacts/gl/group/proj/lock".to_string() },
            Action::Probe { path: JOB_42.to_string() },
            Action::RemoveTree { path: format!("{}.tmp", JOB_42) },
            Action::CreateDirs { path: format!("{}.tmp", JOB_42) },
            Action::DownloadJob {
                source_name: "gl".to_string(),
                project: "group/proj".to_string(),
                job_id: 42,
                to: format!("{}.tmp/artifacts_zip", JOB_42),
            },
            Action::Run {
                command: format!("unzip {}.tmp/artifacts_zip -d {}.tmp", JOB_42, JOB_42),
            },
            Action::RemoveFile { path: format!("{}.tmp/artifacts_zip", JOB_42) },
            Action::Rename { from: format!("{}.tmp", JOB_42), to: JOB_42.to_string() },
            Action::Probe { path: ONE_JOB.to_string() },
            Action::CreateDirs { path: "/var/cache/composites".to_string() },
            Action::Lock { path: "/var/cache/composites/lock".to_string() },
            Action::Probe { path: ONE_JOB.to_string() },
            Action::RemoveTree { path: tmp.clone() },
            Action::CreateDirs { path: tmp.clone() },
            Action::Run {
                command: format!(
                    "cp -al {} {}/0/ || cp -a {} {}/0/",
                    JOB_42, tmp, JOB_42, tmp
                ),
            },
            Action::WriteFile {
                path: format!("{}/url.txt", tmp),
                contents: "/gl/group/proj/42/-/rpm/repodata/repomd.xml".to_string(),
            },
            Action::Run { command: format!("createrepo {}", tmp) },
            Action::Rename { from: tmp.clone(), to: ONE_JOB.to_string() },
        ]
    );
}

#[test]
fn a_second_request_touches_no_network() {
    let mut existing = vec![];
    let uri = "/gl/group/proj/42/-/rpm/repodata/repomd.xml";
    let (_, first_reply) = serve(uri, &mut existing);
    let (actions, reply) = serve(uri, &mut existing);
    assert_eq!(reply, first_reply);
    assert_eq!(
        actions,
        vec![Action::Probe { path: JOB_42.to_string() }, Action::Probe { path: ONE_JOB.to_string() }]
    );
    assert!(actions.iter().all(|action| !is_network(action)));
}

#[test]
fn another_file_of_the_same_plan_shares_the_composite() {
    let mut existing = vec![];
    serve("/gl/group/proj/42/-/rpm/repodata/repomd.xml", &mut existing);
    let (actions, reply) = serve("/gl/group/proj/42/-/rpm/Packages/x.rpm", &mut existing);
    assert_eq!(
        reply,
        Reply::Serve { root: ONE_JOB.to_string(), path: "/Packages/x.rpm".to_string() }
    );
    assert_eq!(actions.len(), 2);
}

#[test]
fn two_jobs_are_made_in_order_and_copied_side_by_side() {
    let mut existing = vec![];
    let (actions, reply) =
        serve("/gl/group/proj/42/-/gl/other/proj/7/-/rpm/Packages/x.rpm", &mut existing);
    assert_eq!(
        reply,
        Reply::Serve { root: TWO_JOBS.to_string(), path: "/Packages/x.rpm".to_string() }
    );
    assert_eq!(existing, vec![JOB_42.to_string(), JOB_7.to_string(), TWO_JOBS.to_string()]);
    let downloads: Vec<u64> = actions
        .iter()
        .filter_map(|action| match action {
            Action::DownloadJob { job_id, .. } => Some(*job_id),
            _ => None,
        })
        .collect();
    assert_eq!(downloads, vec![42, 7]);
    let commands: Vec<String> = actions
        .iter()
        .filter_map(|action| match action {
            Action::Run { command } if !command.starts_with("unzip ") => Some(command.clone()),
            _ => None,
        })
        .collect();
    let tmp = format!("{}.tmp", TWO_JOBS);
    assert_eq!(
        commands,
        vec![
            format!("cp -al {} {}/0/ || cp -a {} {}/0/", JOB_42, tmp, JOB_42, tmp),
            format!("cp -al {} {}/1/ || cp -a {} {}/1/", JOB_7, tmp, JOB_7, tmp),
            format!("createrepo {}", tmp),
        ]
    );
}

#[test]
fn a_local_artifact_is_copied_without_any_fetch() {
    let mut existing = vec![];
    let (actions, reply) = serve("/local/build/key1/-/rpm/", &mut existing);
    assert_eq!(reply, Reply::Serve { root: LOCAL_KEY.to_string(), path: "/".to_string() });
    assert!(actions.iter().all(|action| !is_network(action)));
    assert_eq!(actions[0], Action::Probe { path: LOCAL_KEY.to_string() });
    let tmp = format!("{}.tmp", LOCAL_KEY);
    assert!(actions.contains(&Action::Run {
        command: format!("cp -al /opt/out/key1 {}/0/ || cp -a /opt/out/key1 {}/0/", tmp, tmp),
    }));
    assert_eq!(existing, vec![LOCAL_KEY.to_string()]);
}

#[test]
fn a_remote_tree_is_listed_and_mirrored() {
    let mut existing = vec![];
    let (actions, reply) = serve("/mirror/el9/-/rpm/a.rpm", &mut existing);
    assert!(matches!(reply, Reply::Serve { .. }));
    assert!(actions.contains(&Action::FetchList {
        url: "http://mirror.example.com/pub/el9/list.txt".to_string(),
    }));
    assert!(actions.contains(&Action::Download {
        url: "http://mirror.example.com/pub/el9/a.rpm".to_string(),
        to: "/var/cache/artifacts/mirror/el9.tmp/a.rpm".to_string(),
    }));
    assert_eq!(existing[0], "/var/cache/artifacts/mirror/el9");
}

#[test]
fn a_path_without_a_plan_is_refused_with_400() {
    let mut existing = vec![];
    let (actions, reply) = serve("/unknown/x/1", &mut existing);
    assert_eq!(actions, vec![]);
    assert_eq!(
        reply,
        Reply::Refuse(Refusal { status: 400, body: "UnknownSource(\"unknown\")".to_string() })
    );
    let (_, reply) = serve("/gl", &mut existing);
    assert_eq!(
        reply,
        Reply::Refuse(Refusal {
            status: 400,
            body: "PlanParse(\"not enough components\")".to_string(),
        })
    );
}

#[test]
fn a_failure_on_the_way_is_refused_with_400() {
    let config = flow_config();
    let (request, _) = Request::begin("/gl/group/proj/42/-/rpm/x", &config).unwrap();
    let (request, reply) = request.advance(&config, Event::Exists(false));
    assert!(matches!(reply, Reply::Do(Action::CreateDirs { .. })));
    let (request, reply) =
        request.advance(&config, Event::Failed(Error::Filesystem("read-only".to_string())));
    assert_eq!(
        reply,
        Reply::Refuse(Refusal { status: 400, body: "Filesystem(\"read-only\")".to_string() })
    );
    assert_eq!(request.stage, Stage::Over);
    let (_, reply) = request.advance(&config, Event::Done);
    assert_eq!(
        reply,
        Reply::Refuse(Refusal { status: 400, body: "Internal(\"unexpected event\")".to_string() })
    );
}

#[test]
fn a_failed_composite_is_refused_and_not_served() {
    let config = flow_config();
    let (mut request, _) = Request::begin("/local/key1/-/rpm/x", &config).unwrap();
    assert_eq!(request.stage, Stage::Composite);
    for event in [Event::Exists(false), Event::Done, Event::Done, Event::Exists(false)] {
        let (after, reply) = request.advance(&config, event);
        assert!(matches!(reply, Reply::Do(_)));
        request = after;
    }
    let (request, _) = request.advance(&config, Event::Done);
    let (request, reply) = request.advance(&config, Event::Done);
    assert!(matches!(reply, Reply::Do(Action::Run { .. })));
    let failed = Event::Failed(Error::CommandError("bash".to_string(), "cp".to_string()));
    let (_, reply) = request.advance(&config, failed);
    assert_eq!(
        reply,
        Reply::Refuse(Refusal {
            status: 400,
            body: "CommandError(\"bash\", \"cp\")".to_string(),
        })
    );
}

#[test]
fn refusal_of_an_error() {
    assert_eq!(
        refuse(&Error::Upstream("timeout".to_string())),
        Refusal { status: 400, body: "Upstream(\"timeout\")".to_string() }
    );
}

/// What two requests share: the paths that exist, and who holds which lock.
struct Shared {
    existing: Vec<String>,
    locks: Vec<(String, usize)>,
    commands: Vec<String>,
}

/// Carries out `action` for requester `who`, or gives nothing where the
/// requester has to wait for a lock.
fn act_for(shared: &mut Shared, who: usize, action: &Action) -> Option<Event> {
    match action {
        Action::Probe { path } => Some(Event::Exists(shared.existing.contains(path))),
        Action::Lock { path } => {
            if shared.locks.iter().any(|(held, _)| held == path) {
                None
            } else {
                shared.locks.push((path.clone(), who));
                Some(Event::Done)
            }
        }
        Action::Rename { to, .. } => {
            assert!(!shared.existing.contains(to));
            shared.existing.push(to.clone());
            Some(Event::Done)
        }
        Action::Run { command } => {
            shared.commands.push(command.clone());
            Some(Event::Done)
        }
        _ => Some(Event::Done),
    }
}

#[test]
fn two_requests_for_one_plan_build_one_composite() {
    let config = flow_config();
    let uri = "/local/key1/-/rpm/repodata/repomd.xml";
    for head_start in 0..14 {
        let mut shared = Shared { existing: vec![], locks: vec![], commands: vec![] };
        let mut requests = vec![];
        let mut pending = vec![];
        for _ in 0..2 {
            let (request, first) = Request::begin(uri, &config).unwrap();
            requests.push(Some(request));
            pending.push(first);
        }
        let mut replies: Vec<Option<Reply>> = vec![None, None];
        let mut turn = 0;
        while replies.iter().any(|reply| reply.is_none()) {
            assert!(turn < 500);
            let who = if turn < head_start { 0 } else { (turn - head_start) % 2 };
            turn += 1;
            if replies[who].is_some() {
                continue;
            }
            let event = match act_for(&mut shared, who, &pending[who]) {
                Some(event) => event,
                None => continue,
            };
            let (request, reply) = requests[who].take().unwrap().advance(&config, event);
            if !request.making.locked {
                shared.locks.retain(|(_, holder)| *holder != who);
            }
            requests[who] = Some(request);
            match reply {
                Reply::Do(next) => pending[who] = next,
                other => replies[who] = Some(other),
            }
        }
        let served = Reply::Serve {
            root: LOCAL_KEY.to_string(),
            path: "/repodata/repomd.xml".to_string(),
        };
        assert_eq!(replies, vec![Some(served.clone()), Some(served)]);
        let builds = shared.commands.iter().filter(|c| c.starts_with("createrepo ")).count();
        assert_eq!(builds, 1, "with a head start of {}", head_start);
        assert_eq!(shared.existing, vec![LOCAL_KEY.to_string()]);
        assert!(shared.locks.is_empty());
    }
}
