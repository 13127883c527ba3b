use speardrive::action::Action;
use speardrive::action::Event;
use speardrive::error::Error;
use speardrive::fetch::job_actions;
use speardrive::layout::entry_at;
use speardrive::layout::Entry;
use speardrive::making::Making;
use speardrive::making::Next;
use speardrive::making::Phase;
use speardrive::making::RemoteTree;

fn job_entry() -> Entry {
    entry_at("/c/gl/p".to_string(), "/c/gl/p", "42")
}

fn job_making() -> (Making, Action) {
    let entry = job_entry();
    let script = job_actions(&entry.tmp, "gl", "p", 42);
    Making::begin(entry, script)
}

fn remote_making() -> (Making, Action) {
    Making::begin_remote(
        entry_at("/c/m".to_string(), "/c/m", "el9"),
        RemoteTree { base_url: "http://m/pub".to_string(), subpath: "el9".to_string() },
    )
}

fn probe(path: &str) -> Next {
    Next::Do(Action::Probe { path: path.to_string() })
}

fn io_error() -> Error {
    Error::Filesystem("disk full".to_string())
}

/// Feeds the events one after another and gives back what the machine said
/// to each.
fn feed(making: &mut Making, events: Vec<Event>) -> Vec<Next> {
    events.into_iter().map(|event| making.advance(event)).collect()
}

#[test]
fn a_run_begins_with_a_look_at_the_final_place() {
    let (making, first) = job_making();
    assert_eq!(first, Action::Probe { path: "/c/gl/p/42".to_string() });
    assert_eq!(making.phase, Phase::FastCheck);
    assert!(!making.locked);
    assert_eq!(making.next, 0);
}

#[test]
fn an_entry_that_is_there_ends_the_run_at_once() {
    let (mut making, _) = job_making();
    assert_eq!(making.advance(Event::Exists(true)), Next::Finished(Ok(())));
    assert_eq!(making.phase, Phase::Finished);
    assert!(!making.locked);
    assert_eq!(making.next, 0);
}

#[test]
fn a_full_run_follows_the_protocol() {
    let (mut making, _) = job_making();
    let said = feed(
        &mut making,
        vec![
            Event::Exists(false),
            Event::Done,
            Event::Done,
            Event::Exists(false),
            Event::Done,
            Event::Done,
            Event::Done,
            Event::Done,
            Event::Done,
            Event::Done,
        ],
    );
    assert_eq!(
        said,
        vec![
            Next::Do(Action::CreateDirs { path: "/c/gl/p".to_string() }),
            Next::Do(Action::Lock { path: "/c/gl/p/lock".to_string() }),
            probe("/c/gl/p/42"),
            Next::Do(Action::RemoveTree { path: "/c/gl/p/42.tmp".to_string() }),
            Next::Do(Action::CreateDirs { path: "/c/gl/p/42.tmp".to_string() }),
            Next::Do(Action::DownloadJob {
                source_name: "gl".to_string(),
                project: "p".to_string(),
                job_id: 42,
                to: "/c/gl/p/42.tmp/artifacts_zip".to_string(),
            }),
            Next::Do(Action::Run {
                command: "unzip /c/gl/p/42.tmp/artifacts_zip -d /c/gl/p/42.tmp".to_string(),
            }),
            Next::Do(Action::RemoveFile { path: "/c/gl/p/42.tmp/artifacts_zip".to_string() }),
            Next::Do(Action::Rename {
                from: "/c/gl/p/42.tmp".to_string(),
                to: "/c/gl/p/42".to_string(),
            }),
            Next::Finished(Ok(())),
        ]
    );
    assert_eq!(making.phase, Phase::Finished);
    assert!(!making.locked);
}

#[test]
fn the_lock_is_held_from_locking_to_the_end() {
    let (mut making, _) = job_making();
    making.advance(Event::Exists(false));
    assert!(!making.locked);
    making.advance(Event::Done);
    assert_eq!(making.phase, Phase::Locking);
    assert!(!making.locked);
    making.advance(Event::Done);
    assert_eq!(making.phase, Phase::Recheck);
    assert!(making.locked);
    for _ in 0..6 {
        let event = if making.phase == Phase::Recheck { Event::Exists(false) } else { Event::Done };
        making.advance(event);
        assert!(making.locked);
    }
    assert_eq!(making.phase, Phase::Publishing);
    making.advance(Event::Done);
    assert!(!making.locked);
}

#[test]
fn an_entry_that_came_while_waiting_for_the_lock_ends_the_run() {
    let (mut making, _) = job_making();
    let said = feed(
        &mut making,
        vec![Event::Exists(false), Event::Done, Event::Done, Event::Exists(true)],
    );
    assert_eq!(said[2], probe("/c/gl/p/42"));
    assert_eq!(said[3], Next::Finished(Ok(())));
    assert_eq!(making.next, 0);
    assert!(!making.locked);
}

#[test]
fn leftovers_that_cannot_be_removed_do_not_stop_the_run() {
    let (mut making, _) = job_making();
    feed(&mut making, vec![Event::Exists(false), Event::Done, Event::Done, Event::Exists(false)]);
    assert_eq!(making.phase, Phase::Clearing);
    assert_eq!(
        making.advance(Event::Failed(io_error())),
        Next::Do(Action::CreateDirs { path: "/c/gl/p/42.tmp".to_string() })
    );
}

#[test]
fn a_failure_ends_the_run_wherever_it_happens() {
    for steps in 0..10 {
        let (mut making, _) = job_making();
        for _ in 0..steps {
            let event = match making.phase {
                Phase::FastCheck | Phase::Recheck => Event::Exists(false),
                _ => Event::Done,
            };
            assert!(matches!(making.advance(event), Next::Do(_)));
        }
        if making.phase == Phase::Clearing {
            continue;
        }
        assert_eq!(making.advance(Event::Failed(io_error())), Next::Finished(Err(io_error())));
        assert_eq!(making.phase, Phase::Finished);
        assert!(!making.locked);
    }
}

#[test]
fn a_failed_fetch_is_never_published() {
    let (mut making, _) = job_making();
    let said = feed(
        &mut making,
        vec![
            Event::Exists(false),
            Event::Done,
            Event::Done,
            Event::Exists(false),
            Event::Done,
            Event::Done,
            Event::Failed(Error::Upstream("404".to_string())),
            Event::Done,
            Event::Done,
        ],
    );
    assert_eq!(said[6], Next::Finished(Err(Error::Upstream("404".to_string()))));
    assert!(said.iter().all(|next| !matches!(next, Next::Do(Action::Rename { .. }))));
    assert_eq!(said[7], Next::Finished(Err(Error::Internal("unexpected event".to_string()))));
    assert_eq!(said[8], Next::Finished(Err(Error::Internal("unexpected event".to_string()))));
}

#[test]
fn an_answer_to_another_question_ends_the_run() {
    let (mut making, _) = job_making();
    assert_eq!(
        making.advance(Event::Done),
        Next::Finished(Err(Error::Internal("unexpected event".to_string())))
    );
    let (mut making, _) = job_making();
    making.advance(Event::Exists(false));
    assert_eq!(
        making.advance(Event::Exists(true)),
        Next::Finished(Err(Error::Internal("unexpected event".to_string())))
    );
    let (mut making, _) = job_making();
    assert_eq!(
        making.advance(Event::Text("x".to_string())),
        Next::Finished(Err(Error::Internal("unexpected event".to_string())))
    );
}

#[test]
fn a_remote_tree_is_filled_by_its_list() {
    let (mut making, first) = remote_making();
    assert_eq!(first, Action::Probe { path: "/c/m/el9".to_string() });
    let said = feed(
        &mut making,
        vec![
            Event::Exists(false),
            Event::Done,
            Event::Done,
            Event::Exists(false),
            Event::Done,
            Event::Done,
            Event::Text("a.rpm\n\n../repodata/repomd.xml\n".to_string()),
            Event::Done,
            Event::Done,
            Event::Done,
            Event::Done,
            Event::Done,
        ],
    );
    assert_eq!(
        said,
        vec![
            Next::Do(Action::CreateDirs { path: "/c/m".to_string() }),
            Next::Do(Action::Lock { path: "/c/m/lock".to_string() }),
            probe("/c/m/el9"),
            Next::Do(Action::RemoveTree { path: "/c/m/el9.tmp".to_string() }),
            Next::Do(Action::CreateDirs { path: "/c/m/el9.tmp".to_string() }),
            Next::Do(Action::FetchList { url: "http://m/pub/el9/list.txt".to_string() }),
            Next::Do(Action::CreateDirs { path: "/c/m/el9.tmp".to_string() }),
            Next::Do(Action::Download {
                url: "http://m/pub/el9/a.rpm".to_string(),
                to: "/c/m/el9.tmp/a.rpm".to_string(),
            }),
            Next::Do(Action::CreateDirs { path: "/c/m/el9.tmp/repodata".to_string() }),
            Next::Do(Action::Download {
                url: "http://m/pub/el9/repodata/repomd.xml".to_string(),
                to: "/c/m/el9.tmp/repodata/repomd.xml".to_string(),
            }),
            Next::Do(Action::Rename {
                from: "/c/m/el9.tmp".to_string(),
                to: "/c/m/el9".to_string(),
            }),
            Next::Finished(Ok(())),
        ]
    );
}

#[test]
fn an_empty_list_publishes_an_empty_tree() {
    let (mut making, _) = remote_making();
    let said = feed(
        &mut making,
        vec![
            Event::Exists(false),
            Event::Done,
            Event::Done,
            Event::Exists(false),
            Event::Done,
            Event::Done,
            Event::Text("".to_string()),
        ],
    );
    assert_eq!(
        said[6],
        Next::Do(Action::Rename { from: "/c/m/el9.tmp".to_string(), to: "/c/m/el9".to_string() })
    );
}

#[test]
fn a_list_that_cannot_be_had_ends_the_run() {
    let (mut making, _) = remote_making();
    let said = feed(
        &mut making,
        vec![
            Event::Exists(false),
            Event::Done,
            Event::Done,
            Event::Exists(false),
            Event::Done,
            Event::Done,
            Event::Failed(Error::Upstream("no list".to_string())),
        ],
    );
    assert_eq!(said[6], Next::Finished(Err(Error::Upstream("no list".to_string()))));
}

#[test]
fn a_script_without_steps_goes_straight_to_publication() {
    let (mut making, _) = Making::begin(job_entry(), vec![]);
    let said = feed(
        &mut making,
        vec![
            Event::Exists(false),
            Event::Done,
            Event::Done,
            Event::Exists(false),
            Event::Done,
            Event::Done,
        ],
    );
    assert_eq!(
        said[5],
        Next::Do(Action::Rename { from: "/c/gl/p/42.tmp".to_string(), to: "/c/gl/p/42".to_string() })
    );
}

/// A world of two makers of one entry: what exists, and who holds the lock.
struct World {
    existing: Vec<String>,
    lock_holder: Option<usize>,
    fills: Vec<usize>,
}

/// Carries out `next` for maker `who`. Gives the event to report, or nothing
/// where the maker has to wait for the lock or is finished.
fn act(world: &mut World, who: usize, next: &Next) -> Option<Event> {
    match next {
        Next::Finished(_) => {
            if world.lock_holder == Some(who) {
                world.lock_holder = None;
            }
            None
        }
        Next::Do(Action::Probe { path }) => Some(Event::Exists(world.existing.contains(path))),
        Next::Do(Action::Lock { .. }) => {
            if world.lock_holder.is_none() {
                world.lock_holder = Some(who);
                Some(Event::Done)
            } else {
                None
            }
        }
        Next::Do(Action::Rename { to, .. }) => {
            world.existing.push(to.clone());
            Some(Event::Done)
        }
        Next::Do(Action::DownloadJob { .. }) => {
            world.fills.push(who);
            Some(Event::Done)
        }
        Next::Do(_) => Some(Event::Done),
    }
}

#[test]
fn two_makers_of_one_entry_fill_it_once() {
    for first_turns in 0..12 {
        let mut world = World { existing: vec![], lock_holder: None, fills: vec![] };
        let (a, first_a) = job_making();
        let (b, first_b) = job_making();
        let mut makers = vec![a, b];
        let mut said = vec![Next::Do(first_a), Next::Do(first_b)];
        let mut results: Vec<Option<Result<(), Error>>> = vec![None, None];
        let mut turn = 0;
        while results.iter().any(|result| result.is_none()) {
            assert!(turn < 200);
            let who = if turn < first_turns { 0 } else { (turn - first_turns + 1) % 2 };
            turn += 1;
            if results[who].is_some() {
                continue;
            }
            if let Some(event) = act(&mut world, who, &said[who]) {
                said[who] = makers[who].advance(event);
                if let Next::Finished(result) = &said[who] {
                    results[who] = Some(result.clone());
                    act(&mut world, who, &said[who]);
                }
            }
        }
        assert_eq!(results, vec![Some(Ok(())), Some(Ok(()))]);
        assert_eq!(world.fills.len(), 1);
        assert_eq!(world.existing, vec!["/c/gl/p/42".to_string()]);
        assert_eq!(world.lock_holder, None);
    }
}
