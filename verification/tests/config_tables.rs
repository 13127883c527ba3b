use speardrive::cmdline::Command;
use speardrive::cmdline::CommandArgs;
use speardrive::config::Config;
use speardrive::config::GitlabJobSource;
use speardrive::config::LocalPathSource;
use speardrive::config::RemoteSource;
use speardrive::config::Sources;
use speardrive::error::Error;
use speardrive::logging::Opt;

fn no_logging() -> Opt {
    Opt {
        log_file: None,
        log_dir: None,
        log_level: None,
        stderr_logging_disable: false,
        max_log_size: 128,
    }
}

fn args(config: Option<&str>) -> CommandArgs {
    CommandArgs {
        config: config.map(|path| path.to_string()),
        dump_config: false,
        cmd: Command::Serve,
        logging: no_logging(),
    }
}

#[test]
fn sources_are_found_by_name() {
    let mut sources = Sources::new();
    assert_eq!(sources.get(&"a".to_string()), None);
    assert!(!sources.contains(&"a".to_string()));
    assert_eq!(sources.insert("a".to_string(), 1), None);
    assert_eq!(sources.insert("b".to_string(), 2), None);
    assert_eq!(sources.get(&"a".to_string()), Some(&1));
    assert_eq!(sources.get(&"b".to_string()), Some(&2));
    assert_eq!(sources.get(&"c".to_string()), None);
    assert!(sources.contains(&"b".to_string()));
    assert!(!sources.contains(&"".to_string()));
}

#[test]
fn a_name_stands_for_the_source_inserted_last() {
    let mut sources = Sources::new();
    sources.insert("a".to_string(), 1);
    sources.insert("b".to_string(), 2);
    assert_eq!(sources.insert("a".to_string(), 3), Some(1));
    assert_eq!(sources.get(&"a".to_string()), Some(&3));
    assert_eq!(sources.get(&"b".to_string()), Some(&2));
    assert_eq!(sources.insert("a".to_string(), 4), Some(3));
    assert_eq!(sources.get(&"a".to_string()), Some(&4));
}

#[test]
fn names_are_listed_once_each() {
    let mut sources = Sources::new();
    assert_eq!(sources.names(), Vec::<String>::new());
    sources.insert("b".to_string(), 1);
    sources.insert("a".to_string(), 2);
    sources.insert("b".to_string(), 3);
    let mut names = sources.names();
    names.sort();
    assert_eq!(names, vec!["a".to_string(), "b".to_string()]);
}

#[test]
fn shared_names_are_found() {
    let mut left = Sources::new();
    left.insert("a".to_string(), 1);
    left.insert("b".to_string(), 2);
    let mut right = Sources::new();
    right.insert("c".to_string(), "x");
    assert_eq!(left.shared_name(&right), None);
    right.insert("b".to_string(), "y");
    assert_eq!(left.shared_name(&right), Some("b".to_string()));
    assert_eq!(right.shared_name(&left), Some("b".to_string()));
    assert_eq!(Sources::<u8>::new().shared_name(&left), None);
}

#[test]
fn example_configuration() {
    let config = Config::example();
    assert_eq!(config.listen_addr, "127.0.0.1:4444");
    assert_eq!(config.composites_cache, "/storage/for/repo-composites");
    assert_eq!(config.local_cache, "/storage/for/cached-job-artifacts");
    assert_eq!(
        config.gitlabs.get(&"myserver".to_string()),
        Some(&GitlabJobSource {
            api_key: "SomeAPIKEYObtainedFromGitlab".to_string(),
            hostname: "git.myserver.com".to_string(),
        })
    );
    assert_eq!(
        config.local_source.get(&"local".to_string()),
        Some(&LocalPathSource { root: "/opt/repo/build-output".to_string() })
    );
    assert!(!config.remote_source.contains(&"local".to_string()));
    assert_eq!(config.check(), Ok(()));
}

#[test]
fn a_name_for_sources_of_two_kinds_is_an_error() {
    let mut config = Config::example();
    config
        .remote_source
        .insert("mirror".to_string(), RemoteSource { base_url: "http://m".to_string() });
    assert_eq!(config.check(), Ok(()));
    config
        .remote_source
        .insert("local".to_string(), RemoteSource { base_url: "http://l".to_string() });
    assert_eq!(
        config.check(),
        Err(Error::Config("local names sources of two kinds".to_string()))
    );
    let mut config = Config::example();
    config
        .local_source
        .insert("myserver".to_string(), LocalPathSource { root: "/srv".to_string() });
    assert_eq!(
        config.check(),
        Err(Error::Config("myserver names sources of two kinds".to_string()))
    );
    let mut config = Config::example();
    config
        .remote_source
        .insert("myserver".to_string(), RemoteSource { base_url: "http://m".to_string() });
    assert_eq!(
        config.check(),
        Err(Error::Config("myserver names sources of two kinds".to_string()))
    );
}

#[test]
fn configuration_path_from_the_command_line_comes_first() {
    assert_eq!(
        args(Some("/etc/a.yaml"))
            .config_path(Some("/env.yaml".to_string()), Some("/home/c.yaml".to_string())),
        Some("/etc/a.yaml".to_string())
    );
    assert_eq!(
        args(None).config_path(Some("/env.yaml".to_string()), Some("/home/c.yaml".to_string())),
        Some("/env.yaml".to_string())
    );
    assert_eq!(
        args(None).config_path(None, Some("/home/c.yaml".to_string())),
        Some("/home/c.yaml".to_string())
    );
    assert_eq!(args(None).config_path(None, None), None);
    assert_eq!(args(Some("x")).config_path(None, None), Some("x".to_string()));
}
